//! Which names patterns, statements and functions bind, and to what.

use vstd::prelude::*;

use crate::annotation::{annotation_of, mentions};
use crate::json::{items_size, JsonView};
use crate::model::TypeExprView;
use crate::param::param_pattern;
use crate::scope::{
    scanned, scanned_all, scanned_cases, with_all_names, with_declarators, with_names,
    with_projection, with_projections, BindingView, ScanView, ScopeMap, STMT_DEPTH_LIMIT,
};
use crate::syntax::key_name;
use crate::usage::{function_scope, type_param_names, with_param};

verus! {

broadcast use {crate::json::group_json_sizes, crate::json::group_json_views};

/// The kinds of patterns differ.
pub proof fn lemma_pattern_kinds()
    ensures
        "Identifier"@ != "ObjectPattern"@,
        "Identifier"@ != "ArrayPattern"@,
        "Identifier"@ != "Property"@,
        "Identifier"@ != "AssignmentPattern"@,
        "Identifier"@ != "RestElement"@,
        "Identifier"@ != "TSParameterProperty"@,
        "ObjectPattern"@ != "ArrayPattern"@,
        "ObjectPattern"@ != "Property"@,
        "ObjectPattern"@ != "AssignmentPattern"@,
        "ObjectPattern"@ != "RestElement"@,
        "ObjectPattern"@ != "TSParameterProperty"@,
        "ArrayPattern"@ != "Property"@,
        "ArrayPattern"@ != "AssignmentPattern"@,
        "ArrayPattern"@ != "RestElement"@,
        "ArrayPattern"@ != "TSParameterProperty"@,
        "Property"@ != "AssignmentPattern"@,
        "Property"@ != "RestElement"@,
        "Property"@ != "TSParameterProperty"@,
        "AssignmentPattern"@ != "RestElement"@,
        "AssignmentPattern"@ != "TSParameterProperty"@,
        "RestElement"@ != "TSParameterProperty"@,
        "Identifier"@.len() > 0,
        "ObjectPattern"@.len() > 0,
        "ArrayPattern"@.len() > 0,
        "Property"@.len() > 0,
        "AssignmentPattern"@.len() > 0,
        "RestElement"@.len() > 0,
        "TSParameterProperty"@.len() > 0,
{
    reveal_strlit("Identifier");
    reveal_strlit("ObjectPattern");
    reveal_strlit("ArrayPattern");
    reveal_strlit("Property");
    reveal_strlit("AssignmentPattern");
    reveal_strlit("RestElement");
    reveal_strlit("TSParameterProperty");
    assert("Identifier"@.len() == 10);
    assert("ObjectPattern"@.len() == 13);
    assert("ArrayPattern"@.len() == 12);
    assert("Property"@.len() == 8);
    assert("AssignmentPattern"@.len() == 17);
    assert("RestElement"@.len() == 11);
    assert("TSParameterProperty"@.len() == 19);
}

/// The kinds of statements differ.
pub proof fn lemma_statement_kinds()
    ensures
        "VariableDeclaration"@ != "FunctionDeclaration"@,
        "VariableDeclaration"@ != "TSDeclareFunction"@,
        "VariableDeclaration"@ != "ClassDeclaration"@,
        "VariableDeclaration"@ != "TSTypeAliasDeclaration"@,
        "VariableDeclaration"@ != "TSInterfaceDeclaration"@,
        "VariableDeclaration"@ != "TSEnumDeclaration"@,
        "VariableDeclaration"@ != "BlockStatement"@,
        "VariableDeclaration"@ != "IfStatement"@,
        "VariableDeclaration"@ != "ForStatement"@,
        "VariableDeclaration"@ != "ForInStatement"@,
        "VariableDeclaration"@ != "ForOfStatement"@,
        "VariableDeclaration"@ != "WhileStatement"@,
        "VariableDeclaration"@ != "DoWhileStatement"@,
        "VariableDeclaration"@ != "LabeledStatement"@,
        "VariableDeclaration"@ != "SwitchStatement"@,
        "VariableDeclaration"@ != "TryStatement"@,
        "FunctionDeclaration"@ != "TSDeclareFunction"@,
        "FunctionDeclaration"@ != "ClassDeclaration"@,
        "FunctionDeclaration"@ != "TSTypeAliasDeclaration"@,
        "FunctionDeclaration"@ != "TSInterfaceDeclaration"@,
        "FunctionDeclaration"@ != "TSEnumDeclaration"@,
        "FunctionDeclaration"@ != "BlockStatement"@,
        "FunctionDeclaration"@ != "IfStatement"@,
        "FunctionDeclaration"@ != "ForStatement"@,
        "FunctionDeclaration"@ != "ForInStatement"@,
        "FunctionDeclaration"@ != "ForOfStatement"@,
        "FunctionDeclaration"@ != "WhileStatement"@,
        "FunctionDeclaration"@ != "DoWhileStatement"@,
        "FunctionDeclaration"@ != "LabeledStatement"@,
        "FunctionDeclaration"@ != "SwitchStatement"@,
        "FunctionDeclaration"@ != "TryStatement"@,
        "TSDeclareFunction"@ != "ClassDeclaration"@,
        "TSDeclareFunction"@ != "TSTypeAliasDeclaration"@,
        "TSDeclareFunction"@ != "TSInterfaceDeclaration"@,
        "TSDeclareFunction"@ != "TSEnumDeclaration"@,
        "TSDeclareFunction"@ != "BlockStatement"@,
        "TSDeclareFunction"@ != "IfStatement"@,
        "TSDeclareFunction"@ != "ForStatement"@,
        "TSDeclareFunction"@ != "ForInStatement"@,
        "TSDeclareFunction"@ != "ForOfStatement"@,
        "TSDeclareFunction"@ != "WhileStatement"@,
        "TSDeclareFunction"@ != "DoWhileStatement"@,
        "TSDeclareFunction"@ != "LabeledStatement"@,
        "TSDeclareFunction"@ != "SwitchStatement"@,
        "TSDeclareFunction"@ != "TryStatement"@,
        "ClassDeclaration"@ != "TSTypeAliasDeclaration"@,
        "ClassDeclaration"@ != "TSInterfaceDeclaration"@,
        "ClassDeclaration"@ != "TSEnumDeclaration"@,
        "ClassDeclaration"@ != "BlockStatement"@,
        "ClassDeclaration"@ != "IfStatement"@,
        "ClassDeclaration"@ != "ForStatement"@,
        "ClassDeclaration"@ != "ForInStatement"@,
        "ClassDeclaration"@ != "ForOfStatement"@,
        "ClassDeclaration"@ != "WhileStatement"@,
        "ClassDeclaration"@ != "DoWhileStatement"@,
        "ClassDeclaration"@ != "LabeledStatement"@,
        "ClassDeclaration"@ != "SwitchStatement"@,
        "ClassDeclaration"@ != "TryStatement"@,
        "TSTypeAliasDeclaration"@ != "TSInterfaceDeclaration"@,
        "TSTypeAliasDeclaration"@ != "TSEnumDeclaration"@,
        "TSTypeAliasDeclaration"@ != "BlockStatement"@,
        "TSTypeAliasDeclaration"@ != "IfStatement"@,
        "TSTypeAliasDeclaration"@ != "ForStatement"@,
        "TSTypeAliasDeclaration"@ != "ForInStatement"@,
        "TSTypeAliasDeclaration"@ != "ForOfStatement"@,
        "TSTypeAliasDeclaration"@ != "WhileStatement"@,
        "TSTypeAliasDeclaration"@ != "DoWhileStatement"@,
        "TSTypeAliasDeclaration"@ != "LabeledStatement"@,
        "TSTypeAliasDeclaration"@ != "SwitchStatement"@,
        "TSTypeAliasDeclaration"@ != "TryStatement"@,
        "TSInterfaceDeclaration"@ != "TSEnumDeclaration"@,
        "TSInterfaceDeclaration"@ != "BlockStatement"@,
        "TSInterfaceDeclaration"@ != "IfStatement"@,
        "TSInterfaceDeclaration"@ != "ForStatement"@,
        "TSInterfaceDeclaration"@ != "ForInStatement"@,
        "TSInterfaceDeclaration"@ != "ForOfStatement"@,
        "TSInterfaceDeclaration"@ != "WhileStatement"@,
        "TSInterfaceDeclaration"@ != "DoWhileStatement"@,
        "TSInterfaceDeclaration"@ != "LabeledStatement"@,
        "TSInterfaceDeclaration"@ != "SwitchStatement"@,
        "TSInterfaceDeclaration"@ != "TryStatement"@,
        "TSEnumDeclaration"@ != "BlockStatement"@,
        "TSEnumDeclaration"@ != "IfStatement"@,
        "TSEnumDeclaration"@ != "ForStatement"@,
        "TSEnumDeclaration"@ != "ForInStatement"@,
        "TSEnumDeclaration"@ != "ForOfStatement"@,
        "TSEnumDeclaration"@ != "WhileStatement"@,
        "TSEnumDeclaration"@ != "DoWhileStatement"@,
        "TSEnumDeclaration"@ != "LabeledStatement"@,
        "TSEnumDeclaration"@ != "SwitchStatement"@,
        "TSEnumDeclaration"@ != "TryStatement"@,
        "BlockStatement"@ != "IfStatement"@,
        "BlockStatement"@ != "ForStatement"@,
        "BlockStatement"@ != "ForInStatement"@,
        "BlockStatement"@ != "ForOfStatement"@,
        "BlockStatement"@ != "WhileStatement"@,
        "BlockStatement"@ != "DoWhileStatement"@,
        "BlockStatement"@ != "LabeledStatement"@,
        "BlockStatement"@ != "SwitchStatement"@,
        "BlockStatement"@ != "TryStatement"@,
        "IfStatement"@ != "ForStatement"@,
        "IfStatement"@ != "ForInStatement"@,
        "IfStatement"@ != "ForOfStatement"@,
        "IfStatement"@ != "WhileStatement"@,
        "IfStatement"@ != "DoWhileStatement"@,
        "IfStatement"@ != "LabeledStatement"@,
        "IfStatement"@ != "SwitchStatement"@,
        "IfStatement"@ != "TryStatement"@,
        "ForStatement"@ != "ForInStatement"@,
        "ForStatement"@ != "ForOfStatement"@,
        "ForStatement"@ != "WhileStatement"@,
        "ForStatement"@ != "DoWhileStatement"@,
        "ForStatement"@ != "LabeledStatement"@,
        "ForStatement"@ != "SwitchStatement"@,
        "ForStatement"@ != "TryStatement"@,
        "ForInStatement"@ != "ForOfStatement"@,
        "ForInStatement"@ != "WhileStatement"@,
        "ForInStatement"@ != "DoWhileStatement"@,
        "ForInStatement"@ != "LabeledStatement"@,
        "ForInStatement"@ != "SwitchStatement"@,
        "ForInStatement"@ != "TryStatement"@,
        "ForOfStatement"@ != "WhileStatement"@,
        "ForOfStatement"@ != "DoWhileStatement"@,
        "ForOfStatement"@ != "LabeledStatement"@,
        "ForOfStatement"@ != "SwitchStatement"@,
        "ForOfStatement"@ != "TryStatement"@,
        "WhileStatement"@ != "DoWhileStatement"@,
        "WhileStatement"@ != "LabeledStatement"@,
        "WhileStatement"@ != "SwitchStatement"@,
        "WhileStatement"@ != "TryStatement"@,
        "DoWhileStatement"@ != "LabeledStatement"@,
        "DoWhileStatement"@ != "SwitchStatement"@,
        "DoWhileStatement"@ != "TryStatement"@,
        "LabeledStatement"@ != "SwitchStatement"@,
        "LabeledStatement"@ != "TryStatement"@,
        "SwitchStatement"@ != "TryStatement"@,
        "VariableDeclaration"@.len() > 0,
        "FunctionDeclaration"@.len() > 0,
        "TSDeclareFunction"@.len() > 0,
        "ClassDeclaration"@.len() > 0,
        "TSTypeAliasDeclaration"@.len() > 0,
        "TSInterfaceDeclaration"@.len() > 0,
        "TSEnumDeclaration"@.len() > 0,
        "BlockStatement"@.len() > 0,
        "IfStatement"@.len() > 0,
        "ForStatement"@.len() > 0,
        "ForInStatement"@.len() > 0,
        "ForOfStatement"@.len() > 0,
        "WhileStatement"@.len() > 0,
        "DoWhileStatement"@.len() > 0,
        "LabeledStatement"@.len() > 0,
        "SwitchStatement"@.len() > 0,
        "TryStatement"@.len() > 0,
{
    reveal_strlit("VariableDeclaration");
    reveal_strlit("FunctionDeclaration");
    reveal_strlit("TSDeclareFunction");
    reveal_strlit("ClassDeclaration");
    reveal_strlit("TSTypeAliasDeclaration");
    reveal_strlit("TSInterfaceDeclaration");
    reveal_strlit("TSEnumDeclaration");
    reveal_strlit("BlockStatement");
    reveal_strlit("IfStatement");
    reveal_strlit("ForStatement");
    reveal_strlit("ForInStatement");
    reveal_strlit("ForOfStatement");
    reveal_strlit("WhileStatement");
    reveal_strlit("DoWhileStatement");
    reveal_strlit("LabeledStatement");
    reveal_strlit("SwitchStatement");
    reveal_strlit("TryStatement");
    assert("VariableDeclaration"@.len() == 19);
    assert("FunctionDeclaration"@.len() == 19);
    assert("TSDeclareFunction"@.len() == 17);
    assert("ClassDeclaration"@.len() == 16);
    assert("TSTypeAliasDeclaration"@.len() == 22);
    assert("TSInterfaceDeclaration"@.len() == 22);
    assert("TSEnumDeclaration"@.len() == 17);
    assert("BlockStatement"@.len() == 14);
    assert("IfStatement"@.len() == 11);
    assert("ForStatement"@.len() == 12);
    assert("ForInStatement"@.len() == 14);
    assert("ForOfStatement"@.len() == 14);
    assert("WhileStatement"@.len() == 14);
    assert("DoWhileStatement"@.len() == 16);
    assert("LabeledStatement"@.len() == 16);
    assert("SwitchStatement"@.len() == 15);
    assert("TryStatement"@.len() == 12);
    assert("VariableDeclaration"@[0] == 'V');
    assert("FunctionDeclaration"@[0] == 'F');
    assert("TSDeclareFunction"@[2] == 'D');
    assert("TSEnumDeclaration"@[2] == 'E');
    assert("ClassDeclaration"@[0] == 'C');
    assert("DoWhileStatement"@[0] == 'D');
    assert("LabeledStatement"@[0] == 'L');
    assert("TSTypeAliasDeclaration"@[2] == 'T');
    assert("TSInterfaceDeclaration"@[2] == 'I');
    assert("BlockStatement"@[0] == 'B');
    assert("ForInStatement"@[0] == 'F');
    assert("ForOfStatement"@[0] == 'F');
    assert("WhileStatement"@[0] == 'W');
    assert("ForStatement"@[0] == 'F');
    assert("TryStatement"@[0] == 'T');
    assert("ForInStatement"@[3] == 'I');
    assert("ForOfStatement"@[3] == 'O');
}

// ---------------------------------------------------------------------------
// Patterns
// ---------------------------------------------------------------------------

/// Whether a pattern binds a name, itself or in one of its parts.
pub open spec fn binds(n: JsonView, name: Seq<char>) -> bool
    decreases n.size(),
{
    ||| n.is_kind("Identifier"@) && n.name() == name
    ||| n.is_kind("ObjectPattern"@) && !(n is Null) && any_binds(
        n.get("properties"@).items(),
        name,
    )
    ||| n.is_kind("ArrayPattern"@) && !(n is Null) && any_binds(n.get("elements"@).items(), name)
    ||| n.is_kind("Property"@) && !(n is Null) && binds(n.get("value"@), name)
    ||| n.is_kind("AssignmentPattern"@) && !(n is Null) && binds(n.get("left"@), name)
    ||| n.is_kind("RestElement"@) && !(n is Null) && binds(n.get("argument"@), name)
    ||| n.is_kind("TSParameterProperty"@) && !(n is Null) && binds(n.get("parameter"@), name)
}

/// Whether one of the patterns binds a name.
pub open spec fn any_binds(items: Seq<JsonView>, name: Seq<char>) -> bool
    decreases items_size(items),
{
    items.len() > 0 && (binds(items.last(), name) || any_binds(items.drop_last(), name))
}

/// One of several patterns binds a name just if some pattern among them does.
pub proof fn law_any_pattern(items: Seq<JsonView>, name: Seq<char>)
    ensures
        any_binds(items, name) <==> exists|i: int|
            0 <= i < items.len() && binds(#[trigger] items[i], name),
    decreases items.len(),
{
    if items.len() > 0 {
        let front = items.drop_last();
        law_any_pattern(front, name);
        if any_binds(items, name) {
            if binds(items.last(), name) {
                assert(binds(items[items.len() - 1], name));
            } else {
                let i = choose|i: int| 0 <= i < front.len() && binds(#[trigger] front[i], name);
                assert(items[i] == front[i]);
            }
        }
        if exists|i: int| 0 <= i < items.len() && binds(#[trigger] items[i], name) {
            let i = choose|i: int| 0 <= i < items.len() && binds(#[trigger] items[i], name);
            if i < front.len() {
                assert(front[i] == items[i]);
            }
        }
    }
}

/// A scope after a pattern has its names as local ones; the others mean what
/// they meant before.
pub open spec fn adds_locals(
    before: ScopeMap,
    after: ScopeMap,
    name: Seq<char>,
    bound: bool,
) -> bool {
    if bound {
        after.contains_key(name) && after[name] == BindingView::LocalOther
    } else {
        &&& after.contains_key(name) == before.contains_key(name)
        &&& before.contains_key(name) ==> after[name] == before[name]
    }
}

/// Just the names that a pattern binds become local, whatever they meant.
pub proof fn law_patterns_bind_their_names(n: JsonView, scope: ScopeMap, name: Seq<char>)
    ensures
        adds_locals(scope, with_names(n, scope), name, binds(n, name)),
    decreases n.size(), 1int,
{
    lemma_pattern_kinds();
    if n is Null {
        assert(n.get("type"@).text() =~= Seq::<char>::empty());
    } else if n.is_kind("Identifier"@) {
    } else if n.is_kind("ObjectPattern"@) {
        lemma_lists_bind_their_names(n.get("properties"@).items(), scope, name);
    } else if n.is_kind("ArrayPattern"@) {
        lemma_lists_bind_their_names(n.get("elements"@).items(), scope, name);
    } else if n.is_kind("Property"@) {
        law_patterns_bind_their_names(n.get("value"@), scope, name);
    } else if n.is_kind("AssignmentPattern"@) {
        law_patterns_bind_their_names(n.get("left"@), scope, name);
    } else if n.is_kind("RestElement"@) {
        law_patterns_bind_their_names(n.get("argument"@), scope, name);
    } else if n.is_kind("TSParameterProperty"@) {
        law_patterns_bind_their_names(n.get("parameter"@), scope, name);
    }
}

proof fn lemma_lists_bind_their_names(items: Seq<JsonView>, scope: ScopeMap, name: Seq<char>)
    ensures
        adds_locals(scope, with_all_names(items, scope), name, any_binds(items, name)),
    decreases items_size(items), 0int,
{
    if items.len() > 0 {
        lemma_lists_bind_their_names(items.drop_last(), scope, name);
        law_patterns_bind_their_names(
            items.last(),
            with_all_names(items.drop_last(), scope),
            name,
        );
    }
}

// ---------------------------------------------------------------------------
// Destructured parameters
// ---------------------------------------------------------------------------

/// The pattern of a value with a known type: a name has that type, with or
/// without a default; an array pattern tells nothing of its names.
pub proof fn law_typed_patterns(n: JsonView, ty: TypeExprView, scope: ScopeMap, name: Seq<char>)
    ensures
        n.is_kind("Identifier"@) ==> with_projection(n, ty, scope) == scope.insert(
            n.name(),
            BindingView::Param { ann: Some(ty) },
        ),
        n.is_kind("AssignmentPattern"@) ==> with_projection(n, ty, scope) == with_projection(
            n.get("left"@),
            ty,
            scope,
        ),
        n.is_kind("ArrayPattern"@) ==> adds_locals(
            scope,
            with_projection(n, ty, scope),
            name,
            binds(n, name),
        ),
{
    lemma_pattern_kinds();
    if n is Null {
        assert(n.get("type"@).text() =~= Seq::<char>::empty());
    }
    law_patterns_bind_their_names(n, scope, name);
}

/// A property that is destructured by a known key has the type of that
/// property, with or without a default; one inside another that of the
/// property of the property.
pub proof fn law_destructured_properties(
    items: Seq<JsonView>,
    prop: JsonView,
    base: TypeExprView,
    scope: ScopeMap,
    key: Seq<char>,
)
    requires
        prop.is_kind("Property"@),
        key_name(prop) == Some(key),
    ensures
        ({
            let before = with_projections(items, base, scope);
            let after = with_projections(items.push(prop), base, scope);
            let v = prop.get("value"@);
            let ty = TypeExprView::Proj(Box::new(base), key);
            &&& v.is_kind("Identifier"@) ==> after == before.insert(
                v.name(),
                BindingView::Param { ann: Some(ty) },
            )
            &&& v.is_kind("AssignmentPattern"@) && v.get("left"@).is_kind("Identifier"@)
                ==> after == before.insert(
                v.get("left"@).name(),
                BindingView::Param { ann: Some(ty) },
            )
            &&& v.is_kind("ObjectPattern"@) ==> after == with_projections(
                v.get("properties"@).items(),
                ty,
                before,
            )
        }),
        with_projections(Seq::empty(), base, scope) == scope,
{
    lemma_pattern_kinds();
    let v = prop.get("value"@);
    let ty = TypeExprView::Proj(Box::new(base), key);
    let more = items.push(prop);
    assert(more.drop_last() =~= items);
    assert(more.last() == prop);
    let before = with_projections(items, base, scope);
    law_typed_patterns(v, ty, before, key);
    if v.is_kind("AssignmentPattern"@) {
        law_typed_patterns(v.get("left"@), ty, before, key);
    }
    if v is Null {
        assert(v.get("type"@).text() =~= Seq::<char>::empty());
    }
    assert(with_projections(more, base, scope) == with_projection(v, ty, before));
    if v.is_kind("ObjectPattern"@) {
        assert(with_projection(v, ty, before) == with_projections(
            v.get("properties"@).items(),
            ty,
            before,
        ));
    }
}

/// What is left over, and what has a key that is not known, is destructured
/// into local names.
pub proof fn law_other_destructured_names(
    items: Seq<JsonView>,
    prop: JsonView,
    base: TypeExprView,
    scope: ScopeMap,
    name: Seq<char>,
)
    requires
        prop.is_kind("RestElement"@) || key_name(prop) is None,
    ensures
        adds_locals(
            with_projections(items, base, scope),
            with_projections(items.push(prop), base, scope),
            name,
            binds(prop, name),
        ),
{
    lemma_pattern_kinds();
    let more = items.push(prop);
    assert(more.drop_last() =~= items);
    assert(more.last() == prop);
    law_patterns_bind_their_names(prop, with_projections(items, base, scope), name);
}

// ---------------------------------------------------------------------------
// Functions
// ---------------------------------------------------------------------------

/// A parameter is bound with its annotation, unless that names a type that
/// only the function knows.
pub proof fn law_parameters_are_bound(
    n: JsonView,
    src: Seq<char>,
    shadows: Seq<Set<Seq<char>>>,
    scope: ScopeMap,
    name: Seq<char>,
)
    ensures
        ({
            let p = param_pattern(n);
            let ann = annotation_of(p, src);
            let after = with_param(n, src, shadows, scope);
            &&& p.is_kind("Identifier"@) && ann is Some && !mentions(ann->0, shadows) ==> after
                == scope.insert(p.name(), BindingView::Param { ann })
            &&& p.is_kind("Identifier"@) && (ann is None || mentions(ann->0, shadows)) ==> after
                == scope.insert(p.name(), BindingView::Param { ann: None })
            &&& p.is_kind("ObjectPattern"@) && ann is Some && !mentions(ann->0, shadows) ==> after
                == with_projections(p.get("properties"@).items(), ann->0, scope)
            &&& p.is_kind("ObjectPattern"@) && (ann is None || mentions(ann->0, shadows))
                ==> adds_locals(scope, after, name, binds(p, name))
            &&& p.is_kind("ArrayPattern"@) ==> adds_locals(scope, after, name, binds(p, name))
        }),
{
    lemma_pattern_kinds();
    law_patterns_bind_their_names(param_pattern(n), scope, name);
}

/// The parameters of a function are bound one after the other, over what its
/// body declares; its type parameters are type names that only it knows.
pub proof fn law_function_scopes(
    f: JsonView,
    src: Seq<char>,
    shadows: Seq<Set<Seq<char>>>,
    items: Seq<JsonView>,
    last: JsonView,
    i: int,
)
    requires
        f.get("params"@).items() == items.push(last),
        param_pattern(last).is_kind("Identifier"@),
        annotation_of(param_pattern(last), src) is None,
    ensures
        ({
            let scope = function_scope(f, src, shadows);
            let name = param_pattern(last).name();
            let generics = f.get("typeParameters"@).get("params"@).items();
            &&& scope.values.contains_key(name)
            &&& scope.values[name] == (BindingView::Param { ann: None })
            &&& 0 <= i < generics.len() ==> scope.types.contains(generics[i].get("name"@).name())
        }),
{
    let params = f.get("params"@).items();
    assert(params.drop_last() =~= items);
    assert(params.last() == last);
    let generics = f.get("typeParameters"@).get("params"@).items();
    let types = type_param_names(generics);
    let start = ScanView { values: Map::empty(), types };
    if 0 <= i < generics.len() {
        let name = generics[i].get("name"@).name();
        lemma_type_param(generics, i);
        law_statements_declare(f.get("body"@).get("body"@).items(), 0, start, name);
    }
}

proof fn lemma_type_param(items: Seq<JsonView>, i: int)
    requires
        0 <= i < items.len(),
    ensures
        type_param_names(items).contains(items[i].get("name"@).name()),
    decreases items.len(),
{
    if i < items.len() - 1 {
        lemma_type_param(items.drop_last(), i);
    }
}

// ---------------------------------------------------------------------------
// Statements
// ---------------------------------------------------------------------------

/// Whether a declaration of variables binds a name.
pub open spec fn variables_bind(n: JsonView, name: Seq<char>) -> bool {
    n.is_kind("VariableDeclaration"@) && exists|i: int|
        0 <= i < n.get("declarations"@).items().len() && binds(
            (#[trigger] n.get("declarations"@).items()[i]).get("id"@),
            name,
        )
}

/// Whether a statement declares a value of the given name, itself or in one of
/// the statements inside it, down to the depth that is looked into.
pub open spec fn declares_value(n: JsonView, depth: int, name: Seq<char>) -> bool
    decreases STMT_DEPTH_LIMIT + 1 - depth, 0int, 0nat,
{
    depth <= STMT_DEPTH_LIMIT && {
        ||| variables_bind(n, name)
        ||| (n.is_kind("FunctionDeclaration"@) || n.is_kind("TSDeclareFunction"@) || n.is_kind(
            "ClassDeclaration"@,
        ) || n.is_kind("TSEnumDeclaration"@)) && !(n.get("id"@) is Null) && n.get("id"@).name()
            == name
        ||| n.is_kind("BlockStatement"@) && some_declares(n.get("body"@).items(), depth + 1, name)
        ||| n.is_kind("IfStatement"@) && (declares_value(n.get("consequent"@), depth + 1, name)
            || declares_value(n.get("alternate"@), depth + 1, name))
        ||| n.is_kind("ForStatement"@) && (variables_bind(n.get("init"@), name) || declares_value(
            n.get("body"@),
            depth + 1,
            name,
        ))
        ||| (n.is_kind("ForInStatement"@) || n.is_kind("ForOfStatement"@)) && (variables_bind(
            n.get("left"@),
            name,
        ) || declares_value(n.get("body"@), depth + 1, name))
        ||| (n.is_kind("WhileStatement"@) || n.is_kind("DoWhileStatement"@) || n.is_kind(
            "LabeledStatement"@,
        )) && declares_value(n.get("body"@), depth + 1, name)
        ||| n.is_kind("SwitchStatement"@) && case_declares(
            n.get("cases"@).items(),
            depth + 1,
            name,
        )
        ||| n.is_kind("TryStatement"@) && (some_declares(
            n.get("block"@).get("body"@).items(),
            depth + 1,
            name,
        ) || binds(n.get("handler"@).get("param"@), name) || some_declares(
            n.get("handler"@).get("body"@).get("body"@).items(),
            depth + 1,
            name,
        ) || some_declares(n.get("finalizer"@).get("body"@).items(), depth + 1, name))
    }
}

/// Whether one of the statements declares a value of the given name.
pub open spec fn some_declares(items: Seq<JsonView>, depth: int, name: Seq<char>) -> bool
    decreases STMT_DEPTH_LIMIT + 1 - depth, 1int, items.len(),
{
    items.len() > 0 && (declares_value(items.last(), depth, name) || some_declares(
        items.drop_last(),
        depth,
        name,
    ))
}

/// Whether a statement of one of the cases declares a value of the given name.
pub open spec fn case_declares(items: Seq<JsonView>, depth: int, name: Seq<char>) -> bool
    decreases STMT_DEPTH_LIMIT + 1 - depth, 2int, items.len(),
{
    items.len() > 0 && (some_declares(items.last().get("consequent"@).items(), depth, name)
        || case_declares(items.drop_last(), depth, name))
}

proof fn lemma_declarators_bind(items: Seq<JsonView>, scope: ScopeMap, name: Seq<char>)
    ensures
        adds_locals(
            scope,
            with_declarators(items, scope),
            name,
            exists|i: int|
                0 <= i < items.len() && binds((#[trigger] items[i]).get("id"@), name),
        ),
    decreases items.len(),
{
    if items.len() > 0 {
        let front = items.drop_last();
        let before = with_declarators(front, scope);
        lemma_declarators_bind(front, scope, name);
        law_patterns_bind_their_names(items.last().get("id"@), before, name);
        if exists|i: int| 0 <= i < front.len() && binds((#[trigger] front[i]).get("id"@), name) {
            let i = choose|i: int|
                0 <= i < front.len() && binds((#[trigger] front[i]).get("id"@), name);
            assert(items[i] == front[i]);
            assert(binds(items[i].get("id"@), name));
        }
        if exists|i: int| 0 <= i < items.len() && binds((#[trigger] items[i]).get("id"@), name) {
            let i = choose|i: int|
                0 <= i < items.len() && binds((#[trigger] items[i]).get("id"@), name);
            if i < front.len() {
                assert(front[i] == items[i]);
                assert(binds(front[i].get("id"@), name));
            }
        }
        if binds(items.last().get("id"@), name) {
            assert(binds(items[items.len() - 1].get("id"@), name));
        }
    }
}

proof fn lemma_variables_bind(n: JsonView, s: ScanView, name: Seq<char>)
    ensures
        adds_locals(s.values, s.variables(n).values, name, variables_bind(n, name)),
        s.variables(n).types == s.types,
{
    lemma_declarators_bind(n.get("declarations"@).items(), s.values, name);
}

/// Just the values that a statement declares become local, and types that were
/// known stay known.
pub proof fn law_a_statement_declares(n: JsonView, depth: int, s: ScanView, name: Seq<char>)
    ensures
        adds_locals(
            s.values,
            scanned(n, depth, s).values,
            name,
            declares_value(n, depth, name),
        ),
        s.types.contains(name) ==> scanned(n, depth, s).types.contains(name),
    decreases STMT_DEPTH_LIMIT + 1 - depth, 0int, 0nat,
{
    if depth <= STMT_DEPTH_LIMIT {
        lemma_statement_kinds();
        if n.is_kind("VariableDeclaration"@) {
            lemma_variables_bind(n, s, name);
        } else if n.is_kind("BlockStatement"@) {
            law_statements_declare(n.get("body"@).items(), depth + 1, s, name);
        } else if n.is_kind("IfStatement"@) {
            let a = n.get("consequent"@);
            law_a_statement_declares(a, depth + 1, s, name);
            law_a_statement_declares(
                n.get("alternate"@),
                depth + 1,
                scanned(a, depth + 1, s),
                name,
            );
        } else if n.is_kind("ForStatement"@) {
            lemma_variables_bind(n.get("init"@), s, name);
            law_a_statement_declares(
                n.get("body"@),
                depth + 1,
                s.variables(n.get("init"@)),
                name,
            );
        } else if n.is_kind("ForInStatement"@) || n.is_kind("ForOfStatement"@) {
            lemma_variables_bind(n.get("left"@), s, name);
            law_a_statement_declares(
                n.get("body"@),
                depth + 1,
                s.variables(n.get("left"@)),
                name,
            );
        } else if n.is_kind("WhileStatement"@) || n.is_kind("DoWhileStatement"@) || n.is_kind(
            "LabeledStatement"@,
        ) {
            law_a_statement_declares(n.get("body"@), depth + 1, s, name);
        } else if n.is_kind("SwitchStatement"@) {
            lemma_cases_declare(n.get("cases"@).items(), depth + 1, s, name);
        } else if n.is_kind("TryStatement"@) {
            let handler = n.get("handler"@);
            let block = n.get("block"@).get("body"@).items();
            let body = handler.get("body"@).get("body"@).items();
            let b = scanned_all(block, depth + 1, s);
            let c = ScanView { values: with_names(handler.get("param"@), b.values), types: b.types };
            let d = scanned_all(body, depth + 1, c);
            law_statements_declare(block, depth + 1, s, name);
            law_patterns_bind_their_names(handler.get("param"@), b.values, name);
            law_statements_declare(body, depth + 1, c, name);
            law_statements_declare(n.get("finalizer"@).get("body"@).items(), depth + 1, d, name);
        }
    }
}

/// Just the values that some of the statements declare become local.
pub proof fn law_statements_declare(items: Seq<JsonView>, depth: int, s: ScanView, name: Seq<char>)
    ensures
        adds_locals(
            s.values,
            scanned_all(items, depth, s).values,
            name,
            some_declares(items, depth, name),
        ),
        s.types.contains(name) ==> scanned_all(items, depth, s).types.contains(name),
    decreases STMT_DEPTH_LIMIT + 1 - depth, 1int, items.len(),
{
    if items.len() > 0 {
        let front = items.drop_last();
        law_statements_declare(front, depth, s, name);
        law_a_statement_declares(items.last(), depth, scanned_all(front, depth, s), name);
    }
}

proof fn lemma_cases_declare(items: Seq<JsonView>, depth: int, s: ScanView, name: Seq<char>)
    ensures
        adds_locals(
            s.values,
            scanned_cases(items, depth, s).values,
            name,
            case_declares(items, depth, name),
        ),
        s.types.contains(name) ==> scanned_cases(items, depth, s).types.contains(name),
    decreases STMT_DEPTH_LIMIT + 1 - depth, 2int, items.len(),
{
    if items.len() > 0 {
        let front = items.drop_last();
        lemma_cases_declare(front, depth, s, name);
        law_statements_declare(
            items.last().get("consequent"@).items(),
            depth,
            scanned_cases(front, depth, s),
            name,
        );
    }
}

/// The types that a function's own declarations name are known to be its own.
pub proof fn law_local_types_are_known(n: JsonView, depth: int, s: ScanView)
    requires
        depth <= STMT_DEPTH_LIMIT,
        n.is_kind("TSTypeAliasDeclaration"@) || n.is_kind("TSInterfaceDeclaration"@) || n.is_kind(
            "TSEnumDeclaration"@,
        ),
    ensures
        scanned(n, depth, s).types.contains(n.get("id"@).name()),
{
    lemma_statement_kinds();
}

} // verus!

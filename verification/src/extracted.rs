//! What holds of every module that is extracted, and of the scopes on the way.

use vstd::prelude::*;

use crate::annotation::annotation_of;
use crate::extract::{finished_decl, finished_decls, has_twin, module_facts, module_level};
use crate::json::{items_size, JsonView};
use crate::model::{blank_module, DeclView, TypeExprView};
use crate::observe::lookup;
use crate::param::param_pattern;
use crate::prepass::{
    with_class, with_declaration, with_default, with_exports, with_function, with_import_specifiers,
    with_methods, with_object_methods, with_reexports, with_statements, with_targets,
    with_variables, PlaceView, PreView,
};
use crate::scope::{
    scanned, scanned_all, scanned_cases, with_all_names, with_declarators, with_names,
    with_projection, with_projections, BindingView, ScanView, ScopeMap, STMT_DEPTH_LIMIT,
};
use crate::syntax::key_name;
use crate::taint::last_decl;
use crate::usage::{
    callee_target, function_scope, safe_ann, type_param_names, with_params, StateView,
};

verus! {

broadcast use crate::json::group_json_sizes;

// ---------------------------------------------------------------------------
// Declarations
// ---------------------------------------------------------------------------

/// Whether each declaration is eligible just if nothing says to skip it.
pub open spec fn skips_agree(decls: Seq<DeclView>) -> bool {
    forall|i: int|
        0 <= i < decls.len() ==> ((#[trigger] decls[i]).eligible <==> decls[i].skip is None)
}

proof fn lemma_methods_agree(
    s: PreView,
    class: Seq<char>,
    members: Seq<JsonView>,
    k: int,
    exported: bool,
    src: Seq<char>,
)
    requires
        skips_agree(s.info.decls),
    ensures
        skips_agree(with_methods(s, class, members, k, exported, src).info.decls),
    decreases k,
{
    if k > 0 {
        lemma_methods_agree(s, class, members, k - 1, exported, src);
    }
}

proof fn lemma_class_agrees(s: PreView, c: JsonView, exported: bool, src: Seq<char>)
    requires
        skips_agree(s.info.decls),
    ensures
        skips_agree(with_class(s, c, exported, src).info.decls),
{
    if !(c.get("id"@) is Null) {
        let name = c.get("id"@).name();
        let members = c.get("body"@).get("body"@).items();
        lemma_methods_agree(
            s.bound(name, BindingView::ClassDecl),
            name,
            members,
            members.len() as int,
            exported,
            src,
        );
    }
}

proof fn lemma_object_methods_agree(
    s: PreView,
    name: Seq<char>,
    props: Seq<JsonView>,
    k: int,
    exported: bool,
    src: Seq<char>,
)
    requires
        skips_agree(s.info.decls),
    ensures
        skips_agree(with_object_methods(s, name, props, k, exported, src).info.decls),
    decreases k,
{
    if k > 0 {
        lemma_object_methods_agree(s, name, props, k - 1, exported, src);
    }
}

proof fn lemma_variables_agree(
    s: PreView,
    items: Seq<JsonView>,
    is_const: bool,
    exported: bool,
    src: Seq<char>,
    place: PlaceView,
)
    requires
        skips_agree(s.info.decls),
    ensures
        skips_agree(with_variables(s, items, is_const, exported, src, place).info.decls),
    decreases items.len(),
{
    if items.len() > 0 {
        lemma_variables_agree(s, items.drop_last(), is_const, exported, src, place);
        let before = with_variables(s, items.drop_last(), is_const, exported, src, place);
        let d = items.last();
        let props = d.get("init"@).get("properties"@).items();
        lemma_object_methods_agree(
            before,
            d.get("id"@).name(),
            props,
            props.len() as int,
            exported,
            src,
        );
        assert(skips_agree(with_targets(before, d, is_const, exported, src).info.decls));
    }
}

proof fn lemma_declaration_agrees(
    s: PreView,
    n: JsonView,
    exported: bool,
    src: Seq<char>,
    place: PlaceView,
)
    requires
        skips_agree(s.info.decls),
    ensures
        skips_agree(with_declaration(s, n, exported, src, place).info.decls),
{
    lemma_variables_agree(
        s,
        n.get("declarations"@).items(),
        n.get("kind"@).text() == "const"@,
        exported,
        src,
        place,
    );
    lemma_class_agrees(s, n, exported, src);
    assert(skips_agree(with_function(s, n, exported, src).info.decls));
}

proof fn lemma_imports_declare_nothing(s: PreView, items: Seq<JsonView>, path: Option<Seq<char>>)
    ensures
        with_import_specifiers(s, items, path).info.decls == s.info.decls,
        with_reexports(s, items, path).info.decls == s.info.decls,
    decreases items.len(),
{
    if items.len() > 0 {
        lemma_imports_declare_nothing(s, items.drop_last(), path);
    }
}

proof fn lemma_exports_declare_nothing(s: PreView, items: Seq<JsonView>, path: Seq<char>)
    ensures
        with_exports(s, items, path).info.decls == s.info.decls,
    decreases items.len(),
{
    if items.len() > 0 {
        lemma_exports_declare_nothing(s, items.drop_last(), path);
    }
}

proof fn lemma_statements_agree(
    s: PreView,
    items: Seq<JsonView>,
    src: Seq<char>,
    place: PlaceView,
)
    requires
        skips_agree(s.info.decls),
    ensures
        skips_agree(with_statements(s, items, src, place).info.decls),
    decreases items.len(),
{
    if items.len() > 0 {
        lemma_statements_agree(s, items.drop_last(), src, place);
        let before = with_statements(s, items.drop_last(), src, place);
        let n = items.last();
        let path = place.resolve(n.get("source"@).get("value"@).text());
        let specifiers = n.get("specifiers"@).items();
        lemma_imports_declare_nothing(before, specifiers, path);
        lemma_exports_declare_nothing(before, specifiers, place.path);
        lemma_declaration_agrees(before, n, false, src, place);
        let named = if n.get("source"@) is Null {
            with_exports(before, specifiers, place.path)
        } else {
            with_reexports(before, specifiers, path)
        };
        lemma_declaration_agrees(named, n.get("declaration"@), true, src, place);
        let d = n.get("declaration"@);
        lemma_class_agrees(before, d, true, src);
        assert(skips_agree(with_function(before, d, true, src).info.decls));
        assert(skips_agree(with_default(before, d, src).info.decls));
    }
}

/// A function of a module is analyzed just if there is no reason to skip it:
/// a generic or overloaded one, one with a rest parameter and one without
/// parameters never are.
pub proof fn law_skipped_are_not_eligible(
    tree: JsonView,
    errors: nat,
    rel: Seq<char>,
    src: Seq<char>,
    place: PlaceView,
)
    ensures
        skips_agree(module_facts(tree, errors, rel, src, place).decls),
{
    let start = PreView {
        info: blank_module(place.path, rel, errors),
        scope: Map::empty(),
        exported: Set::empty(),
        bodyless: Set::empty(),
    };
    lemma_statements_agree(start, tree.get("body"@).items(), src, place);
    let pre = module_level(tree, errors, rel, src, place);
    assert forall|i: int| 0 <= i < finished_decls(pre).len() implies ((
    #[trigger] finished_decls(pre)[i]).eligible <==> finished_decls(pre)[i].skip is None) by {
        assert(finished_decls(pre)[i] == finished_decl(pre, i));
    }
}

proof fn lemma_last_of_one(decls: Seq<DeclView>, n: int, i: int)
    requires
        0 <= i < n <= decls.len(),
        !has_twin(decls, i),
    ensures
        last_decl(decls.take(n), decls[i].owner, decls[i].name) == Some(i),
    decreases n,
{
    let front = decls.take(n);
    assert(front.last() == decls[n - 1]);
    if n - 1 != i {
        assert(front.drop_last() =~= decls.take(n - 1));
        assert(!(decls[n - 1].owner == decls[i].owner && decls[n - 1].name == decls[i].name));
        lemma_last_of_one(decls, n - 1, i);
    }
}

/// The name of a function that is analyzed means that function: no other
/// declaration of its module has its owner and its name.
pub proof fn law_eligible_are_unique(
    tree: JsonView,
    errors: nat,
    rel: Seq<char>,
    src: Seq<char>,
    place: PlaceView,
    i: int,
)
    requires
        0 <= i < module_facts(tree, errors, rel, src, place).decls.len(),
        module_facts(tree, errors, rel, src, place).decls[i].eligible,
    ensures
        ({
            let decls = module_facts(tree, errors, rel, src, place).decls;
            last_decl(decls, decls[i].owner, decls[i].name) == Some(i)
        }),
{
    let pre = module_level(tree, errors, rel, src, place);
    let decls = finished_decls(pre);
    assert(decls[i] == finished_decl(pre, i));
    assert(!has_twin(pre.info.decls, i));
    assert(!has_twin(decls, i)) by {
        if has_twin(decls, i) {
            let j = choose|j: int|
                0 <= j < decls.len() && j != i && (#[trigger] decls[j]).owner == decls[i].owner
                    && decls[j].name == decls[i].name;
            assert(decls[j] == finished_decl(pre, j));
            assert(pre.info.decls[j].owner == pre.info.decls[i].owner);
        }
    }
    assert(decls.take(decls.len() as int) =~= decls);
    lemma_last_of_one(decls, decls.len() as int, i);
}

// ---------------------------------------------------------------------------
// Scopes
// ---------------------------------------------------------------------------

/// Whether every name of `scope` is bound to a local value or a parameter.
pub open spec fn all_local(scope: ScopeMap) -> bool {
    forall|name: Seq<char>| #[trigger]
        scope.contains_key(name) ==> scope[name] is LocalOther || scope[name] is Param
}

proof fn lemma_names(n: JsonView, scope: ScopeMap, name: Seq<char>)
    ensures
        with_names(n, scope).contains_key(name) <==> scope.contains_key(name) || with_names(
            n,
            Map::empty(),
        ).contains_key(name),
        all_local(scope) ==> all_local(with_names(n, scope)),
    decreases n.size(),
{
    if n is Null {
    } else if n.is_kind("Identifier"@) {
    } else if n.is_kind("ObjectPattern"@) {
        lemma_all_names(n.get("properties"@).items(), scope, name);
    } else if n.is_kind("ArrayPattern"@) {
        lemma_all_names(n.get("elements"@).items(), scope, name);
    } else if n.is_kind("Property"@) {
        lemma_names(n.get("value"@), scope, name);
    } else if n.is_kind("AssignmentPattern"@) {
        lemma_names(n.get("left"@), scope, name);
    } else if n.is_kind("RestElement"@) {
        lemma_names(n.get("argument"@), scope, name);
    } else if n.is_kind("TSParameterProperty"@) {
        lemma_names(n.get("parameter"@), scope, name);
    }
}

proof fn lemma_all_names(items: Seq<JsonView>, scope: ScopeMap, name: Seq<char>)
    ensures
        with_all_names(items, scope).contains_key(name) <==> scope.contains_key(name)
            || with_all_names(items, Map::empty()).contains_key(name),
        all_local(scope) ==> all_local(with_all_names(items, scope)),
    decreases items_size(items),
{
    if items.len() > 0 {
        lemma_all_names(items.drop_last(), scope, name);
        lemma_names(items.last(), with_all_names(items.drop_last(), scope), name);
        lemma_names(items.last(), with_all_names(items.drop_last(), Map::empty()), name);
    }
}

proof fn lemma_projections(
    items: Seq<JsonView>,
    base: TypeExprView,
    scope: ScopeMap,
    name: Seq<char>,
)
    ensures
        scope.contains_key(name) ==> with_projections(items, base, scope).contains_key(name),
        all_local(scope) ==> all_local(with_projections(items, base, scope)),
    decreases items_size(items),
{
    if items.len() > 0 {
        let before = with_projections(items.drop_last(), base, scope);
        lemma_projections(items.drop_last(), base, scope, name);
        lemma_names(items.last(), before, name);
        if let Some(key) = key_name(items.last()) {
            lemma_projection(
                items.last().get("value"@),
                TypeExprView::Proj(Box::new(base), key),
                before,
                name,
            );
        }
    }
}

proof fn lemma_projection(
    n: JsonView,
    ty: TypeExprView,
    scope: ScopeMap,
    name: Seq<char>,
)
    ensures
        scope.contains_key(name) ==> with_projection(n, ty, scope).contains_key(name),
        all_local(scope) ==> all_local(with_projection(n, ty, scope)),
    decreases n.size(),
{
    if n is Null {
    } else if n.is_kind("Identifier"@) {
    } else if n.is_kind("ObjectPattern"@) {
        lemma_projections(n.get("properties"@).items(), ty, scope, name);
    } else if n.is_kind("AssignmentPattern"@) {
        lemma_projection(n.get("left"@), ty, scope, name);
    } else {
        lemma_names(n, scope, name);
    }
}

proof fn lemma_declarators(items: Seq<JsonView>, scope: ScopeMap, name: Seq<char>)
    ensures
        with_declarators(items, scope).contains_key(name) <==> scope.contains_key(name)
            || with_declarators(items, Map::empty()).contains_key(name),
        all_local(scope) ==> all_local(with_declarators(items, scope)),
    decreases items.len(),
{
    if items.len() > 0 {
        lemma_declarators(items.drop_last(), scope, name);
        lemma_names(
            items.last().get("id"@),
            with_declarators(items.drop_last(), scope),
            name,
        );
        lemma_names(
            items.last().get("id"@),
            with_declarators(items.drop_last(), Map::empty()),
            name,
        );
    }
}

/// Nothing declared.
pub open spec fn nothing() -> ScanView {
    ScanView { values: Map::empty(), types: Set::empty() }
}

/// Whether `whole` declares the name just if `before` or `alone` does, all of
/// it locally if all of `before` is local.
spec fn adds(before: ScanView, alone: ScanView, whole: ScanView, name: Seq<char>) -> bool {
    &&& whole.values.contains_key(name) <==> before.values.contains_key(name)
        || alone.values.contains_key(name)
    &&& all_local(before.values) ==> all_local(whole.values)
}

proof fn lemma_scan(n: JsonView, depth: int, s: ScanView, name: Seq<char>)
    ensures
        adds(s, scanned(n, depth, nothing()), scanned(n, depth, s), name),
    decreases STMT_DEPTH_LIMIT + 1 - depth, 0int, 0nat,
{
    if depth > STMT_DEPTH_LIMIT {
    } else if n.is_kind("VariableDeclaration"@) {
        lemma_declarators(n.get("declarations"@).items(), s.values, name);
    } else if n.is_kind("FunctionDeclaration"@) || n.is_kind("TSDeclareFunction"@) || n.is_kind(
        "ClassDeclaration"@,
    ) {
    } else if n.is_kind("TSTypeAliasDeclaration"@) || n.is_kind("TSInterfaceDeclaration"@) {
    } else if n.is_kind("TSEnumDeclaration"@) {
    } else if n.is_kind("BlockStatement"@) {
        lemma_scan_all(n.get("body"@).items(), depth + 1, s, name);
    } else if n.is_kind("IfStatement"@) {
        let a = n.get("consequent"@);
        let b = n.get("alternate"@);
        lemma_scan(a, depth + 1, s, name);
        lemma_scan(b, depth + 1, scanned(a, depth + 1, s), name);
        lemma_scan(b, depth + 1, scanned(a, depth + 1, nothing()), name);
    } else if n.is_kind("ForStatement"@) {
        lemma_loop(n.get("init"@), n.get("body"@), depth, s, name);
    } else if n.is_kind("ForInStatement"@) || n.is_kind("ForOfStatement"@) {
        lemma_loop(n.get("left"@), n.get("body"@), depth, s, name);
    } else if n.is_kind("WhileStatement"@) || n.is_kind("DoWhileStatement"@) || n.is_kind(
        "LabeledStatement"@,
    ) {
        lemma_scan(n.get("body"@), depth + 1, s, name);
    } else if n.is_kind("SwitchStatement"@) {
        lemma_scan_cases(n.get("cases"@).items(), depth + 1, s, name);
    } else if n.is_kind("TryStatement"@) {
        let handler = n.get("handler"@);
        let block = n.get("block"@).get("body"@).items();
        let body = handler.get("body"@).get("body"@).items();
        let last = n.get("finalizer"@).get("body"@).items();
        let b1 = scanned_all(block, depth + 1, s);
        let b2 = scanned_all(block, depth + 1, nothing());
        let c1 = ScanView { values: with_names(handler.get("param"@), b1.values), types: b1.types };
        let c2 = ScanView { values: with_names(handler.get("param"@), b2.values), types: b2.types };
        lemma_scan_all(block, depth + 1, s, name);
        lemma_names(handler.get("param"@), b1.values, name);
        lemma_names(handler.get("param"@), b2.values, name);
        lemma_scan_all(body, depth + 1, c1, name);
        lemma_scan_all(body, depth + 1, c2, name);
        lemma_scan_all(last, depth + 1, scanned_all(body, depth + 1, c1), name);
        lemma_scan_all(last, depth + 1, scanned_all(body, depth + 1, c2), name);
    }
}

proof fn lemma_loop(head: JsonView, body: JsonView, depth: int, s: ScanView, name: Seq<char>)
    requires
        depth <= STMT_DEPTH_LIMIT,
    ensures
        adds(
            s,
            scanned(body, depth + 1, nothing().variables(head)),
            scanned(body, depth + 1, s.variables(head)),
            name,
        ),
    decreases STMT_DEPTH_LIMIT + 1 - (depth + 1), 3int, 0nat,
{
    lemma_declarators(head.get("declarations"@).items(), s.values, name);
    lemma_scan(body, depth + 1, s.variables(head), name);
    lemma_scan(body, depth + 1, nothing().variables(head), name);
}

proof fn lemma_scan_all(items: Seq<JsonView>, depth: int, s: ScanView, name: Seq<char>)
    ensures
        adds(s, scanned_all(items, depth, nothing()), scanned_all(items, depth, s), name),
    decreases STMT_DEPTH_LIMIT + 1 - depth, 1int, items.len(),
{
    if items.len() > 0 {
        let front = items.drop_last();
        lemma_scan_all(front, depth, s, name);
        lemma_scan(items.last(), depth, scanned_all(front, depth, s), name);
        lemma_scan(items.last(), depth, scanned_all(front, depth, nothing()), name);
    }
}

proof fn lemma_scan_cases(items: Seq<JsonView>, depth: int, s: ScanView, name: Seq<char>)
    ensures
        adds(s, scanned_cases(items, depth, nothing()), scanned_cases(items, depth, s), name),
    decreases STMT_DEPTH_LIMIT + 1 - depth, 2int, items.len(),
{
    if items.len() > 0 {
        let front = items.drop_last();
        let last = items.last().get("consequent"@).items();
        lemma_scan_cases(front, depth, s, name);
        lemma_scan_all(last, depth, scanned_cases(front, depth, s), name);
        lemma_scan_all(last, depth, scanned_cases(front, depth, nothing()), name);
    }
}

proof fn lemma_statement_of_body(
    items: Seq<JsonView>,
    i: int,
    depth: int,
    s: ScanView,
    name: Seq<char>,
)
    requires
        0 <= i < items.len(),
        scanned(items[i], depth, nothing()).values.contains_key(name),
    ensures
        scanned_all(items, depth, s).values.contains_key(name),
    decreases items.len(),
{
    let front = items.drop_last();
    lemma_scan(items.last(), depth, scanned_all(front, depth, s), name);
    if i < front.len() {
        lemma_statement_of_body(front, i, depth, s, name);
    }
}

proof fn lemma_params(
    items: Seq<JsonView>,
    src: Seq<char>,
    shadows: Seq<Set<Seq<char>>>,
    scope: ScopeMap,
    name: Seq<char>,
)
    ensures
        scope.contains_key(name) ==> with_params(items, src, shadows, scope).contains_key(name),
        all_local(scope) ==> all_local(with_params(items, src, shadows, scope)),
    decreases items.len(),
{
    if items.len() > 0 {
        let before = with_params(items.drop_last(), src, shadows, scope);
        lemma_params(items.drop_last(), src, shadows, scope, name);
        let p = param_pattern(items.last());
        let ann = safe_ann(annotation_of(p, src), shadows);
        lemma_names(p, before, name);
        if ann is Some {
            lemma_projections(p.get("properties"@).items(), ann->0, before, name);
        }
    }
}

/// A name that any statement of a function's body declares, at any depth that
/// is looked into, hides what the enclosing scopes bind to it, all through the
/// function: there it is a local value or a parameter, and a call of it is
/// attributed to no function.
pub proof fn law_local_names_shadow(
    f: JsonView,
    src: Seq<char>,
    s: StateView,
    i: int,
    name: Seq<char>,
)
    requires
        f.get("body"@).is_kind("BlockStatement"@),
        0 <= i < f.get("body"@).get("body"@).items().len(),
        scanned(f.get("body"@).get("body"@).items()[i], 0, nothing()).values.contains_key(name),
    ensures
        ({
            let scope = function_scope(f, src, s.names.shadows);
            let found = s.pushed(scope.values, scope.types).lookup(name);
            found is Some && (found->0 is LocalOther || found->0 is Param) && callee_target(
                found,
                name,
            ) is None
        }),
{
    let types = type_param_names(f.get("typeParameters"@).get("params"@).items());
    let items = f.get("body"@).get("body"@).items();
    let start = ScanView { values: Map::empty(), types };
    let scan = scanned_all(items, 0, start);
    lemma_statement_of_body(items, i, 0, start, name);
    lemma_scan_all(items, 0, start, name);
    lemma_params(
        f.get("params"@).items(),
        src,
        s.names.shadows.push(scan.types),
        scan.values,
        name,
    );
}

} // verus!

//! No reference is dropped: what the walk over a tree records stays recorded,
//! and every call and every use of a name as a value is recorded.

use vstd::prelude::*;

use crate::json::{fields_size, items_size, JsonView};
use crate::model::{ArgsView, OwnerView, TargetView, UsageKindView, UsageView};
use crate::observe::{is_static_member, observed_args};
use crate::scope::BindingView;
use crate::usage::{callee_target, function_scope, has_escape, StateView};
use crate::visit::{
    array_callback, called_member, called_name, component_args, is_component, is_function,
    is_ignored, is_ignored_field, is_intrinsic, literal_member, root_name, visited, visited_args,
    visited_attributes, visited_binding, visited_bindings, visited_call, visited_declarators,
    visited_element, visited_fields, visited_function, visited_initializers, visited_items,
    visited_member, visited_tag, visited_tag_object, with_declared,
};

verus! {

broadcast use {crate::json::group_json_sizes, crate::json::group_json_views};

/// Whether all usages of `a` stand at the front of those of `b`.
pub open spec fn keeps(a: Seq<UsageView>, b: Seq<UsageView>) -> bool {
    a.len() <= b.len() && forall|i: int| 0 <= i < a.len() ==> #[trigger] b[i] == a[i]
}

proof fn lemma_escape_use_keeps(s: StateView, name: Seq<char>)
    ensures
        keeps(s.usages, s.escape_use(name).usages),
{
}

proof fn lemma_tag_object_keeps(o: JsonView, s: StateView)
    ensures
        keeps(s.usages, visited_tag_object(o, s).usages),
    decreases o.size(),
{
    if !(o is Null) && o.is_kind("JSXMemberExpression"@) {
        lemma_tag_object_keeps(
            o.get("object"@),
            s.escape_member(o.get("property"@).name()),
        );
    }
}

proof fn lemma_tag_keeps(opening: JsonView, has_children: bool, src: Seq<char>, s: StateView)
    ensures
        keeps(s.usages, visited_tag(opening, has_children, src, s).usages),
{
    lemma_tag_object_keeps(opening.get("name"@), s);
}

/// What was recorded before a node is walked is still recorded after it.
pub proof fn law_walk_keeps_usages(n: JsonView, src: Seq<char>, s: StateView)
    ensures
        keeps(s.usages, visited(n, src, s).usages),
    decreases n.size(), 3int,
{
    if n is Array {
        lemma_items_keep(n.items(), src, s);
    } else if !(n is Object) || is_ignored(n) {
    } else if n.is_kind("Identifier"@) {
    } else if n.is_kind("ExportNamedDeclaration"@) {
        law_walk_keeps_usages(n.get("declaration"@), src, s);
    } else if n.is_kind("ExportDefaultDeclaration"@) {
        law_walk_keeps_usages(n.get("declaration"@), src, s);
    } else if n.is_kind("TSEnumDeclaration"@) {
        lemma_initializers_keep(n.get("body"@).get("members"@).items(), src, s);
    } else if n.is_kind("TSQualifiedName"@) {
        law_walk_keeps_usages(n.get("left"@), src, s);
    } else if n.is_kind("TSClassImplements"@) {
        lemma_escape_use_keeps(s, root_name(n.get("expression"@)));
    } else if is_function(n) {
        lemma_function_keeps(n, src, s);
    } else if n.is_kind("VariableDeclaration"@) {
        lemma_declarators_keep(
            n.get("declarations"@).items(),
            n.get("kind"@).text() == "const"@,
            src,
            s,
        );
    } else if n.is_kind("CatchClause"@) {
        lemma_binding_keeps(n.get("param"@), src, s);
        law_walk_keeps_usages(n.get("body"@), src, visited_binding(n.get("param"@), src, s));
    } else if n.is_kind("CallExpression"@) {
        lemma_call_keeps(n, src, s);
    } else if n.is_kind("NewExpression"@) {
        if n.get("callee"@).is_kind("Identifier"@) {
            lemma_items_keep(n.get("arguments"@).items(), src, s);
        } else {
            law_walk_keeps_usages(n.get("callee"@), src, s);
            lemma_items_keep(
                n.get("arguments"@).items(),
                src,
                visited(n.get("callee"@), src, s),
            );
        }
    } else if is_static_member(n) {
        lemma_member_keeps(n, src, s);
    } else if n.is_kind("JSXElement"@) {
        lemma_element_keeps(n, src, s);
    } else if literal_member(n) is Some {
        law_walk_keeps_usages(n.get("object"@), src, s.escape_member(literal_member(n)->0));
    } else {
        lemma_fields_keep(n.fields(), n.get("computed"@).is_true(), src, s);
    }
}

pub proof fn lemma_items_keep(items: Seq<JsonView>, src: Seq<char>, s: StateView)
    ensures
        keeps(s.usages, visited_items(items, src, s).usages),
    decreases items_size(items), 0int,
{
    if items.len() > 0 {
        lemma_items_keep(items.drop_last(), src, s);
        law_walk_keeps_usages(items.last(), src, visited_items(items.drop_last(), src, s));
    }
}

proof fn lemma_fields_keep(
    fields: Seq<(Seq<char>, JsonView)>,
    computed: bool,
    src: Seq<char>,
    s: StateView,
)
    ensures
        keeps(s.usages, visited_fields(fields, computed, src, s).usages),
    decreases fields_size(fields), 0int,
{
    if fields.len() > 0 {
        lemma_fields_keep(fields.drop_last(), computed, src, s);
        if !is_ignored_field(fields[fields.len() - 1].0, computed) {
            law_walk_keeps_usages(
                fields[fields.len() - 1].1,
                src,
                visited_fields(fields.drop_last(), computed, src, s),
            );
        }
    }
}

proof fn lemma_initializers_keep(items: Seq<JsonView>, src: Seq<char>, s: StateView)
    ensures
        keeps(s.usages, visited_initializers(items, src, s).usages),
    decreases items_size(items), 0int,
{
    if items.len() > 0 {
        lemma_initializers_keep(items.drop_last(), src, s);
        law_walk_keeps_usages(
            items.last().get("initializer"@),
            src,
            visited_initializers(items.drop_last(), src, s),
        );
    }
}

pub proof fn lemma_binding_keeps(n: JsonView, src: Seq<char>, s: StateView)
    ensures
        keeps(s.usages, visited_binding(n, src, s).usages),
    decreases n.size(), 1int,
{
    if !(n is Null) {
        let d = visited_items(n.get("decorators"@).items(), src, s);
        lemma_items_keep(n.get("decorators"@).items(), src, s);
        if n.is_kind("AssignmentPattern"@) {
            lemma_binding_keeps(n.get("left"@), src, d);
            law_walk_keeps_usages(n.get("right"@), src, visited_binding(n.get("left"@), src, d));
        } else if n.is_kind("ObjectPattern"@) {
            lemma_bindings_keep(n.get("properties"@).items(), src, d);
        } else if n.is_kind("ArrayPattern"@) {
            lemma_bindings_keep(n.get("elements"@).items(), src, d);
        } else if n.is_kind("Property"@) {
            law_walk_keeps_usages(n.get("key"@), src, d);
            lemma_binding_keeps(n.get("value"@), src, d);
            lemma_binding_keeps(n.get("value"@), src, visited(n.get("key"@), src, d));
        } else if n.is_kind("RestElement"@) {
            lemma_binding_keeps(n.get("argument"@), src, d);
        } else if n.is_kind("TSParameterProperty"@) {
            lemma_binding_keeps(n.get("parameter"@), src, d);
        }
    }
}

pub proof fn lemma_bindings_keep(items: Seq<JsonView>, src: Seq<char>, s: StateView)
    ensures
        keeps(s.usages, visited_bindings(items, src, s).usages),
    decreases items_size(items), 0int,
{
    if items.len() > 0 {
        lemma_bindings_keep(items.drop_last(), src, s);
        lemma_binding_keeps(items.last(), src, visited_bindings(items.drop_last(), src, s));
    }
}

proof fn lemma_function_keeps(n: JsonView, src: Seq<char>, s: StateView)
    ensures
        keeps(s.usages, visited_function(n, src, s).usages),
    decreases n.size(), 2int,
{
    let id = n.get("id"@);
    let is_decl = n.is_kind("FunctionDeclaration"@);
    let outside = if is_decl && s.names.scopes.len() > 1 && !(id is Null) {
        s.bound(id.name(), BindingView::LocalOther)
    } else {
        s
    };
    let scope = function_scope(n, src, outside.names.shadows);
    let entered = outside.pushed(scope.values, scope.types);
    let inside = if !is_decl && !(id is Null) {
        entered.bound(id.name(), BindingView::LocalOther)
    } else {
        entered
    };
    if !(n is Null) {
        lemma_bindings_keep(n.get("params"@).items(), src, inside);
        law_walk_keeps_usages(
            n.get("body"@),
            src,
            visited_bindings(n.get("params"@).items(), src, inside),
        );
    }
}

proof fn lemma_declarators_keep(
    items: Seq<JsonView>,
    is_const: bool,
    src: Seq<char>,
    s: StateView,
)
    ensures
        keeps(s.usages, visited_declarators(items, is_const, src, s).usages),
    decreases items_size(items), 0int,
{
    if items.len() > 0 {
        lemma_declarators_keep(items.drop_last(), is_const, src, s);
        let before = visited_declarators(items.drop_last(), is_const, src, s);
        let d = items.last();
        let id = d.get("id"@);
        let named = with_declared(d, is_const, src, before);
        lemma_binding_keeps(id, src, named);
        law_walk_keeps_usages(d.get("init"@), src, visited_binding(id, src, named));
    }
}

proof fn lemma_call_keeps(n: JsonView, src: Seq<char>, s: StateView)
    ensures
        keeps(s.usages, visited_call(n, src, s).usages),
    decreases n.size(), 2int,
{
    if !(n is Null) {
        let callee = n.get("callee"@);
        let items = n.get("arguments"@).items();
        let args = observed_args(items, src, s.names);
        let line = n.start_line(src);
        let called = if callee.is_kind("Identifier"@) {
            called_name(callee.name(), args, line, s)
        } else if is_static_member(callee) {
            if callee.get("object"@).is_kind("Identifier"@) {
                called_member(
                    callee.get("object"@).name(),
                    callee.get("property"@).name(),
                    args,
                    line,
                    s,
                )
            } else {
                visited(
                    callee.get("object"@),
                    src,
                    s.escape_member(callee.get("property"@).name()),
                )
            }
        } else {
            visited(callee, src, s)
        };
        law_walk_keeps_usages(
            callee.get("object"@),
            src,
            s.escape_member(callee.get("property"@).name()),
        );
        law_walk_keeps_usages(callee, src, s);
        assert(keeps(s.usages, called.usages));
        match array_callback(n, called) {
            Some((t, shape)) => {
                lemma_args_keep(items, true, src, called.call(t, shape, line));
            },
            None => {
                lemma_args_keep(items, false, src, called);
            },
        }
    }
}

pub proof fn lemma_args_keep(items: Seq<JsonView>, skip_first: bool, src: Seq<char>, s: StateView)
    ensures
        keeps(s.usages, visited_args(items, skip_first, src, s).usages),
    decreases items_size(items), 0int,
{
    if items.len() > 0 {
        lemma_args_keep(items.drop_last(), skip_first, src, s);
        law_walk_keeps_usages(
            items.last(),
            src,
            visited_args(items.drop_last(), skip_first, src, s),
        );
    }
}

proof fn lemma_member_keeps(n: JsonView, src: Seq<char>, s: StateView)
    ensures
        keeps(s.usages, visited_member(n, src, s).usages),
    decreases n.size(), 2int,
{
    if !(n is Null) {
        law_walk_keeps_usages(
            n.get("object"@),
            src,
            s.escape_member(n.get("property"@).name()),
        );
    }
}

proof fn lemma_element_keeps(n: JsonView, src: Seq<char>, s: StateView)
    ensures
        keeps(s.usages, visited_element(n, src, s).usages),
    decreases n.size(), 2int,
{
    if !(n is Null) {
        let opening = n.get("openingElement"@);
        let children = n.get("children"@).items();
        let tagged = visited_tag(opening, children.len() > 0, src, s);
        let intrinsic = is_intrinsic(opening.get("name"@));
        lemma_tag_keeps(opening, children.len() > 0, src, s);
        lemma_attributes_keep(opening.get("attributes"@).items(), intrinsic, src, tagged);
        lemma_items_keep(
            children,
            src,
            visited_attributes(opening.get("attributes"@).items(), intrinsic, src, tagged),
        );
    }
}

pub proof fn lemma_attributes_keep(
    items: Seq<JsonView>,
    intrinsic: bool,
    src: Seq<char>,
    s: StateView,
)
    ensures
        keeps(s.usages, visited_attributes(items, intrinsic, src, s).usages),
    decreases items_size(items), 0int,
{
    if items.len() > 0 {
        lemma_attributes_keep(items.drop_last(), intrinsic, src, s);
        let before = visited_attributes(items.drop_last(), intrinsic, src, s);
        law_walk_keeps_usages(items.last().get("value"@), src, before);
        law_walk_keeps_usages(items.last().get("argument"@), src, before);
    }
}

// ---------------------------------------------------------------------------
// What gets recorded
// ---------------------------------------------------------------------------

/// Whether a call of the target with the given arguments is recorded.
pub open spec fn has_call(usages: Seq<UsageView>, t: TargetView, args: ArgsView) -> bool {
    exists|i: int|
        0 <= i < usages.len() && (#[trigger] usages[i]).kind == UsageKindView::Call(args)
            && usages[i].target == t
}

/// What a name stands for when it is used as a value.
pub open spec fn value_target(b: Option<BindingView>, name: Seq<char>) -> Option<TargetView> {
    match b {
        Some(BindingView::Fn) => Some(TargetView::Local { owner: OwnerView::Free, name }),
        Some(BindingView::Import) => Some(TargetView::Imported { local: name }),
        Some(BindingView::Namespace) => Some(TargetView::AllExportsOfModule { ns_local: name }),
        Some(BindingView::ObjectConst) => Some(
            TargetView::AllMembersOf(OwnerView::ObjectConst(name)),
        ),
        Some(BindingView::Instance(c)) => Some(TargetView::AllMembersOf(OwnerView::Class(c))),
        Some(BindingView::ClassDecl) => Some(TargetView::AllMembersOf(OwnerView::Class(name))),
        _ => None,
    }
}

pub proof fn lemma_escape_is_recorded(s: StateView, t: TargetView)
    ensures
        has_escape(s.escape(t).usages, t),
{
    if !has_escape(s.usages, t) {
        let after = s.escape(t).usages;
        assert(after[s.usages.len() as int].target == t);
    }
}

pub proof fn lemma_kept_escape(a: Seq<UsageView>, b: Seq<UsageView>, t: TargetView)
    requires
        keeps(a, b),
        has_escape(a, t),
    ensures
        has_escape(b, t),
{
    let i = choose|i: int|
        0 <= i < a.len() && (#[trigger] a[i]).kind is Escape && a[i].target == t;
    assert(b[i] == a[i]);
}

proof fn lemma_kept_call(a: Seq<UsageView>, b: Seq<UsageView>, t: TargetView, args: ArgsView)
    requires
        keeps(a, b),
        has_call(a, t, args),
    ensures
        has_call(b, t, args),
{
    let i = choose|i: int|
        0 <= i < a.len() && (#[trigger] a[i]).kind == UsageKindView::Call(args) && a[i].target == t;
    assert(b[i] == a[i]);
}

/// The kinds that the walk tells apart before it comes to names, calls and members.
pub proof fn lemma_kinds_differ(kind: Seq<char>)
    ensures
        kind == "Identifier"@ || kind == "CallExpression"@ || kind == "MemberExpression"@ || kind
            == "JSXElement"@ ==> !other_kind(kind),
        "Identifier"@ != "CallExpression"@,
        "Identifier"@ != "MemberExpression"@,
        "Identifier"@ != "JSXElement"@,
        "CallExpression"@ != "MemberExpression"@,
        "CallExpression"@ != "JSXElement"@,
        "MemberExpression"@ != "JSXElement"@,
{
    reveal_strlit("JSXElement");
    assert("JSXElement"@.len() == 10);
    assert("JSXElement"@[0] == 'J');
    reveal_strlit("Identifier");
    reveal_strlit("CallExpression");
    reveal_strlit("MemberExpression");
    reveal_strlit("TSTypeAliasDeclaration");
    reveal_strlit("TSInterfaceDeclaration");
    reveal_strlit("ImportDeclaration");
    reveal_strlit("ExportAllDeclaration");
    reveal_strlit("JSXClosingElement");
    reveal_strlit("MetaProperty");
    reveal_strlit("TSIndexSignature");
    reveal_strlit("ExportNamedDeclaration");
    reveal_strlit("ExportDefaultDeclaration");
    reveal_strlit("TSEnumDeclaration");
    reveal_strlit("TSQualifiedName");
    reveal_strlit("TSClassImplements");
    reveal_strlit("FunctionDeclaration");
    reveal_strlit("FunctionExpression");
    reveal_strlit("ArrowFunctionExpression");
    reveal_strlit("TSDeclareFunction");
    reveal_strlit("TSEmptyBodyFunctionExpression");
    reveal_strlit("VariableDeclaration");
    reveal_strlit("CatchClause");
    reveal_strlit("NewExpression");
    assert("Identifier"@.len() == 10);
    assert("CallExpression"@.len() == 14);
    assert("MemberExpression"@.len() == 16);
    assert("TSTypeAliasDeclaration"@.len() == 22);
    assert("TSInterfaceDeclaration"@.len() == 22);
    assert("ImportDeclaration"@.len() == 17);
    assert("ExportAllDeclaration"@.len() == 20);
    assert("JSXClosingElement"@.len() == 17);
    assert("MetaProperty"@.len() == 12);
    assert("TSIndexSignature"@.len() == 16);
    assert("ExportNamedDeclaration"@.len() == 22);
    assert("ExportDefaultDeclaration"@.len() == 24);
    assert("TSEnumDeclaration"@.len() == 17);
    assert("TSQualifiedName"@.len() == 15);
    assert("TSClassImplements"@.len() == 17);
    assert("FunctionDeclaration"@.len() == 19);
    assert("FunctionExpression"@.len() == 18);
    assert("ArrowFunctionExpression"@.len() == 23);
    assert("TSDeclareFunction"@.len() == 17);
    assert("TSEmptyBodyFunctionExpression"@.len() == 29);
    assert("VariableDeclaration"@.len() == 19);
    assert("CatchClause"@.len() == 11);
    assert("NewExpression"@.len() == 13);
    assert("Identifier"@[0] == 'I');
    assert("TSIndexSignature"@[0] == 'T' && "MemberExpression"@[0] == 'M');
}

pub open spec fn other_kind(kind: Seq<char>) -> bool {
    kind == "TSTypeAliasDeclaration"@ || kind == "TSInterfaceDeclaration"@ || kind
        == "ImportDeclaration"@ || kind == "ExportAllDeclaration"@ || kind == "JSXClosingElement"@
        || kind == "MetaProperty"@ || kind == "TSIndexSignature"@ || kind
        == "ExportNamedDeclaration"@ || kind == "ExportDefaultDeclaration"@ || kind
        == "TSEnumDeclaration"@ || kind == "TSQualifiedName"@ || kind == "TSClassImplements"@
        || kind == "FunctionDeclaration"@ || kind == "FunctionExpression"@ || kind
        == "ArrowFunctionExpression"@ || kind == "TSDeclareFunction"@ || kind
        == "TSEmptyBodyFunctionExpression"@ || kind == "VariableDeclaration"@ || kind
        == "CatchClause"@ || kind == "NewExpression"@
}

/// A name that stands as a value is recorded as an escape of what it is bound to.
pub proof fn law_value_use_is_recorded(n: JsonView, src: Seq<char>, s: StateView)
    requires
        n is Object,
        n.is_kind("Identifier"@),
        value_target(s.lookup(n.name()), n.name()) is Some,
    ensures
        has_escape(
            visited(n, src, s).usages,
            value_target(s.lookup(n.name()), n.name())->0,
        ),
{
    lemma_kinds_differ(n.get("type"@).text());
    lemma_escape_is_recorded(s, value_target(s.lookup(n.name()), n.name())->0);
}

/// A call of a name is recorded: with its arguments if the name is bound to a
/// function or imported, and else as an escape of every function that it might mean.
pub proof fn law_call_is_recorded(n: JsonView, src: Seq<char>, s: StateView)
    requires
        n is Object,
        n.is_kind("CallExpression"@),
        n.get("callee"@).is_kind("Identifier"@),
    ensures
        ({
            let name = n.get("callee"@).name();
            let after = visited(n, src, s).usages;
            match callee_target(s.lookup(name), name) {
                Some(t) => has_call(
                    after,
                    t,
                    observed_args(n.get("arguments"@).items(), src, s.names),
                ),
                None => has_escape(
                    after,
                    if s.lookup(name) == Some(BindingView::Namespace) {
                        TargetView::AllExportsOfModule { ns_local: name }
                    } else {
                        TargetView::AnyFreeNamed(name)
                    },
                ),
            }
        }),
{
    let name = n.get("callee"@).name();
    let items = n.get("arguments"@).items();
    let args = observed_args(items, src, s.names);
    let line = n.start_line(src);
    let called = called_name(name, args, line, s);
    let after = visited(n, src, s);
    lemma_kinds_differ(n.get("type"@).text());
    assert(after == visited_call(n, src, s));
    match array_callback(n, called) {
        Some((t, shape)) => {
            lemma_args_keep(items, true, src, called.call(t, shape, line));
        },
        None => {
            lemma_args_keep(items, false, src, called);
        },
    }
    assert(keeps(called.usages, after.usages));
    match callee_target(s.lookup(name), name) {
        Some(t) => {
            assert(called.usages[s.usages.len() as int].target == t);
            lemma_kept_call(called.usages, after.usages, t, args);
        },
        None => {
            let t = if s.lookup(name) == Some(BindingView::Namespace) {
                TargetView::AllExportsOfModule { ns_local: name }
            } else {
                TargetView::AnyFreeNamed(name)
            };
            lemma_escape_is_recorded(s, t);
            lemma_kept_escape(called.usages, after.usages, t);
        },
    }
}

/// What `object.name(...)` calls, if the object is known.
pub open spec fn member_target(b: Option<BindingView>, object: Seq<char>, name: Seq<char>) -> Option<
    TargetView,
> {
    match b {
        Some(BindingView::ObjectConst) => Some(
            TargetView::Local { owner: OwnerView::ObjectConst(object), name },
        ),
        Some(BindingView::Instance(c)) => Some(
            TargetView::Local { owner: OwnerView::Class(c), name },
        ),
        Some(BindingView::Namespace) => Some(
            TargetView::NamespaceMember { ns_local: object, name },
        ),
        _ => None,
    }
}

/// A call of a member of a known object, instance or namespace is recorded
/// with its arguments; one of anything else but an enum is recorded as an
/// escape of every method of its name.
pub proof fn law_member_call_is_recorded(n: JsonView, src: Seq<char>, s: StateView)
    requires
        n is Object,
        n.is_kind("CallExpression"@),
        is_static_member(n.get("callee"@)),
        n.get("callee"@).get("object"@).is_kind("Identifier"@),
        s.lookup(n.get("callee"@).get("object"@).name()) != Some(BindingView::EnumDecl),
    ensures
        ({
            let object = n.get("callee"@).get("object"@).name();
            let name = n.get("callee"@).get("property"@).name();
            let after = visited(n, src, s).usages;
            match member_target(s.lookup(object), object, name) {
                Some(t) => has_call(
                    after,
                    t,
                    observed_args(n.get("arguments"@).items(), src, s.names),
                ),
                None => has_escape(after, TargetView::AnyMethodNamed(name)),
            }
        }),
{
    let object = n.get("callee"@).get("object"@).name();
    let name = n.get("callee"@).get("property"@).name();
    let items = n.get("arguments"@).items();
    let args = observed_args(items, src, s.names);
    let line = n.start_line(src);
    let called = called_member(object, name, args, line, s);
    let after = visited(n, src, s);
    lemma_kinds_differ(n.get("type"@).text());
    lemma_kinds_differ(n.get("callee"@).get("type"@).text());
    assert(after == visited_call(n, src, s));
    match array_callback(n, called) {
        Some((t, shape)) => {
            lemma_args_keep(items, true, src, called.call(t, shape, line));
        },
        None => {
            lemma_args_keep(items, false, src, called);
        },
    }
    assert(keeps(called.usages, after.usages));
    match member_target(s.lookup(object), object, name) {
        Some(t) => {
            assert(called.usages[s.usages.len() as int].target == t);
            lemma_kept_call(called.usages, after.usages, t, args);
        },
        None => {
            let m = TargetView::AnyMethodNamed(name);
            let used = s.escape_use(object);
            lemma_escape_is_recorded(s, m);
            lemma_escape_is_recorded(used, m);
            lemma_kept_escape(s.escape(m).usages, s.escape_member(name).usages, m);
            lemma_kept_escape(used.escape(m).usages, used.escape_member(name).usages, m);
            lemma_kept_escape(called.usages, after.usages, m);
        },
    }
}

/// A component that is bound to a function or imported is called with one
/// object of its attributes.
pub proof fn law_component_is_recorded(n: JsonView, src: Seq<char>, s: StateView)
    requires
        n is Object,
        n.is_kind("JSXElement"@),
        ({
            let tag = n.get("openingElement"@).get("name"@);
            is_component(tag) && callee_target(s.lookup(tag.name()), tag.name()) is Some
        }),
    ensures
        ({
            let opening = n.get("openingElement"@);
            let name = opening.get("name"@).name();
            has_call(
                visited(n, src, s).usages,
                callee_target(s.lookup(name), name)->0,
                component_args(
                    opening.get("attributes"@).items(),
                    n.get("children"@).items().len() > 0,
                    src,
                    s.names,
                ),
            )
        }),
{
    let opening = n.get("openingElement"@);
    let name = opening.get("name"@).name();
    let children = n.get("children"@).items();
    let attributes = opening.get("attributes"@).items();
    let intrinsic = is_intrinsic(opening.get("name"@));
    let t = callee_target(s.lookup(name), name)->0;
    let args = component_args(attributes, children.len() > 0, src, s.names);
    let tagged = visited_tag(opening, children.len() > 0, src, s);
    let after = visited(n, src, s);
    lemma_kinds_differ(n.get("type"@).text());
    assert(after == visited_element(n, src, s));
    lemma_attributes_keep(attributes, intrinsic, src, tagged);
    lemma_items_keep(children, src, visited_attributes(attributes, intrinsic, src, tagged));
    assert(tagged.usages[s.usages.len() as int].target == t);
    lemma_kept_call(tagged.usages, after.usages, t, args);
}

/// A property that is used of a value that nothing is known of, called or not,
/// is recorded as an escape of every method and every function of its name.
pub proof fn law_unknown_member_is_recorded(n: JsonView, src: Seq<char>, s: StateView)
    requires
        n is Object,
        is_static_member(n),
        !n.get("object"@).is_kind("Identifier"@),
    ensures
        has_escape(
            visited(n, src, s).usages,
            TargetView::AnyMethodNamed(n.get("property"@).name()),
        ),
        has_escape(
            visited(n, src, s).usages,
            TargetView::AnyFreeNamed(n.get("property"@).name()),
        ),
{
    let name = n.get("property"@).name();
    let s1 = s.escape(TargetView::AnyMethodNamed(name));
    let s2 = s1.escape(TargetView::AnyFreeNamed(name));
    lemma_escape_is_recorded(s, TargetView::AnyMethodNamed(name));
    lemma_kept_escape(s1.usages, s2.usages, TargetView::AnyMethodNamed(name));
    lemma_escape_is_recorded(s1, TargetView::AnyFreeNamed(name));
    let after = visited(n, src, s);
    lemma_kinds_differ(n.get("type"@).text());
    law_walk_keeps_usages(n.get("object"@), src, s2);
    assert(after == visited_member(n, src, s));
    lemma_kept_escape(s2.usages, after.usages, TargetView::AnyMethodNamed(name));
    lemma_kept_escape(s2.usages, after.usages, TargetView::AnyFreeNamed(name));
}

} // verus!

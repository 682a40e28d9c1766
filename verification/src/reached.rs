//! Every call of a name, wherever the walk over a tree comes to it, leaves a
//! usage that names it.

use vstd::prelude::*;

use crate::extract::{module_facts, module_level, module_names};
use crate::json::{fields_size, items_size, JsonView};
use crate::kept::{
    has_call, keeps, law_call_is_recorded, law_component_is_recorded, law_walk_keeps_usages,
    lemma_args_keep, lemma_attributes_keep, lemma_binding_keeps, lemma_bindings_keep,
    lemma_escape_is_recorded, lemma_items_keep, lemma_kept_escape, lemma_kinds_differ,
};
use crate::model::{OwnerView, TargetView, UsageKindView, UsageView};
use crate::observe::{is_static_member, observed_args};
use crate::prepass::PlaceView;
use crate::scope::BindingView;
use crate::usage::{callee_target, function_scope, has_escape, StateView};
use crate::visit::{
    array_callback, called_member, called_name, component_args, event_handler, is_component,
    is_function, is_ignored, is_ignored_field, is_intrinsic, literal_member, visited,
    visited_args, visited_attributes, visited_binding, visited_bindings, visited_call,
    visited_declarators, visited_element, visited_fields, visited_function, visited_initializers,
    visited_items, visited_member, visited_tag, with_declared,
};

verus! {

broadcast use {crate::json::group_json_sizes, crate::json::group_json_views};

// ---------------------------------------------------------------------------
// Which nodes the walk comes to
// ---------------------------------------------------------------------------

/// Whether the walk over `n` comes to the node `m`: everything but types,
/// imports, exported names, and the names, tags and members that are dealt
/// with where they stand.
pub open spec fn comes_to(n: JsonView, m: JsonView) -> bool
    decreases n.size(), 3int,
{
    if n == m {
        true
    } else if n is Array {
        items_come_to(n.items(), m)
    } else if !(n is Object) || is_ignored(n) || n.is_kind("Identifier"@) {
        false
    } else if n.is_kind("ExportNamedDeclaration"@) {
        comes_to(n.get("declaration"@), m)
    } else if n.is_kind("ExportDefaultDeclaration"@) {
        !n.get("declaration"@).is_kind("Identifier"@) && comes_to(n.get("declaration"@), m)
    } else if n.is_kind("TSEnumDeclaration"@) {
        initializers_come_to(n.get("body"@).get("members"@).items(), m)
    } else if n.is_kind("TSQualifiedName"@) {
        comes_to(n.get("left"@), m)
    } else if n.is_kind("TSClassImplements"@) {
        false
    } else if is_function(n) {
        bindings_come_to(n.get("params"@).items(), m) || comes_to(n.get("body"@), m)
    } else if n.is_kind("VariableDeclaration"@) {
        declarators_come_to(n.get("declarations"@).items(), m)
    } else if n.is_kind("CatchClause"@) {
        binding_comes_to(n.get("param"@), m) || comes_to(n.get("body"@), m)
    } else if n.is_kind("CallExpression"@) {
        callee_comes_to(n.get("callee"@), m) || items_come_to(n.get("arguments"@).items(), m)
    } else if n.is_kind("NewExpression"@) {
        (!n.get("callee"@).is_kind("Identifier"@) && comes_to(n.get("callee"@), m))
            || items_come_to(n.get("arguments"@).items(), m)
    } else if is_static_member(n) {
        !n.get("object"@).is_kind("Identifier"@) && comes_to(n.get("object"@), m)
    } else if n.is_kind("JSXElement"@) {
        attributes_come_to(n.get("openingElement"@).get("attributes"@).items(), m)
            || items_come_to(n.get("children"@).items(), m)
    } else if literal_member(n) is Some {
        comes_to(n.get("object"@), m)
    } else {
        fields_come_to(n.fields(), n.get("computed"@).is_true(), m)
    }
}

/// Whether the walk over what a call calls comes to a node.
pub open spec fn callee_comes_to(callee: JsonView, m: JsonView) -> bool
    decreases callee.size(), 4int,
{
    if callee.is_kind("Identifier"@) {
        false
    } else if is_static_member(callee) {
        !callee.get("object"@).is_kind("Identifier"@) && comes_to(callee.get("object"@), m)
    } else {
        comes_to(callee, m)
    }
}

pub open spec fn items_come_to(items: Seq<JsonView>, m: JsonView) -> bool
    decreases items_size(items), 0int,
{
    items.len() > 0 && (comes_to(items.last(), m) || items_come_to(items.drop_last(), m))
}

pub open spec fn fields_come_to(
    fields: Seq<(Seq<char>, JsonView)>,
    computed: bool,
    m: JsonView,
) -> bool
    decreases fields_size(fields), 0int,
{
    fields.len() > 0 && ((!is_ignored_field(fields[fields.len() - 1].0, computed) && comes_to(
        fields[fields.len() - 1].1,
        m,
    )) || fields_come_to(fields.drop_last(), computed, m))
}

pub open spec fn initializers_come_to(items: Seq<JsonView>, m: JsonView) -> bool
    decreases items_size(items), 0int,
{
    items.len() > 0 && (comes_to(items.last().get("initializer"@), m) || initializers_come_to(
        items.drop_last(),
        m,
    ))
}

/// Whether the walk over a pattern that declares names comes to a node.
pub open spec fn binding_comes_to(n: JsonView, m: JsonView) -> bool
    decreases n.size(), 1int,
{
    if n is Null {
        false
    } else if items_come_to(n.get("decorators"@).items(), m) {
        true
    } else if n.is_kind("AssignmentPattern"@) {
        binding_comes_to(n.get("left"@), m) || comes_to(n.get("right"@), m)
    } else if n.is_kind("ObjectPattern"@) {
        bindings_come_to(n.get("properties"@).items(), m)
    } else if n.is_kind("ArrayPattern"@) {
        bindings_come_to(n.get("elements"@).items(), m)
    } else if n.is_kind("Property"@) {
        (n.get("computed"@).is_true() && comes_to(n.get("key"@), m)) || binding_comes_to(
            n.get("value"@),
            m,
        )
    } else if n.is_kind("RestElement"@) {
        binding_comes_to(n.get("argument"@), m)
    } else if n.is_kind("TSParameterProperty"@) {
        binding_comes_to(n.get("parameter"@), m)
    } else {
        false
    }
}

pub open spec fn bindings_come_to(items: Seq<JsonView>, m: JsonView) -> bool
    decreases items_size(items), 0int,
{
    items.len() > 0 && (binding_comes_to(items.last(), m) || bindings_come_to(
        items.drop_last(),
        m,
    ))
}

pub open spec fn declarators_come_to(items: Seq<JsonView>, m: JsonView) -> bool
    decreases items_size(items), 0int,
{
    items.len() > 0 && (binding_comes_to(items.last().get("id"@), m) || comes_to(
        items.last().get("init"@),
        m,
    ) || declarators_come_to(items.drop_last(), m))
}

/// Whether the walk over attributes comes to a node.
pub open spec fn attributes_come_to(items: Seq<JsonView>, m: JsonView) -> bool
    decreases items_size(items), 0int,
{
    items.len() > 0 && ((!holds_name(items.last()) && comes_to(attribute_body(items.last()), m))
        || attributes_come_to(items.drop_last(), m))
}

/// Whether an attribute holds just a name in braces.
pub open spec fn holds_name(a: JsonView) -> bool {
    a.is_kind("JSXAttribute"@) && a.get("value"@).is_kind("JSXExpressionContainer"@) && a.get(
        "value"@,
    ).get("expression"@).is_kind("Identifier"@)
}

/// What an attribute holds: its value, or what is spread.
pub open spec fn attribute_body(a: JsonView) -> JsonView {
    if a.is_kind("JSXAttribute"@) {
        a.get("value"@)
    } else {
        a.get("argument"@)
    }
}

// ---------------------------------------------------------------------------
// Calls by name
// ---------------------------------------------------------------------------

/// Whether a node calls something by the given name: as a function, or as a component.
pub open spec fn calls_by_name(m: JsonView, name: Seq<char>) -> bool {
    ||| m is Object && m.is_kind("CallExpression"@) && m.get("callee"@).is_kind("Identifier"@)
        && m.get("callee"@).name() == name
    ||| m is Object && m.is_kind("JSXElement"@) && is_component(m.get("openingElement"@).get("name"@))
        && m.get("openingElement"@).get("name"@).name() == name
}

/// Whether a target stands for what a name may mean: the function of that name
/// of its module, an import, the members of a class or the exports of a
/// namespace, or else every free function of that name.
pub open spec fn may_mean(t: TargetView, name: Seq<char>) -> bool {
    ||| t == (TargetView::Local { owner: OwnerView::Free, name })
    ||| t == (TargetView::Imported { local: name })
    ||| t == TargetView::AllMembersOf(OwnerView::Class(name))
    ||| t == (TargetView::AllExportsOfModule { ns_local: name })
    ||| t == TargetView::AnyFreeNamed(name)
}

/// Whether a usage of the name is recorded.
pub open spec fn is_used(usages: Seq<UsageView>, name: Seq<char>) -> bool {
    exists|i: int| 0 <= i < usages.len() && may_mean((#[trigger] usages[i]).target, name)
}

proof fn lemma_stays_used(a: Seq<UsageView>, b: Seq<UsageView>, name: Seq<char>)
    requires
        keeps(a, b),
        is_used(a, name),
    ensures
        is_used(b, name),
{
    let i = choose|i: int| 0 <= i < a.len() && may_mean((#[trigger] a[i]).target, name);
    assert(b[i] == a[i]);
}

proof fn lemma_escape_is_use(usages: Seq<UsageView>, t: TargetView, name: Seq<char>)
    requires
        has_escape(usages, t),
        may_mean(t, name),
    ensures
        is_used(usages, name),
{
    let i = choose|i: int|
        0 <= i < usages.len() && (#[trigger] usages[i]).kind is Escape && usages[i].target == t;
    assert(may_mean(usages[i].target, name));
}

/// The node itself.
proof fn lemma_here(m: JsonView, name: Seq<char>, src: Seq<char>, s: StateView)
    requires
        calls_by_name(m, name),
    ensures
        is_used(visited(m, src, s).usages, name),
{
    lemma_kinds_differ(m.get("type"@).text());
    let after = visited(m, src, s).usages;
    if m.is_kind("CallExpression"@) {
        law_call_is_recorded(m, src, s);
        match callee_target(s.lookup(name), name) {
            Some(t) => {
                let args = observed_args(m.get("arguments"@).items(), src, s.names);
                assert(has_call(after, t, args));
                let i = choose|i: int|
                    0 <= i < after.len() && (#[trigger] after[i]).kind
                        == UsageKindView::Call(args) && after[i].target == t;
                assert(may_mean(after[i].target, name));
            },
            None => {
                let t = if s.lookup(name) == Some(BindingView::Namespace) {
                    TargetView::AllExportsOfModule { ns_local: name }
                } else {
                    TargetView::AnyFreeNamed(name)
                };
                lemma_escape_is_use(after, t, name);
            },
        }
    } else {
        let opening = m.get("openingElement"@);
        let children = m.get("children"@).items();
        let attributes = opening.get("attributes"@).items();
        match callee_target(s.lookup(name), name) {
            Some(t) => {
                law_component_is_recorded(m, src, s);
                let args = component_args(attributes, children.len() > 0, src, s.names);
                let i = choose|i: int|
                    0 <= i < after.len() && (#[trigger] after[i]).kind
                        == UsageKindView::Call(args) && after[i].target == t;
                assert(may_mean(after[i].target, name));
            },
            None => {
                let t = match s.lookup(name) {
                    Some(BindingView::ClassDecl) => TargetView::AllMembersOf(
                        OwnerView::Class(name),
                    ),
                    Some(BindingView::Namespace) => TargetView::AllExportsOfModule {
                        ns_local: name,
                    },
                    _ => TargetView::AnyFreeNamed(name),
                };
                let intrinsic = is_intrinsic(opening.get("name"@));
                let tagged = visited_tag(opening, children.len() > 0, src, s);
                assert(tagged == s.escape(t));
                lemma_escape_is_recorded(s, t);
                lemma_attributes_keep(attributes, intrinsic, src, tagged);
                let behind = visited_attributes(attributes, intrinsic, src, tagged);
                lemma_items_keep(children, src, behind);
                assert(visited(m, src, s) == visited_element(m, src, s));
                lemma_kept_escape(tagged.usages, behind.usages, t);
                lemma_kept_escape(behind.usages, after, t);
                lemma_escape_is_use(after, t, name);
            },
        }
    }
}

/// Nothing is called inside a name.
proof fn lemma_names_hold_no_calls(n: JsonView, m: JsonView, name: Seq<char>)
    requires
        n.is_kind("Identifier"@),
        calls_by_name(m, name),
    ensures
        !comes_to(n, m),
{
    lemma_kinds_differ(n.get("type"@).text());
    lemma_kinds_differ(m.get("type"@).text());
    if n is Array {
        assert(n.get("type"@) is Null);
        assert(n.get("type"@).text() =~= Seq::<char>::empty());
        reveal_strlit("Identifier");
        assert("Identifier"@.len() == 10);
    }
}

/// A call by name, wherever the walk comes to it, leaves a usage of the name:
/// attributed to a function, or as an escape of all that the name may mean.
pub proof fn law_calls_are_never_dropped(
    n: JsonView,
    m: JsonView,
    name: Seq<char>,
    src: Seq<char>,
    s: StateView,
)
    requires
        comes_to(n, m),
        calls_by_name(m, name),
    ensures
        is_used(visited(n, src, s).usages, name),
    decreases n.size(), 3int,
{
    let after = visited(n, src, s).usages;
    if n == m {
        lemma_here(m, name, src, s);
    } else if n is Array {
        lemma_items_used(n.items(), m, name, src, s);
    } else if n.is_kind("ExportNamedDeclaration"@) {
        law_calls_are_never_dropped(n.get("declaration"@), m, name, src, s);
    } else if n.is_kind("ExportDefaultDeclaration"@) {
        law_calls_are_never_dropped(n.get("declaration"@), m, name, src, s);
    } else if n.is_kind("TSEnumDeclaration"@) {
        lemma_initializers_used(n.get("body"@).get("members"@).items(), m, name, src, s);
    } else if n.is_kind("TSQualifiedName"@) {
        law_calls_are_never_dropped(n.get("left"@), m, name, src, s);
    } else if is_function(n) {
        lemma_function_used(n, m, name, src, s);
    } else if n.is_kind("VariableDeclaration"@) {
        lemma_declarators_used(
            n.get("declarations"@).items(),
            n.get("kind"@).text() == "const"@,
            m,
            name,
            src,
            s,
        );
    } else if n.is_kind("CatchClause"@) {
        let bound = visited_binding(n.get("param"@), src, s);
        if binding_comes_to(n.get("param"@), m) {
            lemma_binding_used(n.get("param"@), m, name, src, s);
            law_walk_keeps_usages(n.get("body"@), src, bound);
            lemma_stays_used(bound.usages, after, name);
        } else {
            law_calls_are_never_dropped(n.get("body"@), m, name, src, bound);
        }
    } else if n.is_kind("CallExpression"@) {
        lemma_call_used(n, m, name, src, s);
    } else if n.is_kind("NewExpression"@) {
        let items = n.get("arguments"@).items();
        let callee = n.get("callee"@);
        let made = if callee.is_kind("Identifier"@) {
            s
        } else {
            visited(callee, src, s)
        };
        if items_come_to(items, m) {
            lemma_items_used(items, m, name, src, made);
        } else {
            law_calls_are_never_dropped(callee, m, name, src, s);
            lemma_items_keep(items, src, made);
            lemma_stays_used(made.usages, after, name);
        }
    } else if is_static_member(n) {
        assert(visited(n, src, s) == visited_member(n, src, s));
        law_calls_are_never_dropped(
            n.get("object"@),
            m,
            name,
            src,
            s.escape_member(n.get("property"@).name()),
        );
    } else if n.is_kind("JSXElement"@) {
        lemma_element_used(n, m, name, src, s);
    } else if literal_member(n) is Some {
        law_calls_are_never_dropped(
            n.get("object"@),
            m,
            name,
            src,
            s.escape_member(literal_member(n)->0),
        );
    } else {
        lemma_fields_used(n.fields(), n.get("computed"@).is_true(), m, name, src, s);
    }
}

proof fn lemma_items_used(
    items: Seq<JsonView>,
    m: JsonView,
    name: Seq<char>,
    src: Seq<char>,
    s: StateView,
)
    requires
        items_come_to(items, m),
        calls_by_name(m, name),
    ensures
        is_used(visited_items(items, src, s).usages, name),
    decreases items_size(items), 0int,
{
    let front = visited_items(items.drop_last(), src, s);
    if comes_to(items.last(), m) {
        law_calls_are_never_dropped(items.last(), m, name, src, front);
    } else {
        lemma_items_used(items.drop_last(), m, name, src, s);
        law_walk_keeps_usages(items.last(), src, front);
        lemma_stays_used(front.usages, visited_items(items, src, s).usages, name);
    }
}

proof fn lemma_fields_used(
    fields: Seq<(Seq<char>, JsonView)>,
    computed: bool,
    m: JsonView,
    name: Seq<char>,
    src: Seq<char>,
    s: StateView,
)
    requires
        fields_come_to(fields, computed, m),
        calls_by_name(m, name),
    ensures
        is_used(visited_fields(fields, computed, src, s).usages, name),
    decreases fields_size(fields), 0int,
{
    let front = visited_fields(fields.drop_last(), computed, src, s);
    let last = fields[fields.len() - 1];
    if !is_ignored_field(last.0, computed) && comes_to(last.1, m) {
        law_calls_are_never_dropped(last.1, m, name, src, front);
    } else {
        lemma_fields_used(fields.drop_last(), computed, m, name, src, s);
        law_walk_keeps_usages(last.1, src, front);
        lemma_stays_used(front.usages, visited_fields(fields, computed, src, s).usages, name);
    }
}

proof fn lemma_initializers_used(
    items: Seq<JsonView>,
    m: JsonView,
    name: Seq<char>,
    src: Seq<char>,
    s: StateView,
)
    requires
        initializers_come_to(items, m),
        calls_by_name(m, name),
    ensures
        is_used(visited_initializers(items, src, s).usages, name),
    decreases items_size(items), 0int,
{
    let front = visited_initializers(items.drop_last(), src, s);
    let last = items.last().get("initializer"@);
    if comes_to(last, m) {
        law_calls_are_never_dropped(last, m, name, src, front);
    } else {
        lemma_initializers_used(items.drop_last(), m, name, src, s);
        law_walk_keeps_usages(last, src, front);
        lemma_stays_used(front.usages, visited_initializers(items, src, s).usages, name);
    }
}

proof fn lemma_binding_used(
    n: JsonView,
    m: JsonView,
    name: Seq<char>,
    src: Seq<char>,
    s: StateView,
)
    requires
        binding_comes_to(n, m),
        calls_by_name(m, name),
    ensures
        is_used(visited_binding(n, src, s).usages, name),
    decreases n.size(), 1int,
{
    let after = visited_binding(n, src, s).usages;
    let d = visited_items(n.get("decorators"@).items(), src, s);
    if items_come_to(n.get("decorators"@).items(), m) {
        lemma_items_used(n.get("decorators"@).items(), m, name, src, s);
        lemma_binding_keeps_decorated(n, src, s);
        lemma_stays_used(d.usages, after, name);
    } else if n.is_kind("AssignmentPattern"@) {
        let left = visited_binding(n.get("left"@), src, d);
        if binding_comes_to(n.get("left"@), m) {
            lemma_binding_used(n.get("left"@), m, name, src, d);
            law_walk_keeps_usages(n.get("right"@), src, left);
            lemma_stays_used(left.usages, after, name);
        } else {
            law_calls_are_never_dropped(n.get("right"@), m, name, src, left);
        }
    } else if n.is_kind("ObjectPattern"@) {
        lemma_bindings_used(n.get("properties"@).items(), m, name, src, d);
    } else if n.is_kind("ArrayPattern"@) {
        lemma_bindings_used(n.get("elements"@).items(), m, name, src, d);
    } else if n.is_kind("Property"@) {
        let keyed = if n.get("computed"@).is_true() {
            visited(n.get("key"@), src, d)
        } else {
            d
        };
        if binding_comes_to(n.get("value"@), m) {
            lemma_binding_used(n.get("value"@), m, name, src, keyed);
        } else {
            law_calls_are_never_dropped(n.get("key"@), m, name, src, d);
            lemma_binding_keeps(n.get("value"@), src, keyed);
            lemma_stays_used(keyed.usages, after, name);
        }
    } else if n.is_kind("RestElement"@) {
        lemma_binding_used(n.get("argument"@), m, name, src, d);
    } else {
        lemma_binding_used(n.get("parameter"@), m, name, src, d);
    }
}

/// What decorators leave stays.
proof fn lemma_binding_keeps_decorated(n: JsonView, src: Seq<char>, s: StateView)
    requires
        !(n is Null),
    ensures
        keeps(
            visited_items(n.get("decorators"@).items(), src, s).usages,
            visited_binding(n, src, s).usages,
        ),
{
    let d = visited_items(n.get("decorators"@).items(), src, s);
    if n.is_kind("AssignmentPattern"@) {
        lemma_binding_keeps(n.get("left"@), src, d);
        law_walk_keeps_usages(n.get("right"@), src, visited_binding(n.get("left"@), src, d));
    } else if n.is_kind("ObjectPattern"@) {
        lemma_bindings_keep(n.get("properties"@).items(), src, d);
    } else if n.is_kind("ArrayPattern"@) {
        lemma_bindings_keep(n.get("elements"@).items(), src, d);
    } else if n.is_kind("Property"@) {
        law_walk_keeps_usages(n.get("key"@), src, d);
        lemma_binding_keeps(n.get("value"@), src, d);
        lemma_binding_keeps(n.get("value"@), src, visited(n.get("key"@), src, d));
    } else if n.is_kind("RestElement"@) {
        lemma_binding_keeps(n.get("argument"@), src, d);
    } else if n.is_kind("TSParameterProperty"@) {
        lemma_binding_keeps(n.get("parameter"@), src, d);
    }
}

proof fn lemma_bindings_used(
    items: Seq<JsonView>,
    m: JsonView,
    name: Seq<char>,
    src: Seq<char>,
    s: StateView,
)
    requires
        bindings_come_to(items, m),
        calls_by_name(m, name),
    ensures
        is_used(visited_bindings(items, src, s).usages, name),
    decreases items_size(items), 0int,
{
    let front = visited_bindings(items.drop_last(), src, s);
    if binding_comes_to(items.last(), m) {
        lemma_binding_used(items.last(), m, name, src, front);
    } else {
        lemma_bindings_used(items.drop_last(), m, name, src, s);
        lemma_binding_keeps(items.last(), src, front);
        lemma_stays_used(front.usages, visited_bindings(items, src, s).usages, name);
    }
}

proof fn lemma_function_used(
    n: JsonView,
    m: JsonView,
    name: Seq<char>,
    src: Seq<char>,
    s: StateView,
)
    requires
        !(n is Null),
        bindings_come_to(n.get("params"@).items(), m) || comes_to(n.get("body"@), m),
        calls_by_name(m, name),
    ensures
        is_used(visited_function(n, src, s).usages, name),
    decreases n.size(), 2int,
{
    let id = n.get("id"@);
    let is_decl = n.is_kind("FunctionDeclaration"@);
    let outside = if is_decl && s.names.scopes.len() > 1 && !(id is Null) {
        s.bound(id.name(), BindingView::LocalOther)
    } else {
        s
    };
    let scope = function_scope(n, src, outside.names.shadows);
    let entered = outside.pushed(scope.values, scope.types);
    let inside = if !is_decl && !(id is Null) {
        entered.bound(id.name(), BindingView::LocalOther)
    } else {
        entered
    };
    let bound = visited_bindings(n.get("params"@).items(), src, inside);
    if comes_to(n.get("body"@), m) {
        law_calls_are_never_dropped(n.get("body"@), m, name, src, bound);
    } else {
        lemma_bindings_used(n.get("params"@).items(), m, name, src, inside);
        law_walk_keeps_usages(n.get("body"@), src, bound);
        lemma_stays_used(bound.usages, visited(n.get("body"@), src, bound).usages, name);
    }
}

proof fn lemma_declarators_used(
    items: Seq<JsonView>,
    is_const: bool,
    m: JsonView,
    name: Seq<char>,
    src: Seq<char>,
    s: StateView,
)
    requires
        declarators_come_to(items, m),
        calls_by_name(m, name),
    ensures
        is_used(visited_declarators(items, is_const, src, s).usages, name),
    decreases items_size(items), 0int,
{
    let after = visited_declarators(items, is_const, src, s).usages;
    let front = visited_declarators(items.drop_last(), is_const, src, s);
    let d = items.last();
    let named = with_declared(d, is_const, src, front);
    let bound = visited_binding(d.get("id"@), src, named);
    lemma_binding_keeps(d.get("id"@), src, named);
    law_walk_keeps_usages(d.get("init"@), src, bound);
    if comes_to(d.get("init"@), m) {
        law_calls_are_never_dropped(d.get("init"@), m, name, src, bound);
    } else if binding_comes_to(d.get("id"@), m) {
        lemma_binding_used(d.get("id"@), m, name, src, named);
        lemma_stays_used(bound.usages, after, name);
    } else {
        lemma_declarators_used(items.drop_last(), is_const, m, name, src, s);
        lemma_stays_used(front.usages, bound.usages, name);
        lemma_stays_used(bound.usages, after, name);
    }
}

proof fn lemma_call_used(
    n: JsonView,
    m: JsonView,
    name: Seq<char>,
    src: Seq<char>,
    s: StateView,
)
    requires
        !(n is Null),
        callee_comes_to(n.get("callee"@), m) || items_come_to(n.get("arguments"@).items(), m),
        calls_by_name(m, name),
    ensures
        is_used(visited_call(n, src, s).usages, name),
    decreases n.size(), 2int,
{
    let after = visited_call(n, src, s).usages;
    let callee = n.get("callee"@);
    let items = n.get("arguments"@).items();
    let args = observed_args(items, src, s.names);
    let line = n.start_line(src);
    let escaped = s.escape_member(callee.get("property"@).name());
    let called = if callee.is_kind("Identifier"@) {
        called_name(callee.name(), args, line, s)
    } else if is_static_member(callee) {
        if callee.get("object"@).is_kind("Identifier"@) {
            called_member(
                callee.get("object"@).name(),
                callee.get("property"@).name(),
                args,
                line,
                s,
            )
        } else {
            visited(callee.get("object"@), src, escaped)
        }
    } else {
        visited(callee, src, s)
    };
    if callee_comes_to(callee, m) {
        if is_static_member(callee) {
            law_calls_are_never_dropped(callee.get("object"@), m, name, src, escaped);
        } else {
            law_calls_are_never_dropped(callee, m, name, src, s);
        }
        assert(is_used(called.usages, name));
    }
    match array_callback(n, called) {
        Some((t, shape)) => {
            let begun = called.call(t, shape, line);
            if items_come_to(items, m) {
                lemma_args_used(items, true, m, name, src, begun);
            } else {
                lemma_args_keep(items, true, src, begun);
                lemma_stays_used(called.usages, begun.usages, name);
                lemma_stays_used(begun.usages, after, name);
            }
        },
        None => {
            if items_come_to(items, m) {
                lemma_args_used(items, false, m, name, src, called);
            } else {
                lemma_args_keep(items, false, src, called);
                lemma_stays_used(called.usages, after, name);
            }
        },
    }
}

proof fn lemma_args_used(
    items: Seq<JsonView>,
    skip_first: bool,
    m: JsonView,
    name: Seq<char>,
    src: Seq<char>,
    s: StateView,
)
    requires
        items_come_to(items, m),
        calls_by_name(m, name),
        skip_first ==> items[0].is_kind("Identifier"@),
    ensures
        is_used(visited_args(items, skip_first, src, s).usages, name),
    decreases items_size(items), 0int,
{
    if skip_first && items.len() == 1 {
        lemma_names_hold_no_calls(items[0], m, name);
        assert(!items_come_to(items.drop_last(), m));
    } else {
        let front = visited_args(items.drop_last(), skip_first, src, s);
        if comes_to(items.last(), m) {
            law_calls_are_never_dropped(items.last(), m, name, src, front);
        } else {
            assert(items_come_to(items.drop_last(), m));
            assert(items.drop_last()[0] == items[0]);
            lemma_args_used(items.drop_last(), skip_first, m, name, src, s);
            law_walk_keeps_usages(items.last(), src, front);
            lemma_stays_used(
                front.usages,
                visited_args(items, skip_first, src, s).usages,
                name,
            );
        }
    }
}

proof fn lemma_element_used(
    n: JsonView,
    m: JsonView,
    name: Seq<char>,
    src: Seq<char>,
    s: StateView,
)
    requires
        !(n is Null),
        attributes_come_to(n.get("openingElement"@).get("attributes"@).items(), m)
            || items_come_to(n.get("children"@).items(), m),
        calls_by_name(m, name),
    ensures
        is_used(visited_element(n, src, s).usages, name),
    decreases n.size(), 2int,
{
    let opening = n.get("openingElement"@);
    let children = n.get("children"@).items();
    let attributes = opening.get("attributes"@).items();
    let intrinsic = is_intrinsic(opening.get("name"@));
    let tagged = visited_tag(opening, children.len() > 0, src, s);
    let behind = visited_attributes(attributes, intrinsic, src, tagged);
    if items_come_to(children, m) {
        lemma_items_used(children, m, name, src, behind);
    } else {
        lemma_attributes_used(attributes, intrinsic, m, name, src, tagged);
        lemma_items_keep(children, src, behind);
        lemma_stays_used(behind.usages, visited_element(n, src, s).usages, name);
    }
}

proof fn lemma_attributes_used(
    items: Seq<JsonView>,
    intrinsic: bool,
    m: JsonView,
    name: Seq<char>,
    src: Seq<char>,
    s: StateView,
)
    requires
        attributes_come_to(items, m),
        calls_by_name(m, name),
    ensures
        is_used(visited_attributes(items, intrinsic, src, s).usages, name),
    decreases items_size(items), 0int,
{
    let after = visited_attributes(items, intrinsic, src, s).usages;
    let front = visited_attributes(items.drop_last(), intrinsic, src, s);
    let a = items.last();
    let body = attribute_body(a);
    if intrinsic && event_handler(a, front) is Some {
        lemma_attributes_used(items.drop_last(), intrinsic, m, name, src, s);
        lemma_stays_used(front.usages, after, name);
    } else if !holds_name(a) && comes_to(body, m) {
        law_calls_are_never_dropped(body, m, name, src, front);
    } else {
        lemma_attributes_used(items.drop_last(), intrinsic, m, name, src, s);
        law_walk_keeps_usages(body, src, front);
        lemma_stays_used(front.usages, after, name);
    }
}

/// So a module holds a usage for every call by name in its text.
pub proof fn law_module_holds_every_call(
    tree: JsonView,
    errors: nat,
    rel: Seq<char>,
    src: Seq<char>,
    place: PlaceView,
    m: JsonView,
    name: Seq<char>,
)
    requires
        comes_to(tree, m),
        calls_by_name(m, name),
    ensures
        is_used(module_facts(tree, errors, rel, src, place).usages, name),
{
    let pre = module_level(tree, errors, rel, src, place);
    let start = StateView { names: module_names(pre, tree), usages: Seq::empty() };
    law_calls_are_never_dropped(tree, m, name, src, start);
}

} // verus!

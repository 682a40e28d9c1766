//! The walk over a syntax tree that collects the usages of a module.

use vstd::prelude::*;
use vstd::string::*;

use crate::json::{fields_size, items_size, Json, JsonView};
use crate::model::{
    views, ArgsView, CallArgs, Observed, ObservedView, Owner, OwnerView, TargetView, TypeExpr,
    TypeExprView, UsageTargetRef,
};
use crate::observe::{is_static_member, observed, observed_args, static_member, NamesView};
use crate::prepass::variable_binding;
use crate::scope::{with_names, Binding, BindingView};
use crate::source::Source;
use crate::syntax::{literal_value, opt_text, simple_literal, string_literal, string_value};
use crate::text::{chars_of, has_prefix, same_text, starts_with};
use crate::usage::{callee_target, function_scope, safe_binding, StateView, UsageVisitor};

verus! {

broadcast use {
    crate::model::group_model_views,
    crate::json::group_json_sizes,
    crate::json::group_json_views,
};

// ---------------------------------------------------------------------------
// Which nodes hold references
// ---------------------------------------------------------------------------

/// Nodes without references to values: type declarations, imports, re-exports,
/// the closing tags of elements, and names that are no references.
pub open spec fn is_ignored(n: JsonView) -> bool {
    n.is_kind("TSTypeAliasDeclaration"@) || n.is_kind("TSInterfaceDeclaration"@) || n.is_kind(
        "ImportDeclaration"@,
    ) || n.is_kind("ExportAllDeclaration"@) || n.is_kind("JSXClosingElement"@) || n.is_kind(
        "MetaProperty"@,
    ) || n.is_kind("TSIndexSignature"@)
}

/// Fields that hold types, declared names or labels; a key is a name unless it
/// is computed.
pub open spec fn is_ignored_field(name: Seq<char>, computed: bool) -> bool {
    name == "typeAnnotation"@ || name == "returnType"@ || name == "typeParameters"@ || name
        == "typeArguments"@ || name == "superTypeArguments"@ || name == "id"@ || name == "label"@
        || (name == "key"@ && !computed)
}

pub open spec fn is_function(n: JsonView) -> bool {
    n.is_kind("FunctionDeclaration"@) || n.is_kind("FunctionExpression"@) || n.is_kind(
        "ArrowFunctionExpression"@,
    ) || n.is_kind("TSDeclareFunction"@) || n.is_kind("TSEmptyBodyFunctionExpression"@)
}

/// The name at the root of a dotted name.
pub open spec fn root_name(e: JsonView) -> Seq<char>
    decreases e.size(),
{
    if e is Null {
        Seq::empty()
    } else if e.is_kind("Identifier"@) {
        e.name()
    } else if e.is_kind("MemberExpression"@) {
        root_name(e.get("object"@))
    } else {
        root_name(e.get("left"@))
    }
}

/// The property that `object["property"]` uses.
pub open spec fn literal_member(n: JsonView) -> Option<Seq<char>> {
    if n.is_kind("MemberExpression"@) && n.get("computed"@).is_true() {
        string_value(n.get("property"@))
    } else {
        None
    }
}

// ---------------------------------------------------------------------------
// Callbacks with a known way of being called
// ---------------------------------------------------------------------------

/// What an array method passes to its callback: unknown elements and numeric
/// positions.
pub open spec fn callback_shape(method: Seq<char>) -> Option<Seq<ObservedView>> {
    let any = ObservedView::Opaque;
    let index = ObservedView::Typed(TypeExprView::Num);
    if method == "map"@ || method == "filter"@ || method == "forEach"@ || method == "some"@
        || method == "every"@ || method == "find"@ || method == "findIndex"@ || method
        == "findLast"@ || method == "findLastIndex"@ || method == "flatMap"@ {
        Some(seq![any, index, any])
    } else if method == "sort"@ || method == "toSorted"@ {
        Some(seq![any, any])
    } else if method == "reduce"@ || method == "reduceRight"@ {
        Some(seq![any, any, index, any])
    } else {
        None
    }
}

/// Array methods whose result is an array.
pub open spec fn gives_array(method: Seq<char>) -> bool {
    method == "map"@ || method == "filter"@ || method == "flatMap"@ || method == "slice"@ || method
        == "concat"@ || method == "flat"@ || method == "reverse"@ || method == "toReversed"@
        || method == "sort"@ || method == "toSorted"@
}

/// Whether an expression provably evaluates to an array: a literal, or what an
/// array method makes of one.
pub open spec fn is_array_value(e: JsonView) -> bool
    decreases e.size(),
{
    if e is Null {
        false
    } else if e.is_kind("ArrayExpression"@) {
        true
    } else if e.is_kind("ParenthesizedExpression"@) || e.is_kind("TSNonNullExpression"@) {
        is_array_value(e.get("expression"@))
    } else if e.is_kind("CallExpression"@) {
        let callee = e.get("callee"@);
        is_static_member(callee) && gives_array(callee.get("property"@).name())
            && is_array_value(callee.get("object"@))
    } else {
        false
    }
}

/// The function that a call hands to an array method, and what it is passed.
pub open spec fn array_callback(n: JsonView, s: StateView) -> Option<(TargetView, ArgsView)> {
    let callee = n.get("callee"@);
    let args = n.get("arguments"@).items();
    if is_static_member(callee) && is_array_value(callee.get("object"@)) && args.len() > 0
        && args[0].is_kind("Identifier"@) {
        match (
            callback_shape(callee.get("property"@).name()),
            callee_target(s.lookup(args[0].name()), args[0].name()),
        ) {
            (Some(shape), Some(t)) => Some((t, ArgsView::Args(shape))),
            _ => None,
        }
    } else {
        None
    }
}

// ---------------------------------------------------------------------------
// Elements
// ---------------------------------------------------------------------------

/// Whether a tag names a component: no hyphen, and no lower-case letter first.
pub open spec fn is_component_name(name: Seq<char>) -> bool {
    name.len() > 0 && !('a' <= name[0] && name[0] <= 'z') && !name.contains('-')
}

pub open spec fn is_component(tag: JsonView) -> bool {
    tag.is_kind("JSXIdentifier"@) && is_component_name(tag.name())
}

/// Whether a tag names an element of the platform.
pub open spec fn is_intrinsic(tag: JsonView) -> bool {
    tag.is_kind("JSXIdentifier"@) && !is_component_name(tag.name())
}

/// What an attribute passes.
pub open spec fn attribute_value(a: JsonView, src: Seq<char>, names: NamesView) -> ObservedView {
    let v = a.get("value"@);
    if v is Null {
        ObservedView::BoolLit(true)
    } else if v.is_kind("JSXExpressionContainer"@) {
        observed(v.get("expression"@), src, names, 0)
    } else {
        match literal_value(v) {
            Some(ObservedView::StrLit(s)) => ObservedView::StrLit(s),
            _ => ObservedView::Opaque,
        }
    }
}

/// The properties that attributes pass, unless one is spread or namespaced.
pub open spec fn attribute_props(items: Seq<JsonView>, src: Seq<char>, names: NamesView) -> Option<
    Seq<(Seq<char>, ObservedView)>,
>
    decreases items.len(),
{
    if items.len() == 0 {
        Some(Seq::empty())
    } else {
        let a = items.last();
        match attribute_props(items.drop_last(), src, names) {
            Some(before) => if a.is_kind("JSXAttribute"@) && a.get("name"@).is_kind(
                "JSXIdentifier"@,
            ) {
                Some(before.push((a.get("name"@).name(), attribute_value(a, src, names))))
            } else {
                None
            },
            None => None,
        }
    }
}

/// The argument of a component: an object of its attributes and, if it has
/// children, of those.
pub open spec fn component_args(
    items: Seq<JsonView>,
    has_children: bool,
    src: Seq<char>,
    names: NamesView,
) -> ArgsView {
    match attribute_props(items, src, names) {
        Some(props) => ArgsView::Args(
            seq![
                ObservedView::Object(
                    if has_children {
                        seq![("children"@, ObservedView::Opaque)] + props
                    } else {
                        props
                    },
                ),
            ],
        ),
        None => ArgsView::Opaque,
    }
}

/// The function that an element of the platform calls as an event handler.
pub open spec fn event_handler(a: JsonView, s: StateView) -> Option<TargetView> {
    let e = a.get("value"@).get("expression"@);
    if a.is_kind("JSXAttribute"@) && a.get("name"@).is_kind("JSXIdentifier"@) && starts_with(
        a.get("name"@).name(),
        "on"@,
    ) && a.get("value"@).is_kind("JSXExpressionContainer"@) && e.is_kind("Identifier"@) {
        callee_target(s.lookup(e.name()), e.name())
    } else {
        None
    }
}

/// What the objects of a dotted tag let escape.
pub open spec fn visited_tag_object(o: JsonView, s: StateView) -> StateView
    decreases o.size(),
{
    if o is Null {
        s
    } else if o.is_kind("JSXMemberExpression"@) {
        visited_tag_object(
            o.get("object"@),
            s.escape_member(o.get("property"@).name()),
        )
    } else {
        s.escape_use(o.name())
    }
}

/// The use of a tag.
pub open spec fn visited_tag(
    opening: JsonView,
    has_children: bool,
    src: Seq<char>,
    s: StateView,
) -> StateView {
    let tag = opening.get("name"@);
    if is_component(tag) {
        let name = tag.name();
        match callee_target(s.lookup(name), name) {
            Some(t) => s.call(
                t,
                component_args(
                    opening.get("attributes"@).items(),
                    has_children,
                    src,
                    s.names,
                ),
                opening.start_line(src),
            ),
            None => match s.lookup(name) {
                // Class components are not modelled: their properties flow
                // where nothing is tracked.
                Some(BindingView::ClassDecl) => s.escape(
                    TargetView::AllMembersOf(OwnerView::Class(name)),
                ),
                Some(BindingView::Namespace) => s.escape(
                    TargetView::AllExportsOfModule { ns_local: name },
                ),
                _ => s.escape(TargetView::AnyFreeNamed(name)),
            },
        }
    } else {
        // `<UI.Badge />` cannot be attributed: it escapes by member name, and
        // the base object with it.
        if tag.is_kind("JSXMemberExpression"@) {
            visited_tag_object(tag, s)
        } else {
            s
        }
    }
}

// ---------------------------------------------------------------------------
// The walk
// ---------------------------------------------------------------------------

/// The state after the references in a node.
pub open spec fn visited(n: JsonView, src: Seq<char>, s: StateView) -> StateView
    decreases n.size(), 3int,
{
    if n is Array {
        visited_items(n.items(), src, s)
    } else if !(n is Object) || is_ignored(n) {
        s
    } else if n.is_kind("Identifier"@) {
        s.escape_use(n.name())
    } else if n.is_kind("ExportNamedDeclaration"@) {
        // Specifiers are neutral: an export is no use.
        visited(n.get("declaration"@), src, s)
    } else if n.is_kind("ExportDefaultDeclaration"@) {
        if n.get("declaration"@).is_kind("Identifier"@) {
            s
        } else {
            visited(n.get("declaration"@), src, s)
        }
    } else if n.is_kind("TSEnumDeclaration"@) {
        visited_initializers(n.get("body"@).get("members"@).items(), src, s)
    } else if n.is_kind("TSQualifiedName"@) {
        visited(n.get("left"@), src, s)
    } else if n.is_kind("TSClassImplements"@) {
        s.escape_use(root_name(n.get("expression"@)))
    } else if is_function(n) {
        visited_function(n, src, s)
    } else if n.is_kind("VariableDeclaration"@) {
        visited_declarators(
            n.get("declarations"@).items(),
            n.get("kind"@).text() == "const"@,
            src,
            s,
        )
    } else if n.is_kind("CatchClause"@) {
        visited(n.get("body"@), src, visited_binding(n.get("param"@), src, s))
    } else if n.is_kind("CallExpression"@) {
        visited_call(n, src, s)
    } else if n.is_kind("NewExpression"@) {
        // The class in `new Cls()` is neutral.
        visited_items(
            n.get("arguments"@).items(),
            src,
            if n.get("callee"@).is_kind("Identifier"@) {
                s
            } else {
                visited(n.get("callee"@), src, s)
            },
        )
    } else if is_static_member(n) {
        visited_member(n, src, s)
    } else if n.is_kind("JSXElement"@) {
        visited_element(n, src, s)
    } else if literal_member(n) is Some {
        visited(n.get("object"@), src, s.escape_member(literal_member(n)->0))
    } else {
        visited_fields(n.fields(), n.get("computed"@).is_true(), src, s)
    }
}

pub open spec fn visited_items(items: Seq<JsonView>, src: Seq<char>, s: StateView) -> StateView
    decreases items_size(items), 0int,
{
    if items.len() == 0 {
        s
    } else {
        visited(items.last(), src, visited_items(items.drop_last(), src, s))
    }
}

pub open spec fn visited_fields(
    fields: Seq<(Seq<char>, JsonView)>,
    computed: bool,
    src: Seq<char>,
    s: StateView,
) -> StateView
    decreases fields_size(fields), 0int,
{
    if fields.len() == 0 {
        s
    } else {
        let before = visited_fields(fields.drop_last(), computed, src, s);
        if is_ignored_field(fields[fields.len() - 1].0, computed) {
            before
        } else {
            visited(fields[fields.len() - 1].1, src, before)
        }
    }
}

/// The initializers of enum members.
pub open spec fn visited_initializers(items: Seq<JsonView>, src: Seq<char>, s: StateView) -> StateView
    decreases items_size(items), 0int,
{
    if items.len() == 0 {
        s
    } else {
        visited(
            items.last().get("initializer"@),
            src,
            visited_initializers(items.drop_last(), src, s),
        )
    }
}

/// The expressions inside a pattern that declares names: defaults, computed
/// keys and decorators.
pub open spec fn visited_binding(n: JsonView, src: Seq<char>, s: StateView) -> StateView
    decreases n.size(), 1int,
{
    if n is Null {
        s
    } else {
        let d = visited_items(n.get("decorators"@).items(), src, s);
        if n.is_kind("AssignmentPattern"@) {
            visited(n.get("right"@), src, visited_binding(n.get("left"@), src, d))
        } else if n.is_kind("ObjectPattern"@) {
            visited_bindings(n.get("properties"@).items(), src, d)
        } else if n.is_kind("ArrayPattern"@) {
            visited_bindings(n.get("elements"@).items(), src, d)
        } else if n.is_kind("Property"@) {
            visited_binding(
                n.get("value"@),
                src,
                if n.get("computed"@).is_true() {
                    visited(n.get("key"@), src, d)
                } else {
                    d
                },
            )
        } else if n.is_kind("RestElement"@) {
            visited_binding(n.get("argument"@), src, d)
        } else if n.is_kind("TSParameterProperty"@) {
            visited_binding(n.get("parameter"@), src, d)
        } else {
            d
        }
    }
}

pub open spec fn visited_bindings(items: Seq<JsonView>, src: Seq<char>, s: StateView) -> StateView
    decreases items_size(items), 0int,
{
    if items.len() == 0 {
        s
    } else {
        visited_binding(items.last(), src, visited_bindings(items.drop_last(), src, s))
    }
}

/// A function. The name of a nested declaration lives in the enclosing scope,
/// that of a function expression inside the function only.
pub open spec fn visited_function(n: JsonView, src: Seq<char>, s: StateView) -> StateView
    decreases n.size(), 2int,
{
    let id = n.get("id"@);
    let is_decl = n.is_kind("FunctionDeclaration"@);
    let outside = if is_decl && s.names.scopes.len() > 1 && !(id is Null) {
        s.bound(id.name(), BindingView::LocalOther)
    } else {
        s
    };
    let scope = function_scope(n, src, outside.names.shadows);
    let entered = outside.pushed(scope.values, scope.types);
    let inside = if !is_decl && !(id is Null) {
        entered.bound(id.name(), BindingView::LocalOther)
    } else {
        entered
    };
    if n is Null {
        s
    } else {
        visited(
            n.get("body"@),
            src,
            visited_bindings(n.get("params"@).items(), src, inside),
        ).popped()
    }
}

/// With the names that a declarator declares. Those of the module level are
/// bound beforehand.
pub open spec fn with_declared(
    d: JsonView,
    is_const: bool,
    src: Seq<char>,
    s: StateView,
) -> StateView {
    let id = d.get("id"@);
    if id.is_kind("Identifier"@) {
        if s.names.scopes.len() > 1 {
            s.bound(
                id.name(),
                safe_binding(variable_binding(d, is_const, false, src), s.names.shadows),
            )
        } else {
            s
        }
    } else {
        s.top(with_names(id, s.names.scopes.last()))
    }
}

/// Declared variables.
pub open spec fn visited_declarators(
    items: Seq<JsonView>,
    is_const: bool,
    src: Seq<char>,
    s: StateView,
) -> StateView
    decreases items_size(items), 0int,
{
    if items.len() == 0 {
        s
    } else {
        let before = visited_declarators(items.drop_last(), is_const, src, s);
        let d = items.last();
        let named = with_declared(d, is_const, src, before);
        visited(d.get("init"@), src, visited_binding(d.get("id"@), src, named))
    }
}

/// A call: of a name, of a member, or of anything else.
pub open spec fn visited_call(n: JsonView, src: Seq<char>, s: StateView) -> StateView
    decreases n.size(), 2int,
{
    if n is Null {
        s
    } else {
        let callee = n.get("callee"@);
        let items = n.get("arguments"@).items();
        let args = observed_args(items, src, s.names);
        let line = n.start_line(src);
        let called = if callee.is_kind("Identifier"@) {
            called_name(callee.name(), args, line, s)
        } else if is_static_member(callee) {
            if callee.get("object"@).is_kind("Identifier"@) {
                called_member(
                    callee.get("object"@).name(),
                    callee.get("property"@).name(),
                    args,
                    line,
                    s,
                )
            } else {
                visited(
                    callee.get("object"@),
                    src,
                    s.escape_member(callee.get("property"@).name()),
                )
            }
        } else {
            visited(callee, src, s)
        };
        match array_callback(n, called) {
            Some((t, shape)) => visited_args(items, true, src, called.call(t, shape, line)),
            None => visited_args(items, false, src, called),
        }
    }
}

/// A call of a name.
pub open spec fn called_name(name: Seq<char>, args: ArgsView, line: u32, s: StateView) -> StateView {
    match callee_target(s.lookup(name), name) {
        Some(t) => s.call(t, args, line),
        None => match s.lookup(name) {
            // Calling the namespace object itself is no member call.
            Some(BindingView::Namespace) => s.escape(
                TargetView::AllExportsOfModule { ns_local: name },
            ),
            // Shadowed, unbound or a plain value: could reach any free
            // function of the name.
            _ => s.escape(TargetView::AnyFreeNamed(name)),
        },
    }
}

/// A call of a member of a name.
pub open spec fn called_member(
    obj: Seq<char>,
    name: Seq<char>,
    args: ArgsView,
    line: u32,
    s: StateView,
) -> StateView {
    match s.lookup(obj) {
        Some(BindingView::ObjectConst) => s.call(
            TargetView::Local { owner: OwnerView::ObjectConst(obj), name },
            args,
            line,
        ),
        Some(BindingView::Instance(c)) => s.call(
            TargetView::Local { owner: OwnerView::Class(c), name },
            args,
            line,
        ),
        Some(BindingView::Namespace) => s.call(
            TargetView::NamespaceMember { ns_local: obj, name },
            args,
            line,
        ),
        Some(BindingView::EnumDecl) => s,
        // A function used as an object, as in `send.call(...)`.
        Some(BindingView::Fn) => s.escape_use(obj).escape(TargetView::AnyMethodNamed(name)),
        // What was imported may be an object that stands for a module.
        Some(BindingView::Import) => s.escape_use(obj).escape_member(name),
        _ => s.escape_member(name),
    }
}

/// The arguments of a call, without a first one that has been dealt with.
pub open spec fn visited_args(
    items: Seq<JsonView>,
    skip_first: bool,
    src: Seq<char>,
    s: StateView,
) -> StateView
    decreases items_size(items), 0int,
{
    if items.len() == 0 || (skip_first && items.len() == 1) {
        s
    } else {
        visited(items.last(), src, visited_args(items.drop_last(), skip_first, src, s))
    }
}

/// A member that is not called.
pub open spec fn visited_member(n: JsonView, src: Seq<char>, s: StateView) -> StateView
    decreases n.size(), 2int,
{
    let obj = n.get("object"@);
    let name = n.get("property"@).name();
    if n is Null {
        s
    } else if obj.is_kind("Identifier"@) {
        match s.lookup(obj.name()) {
            Some(BindingView::Fn) => s.escape_use(obj.name()),
            Some(BindingView::Import) => s.escape_use(obj.name()).escape_member(name),
            Some(BindingView::Namespace) => s.escape_use(obj.name()),
            Some(BindingView::ObjectConst) => s.escape(
                TargetView::Local { owner: OwnerView::ObjectConst(obj.name()), name },
            ),
            Some(BindingView::Instance(c)) => s.escape(
                TargetView::Local { owner: OwnerView::Class(c), name },
            ),
            Some(BindingView::EnumDecl) => s,
            _ => s.escape_member(name),
        }
    } else {
        visited(obj, src, s.escape_member(name))
    }
}

/// An element: its tag, its attributes, its children.
pub open spec fn visited_element(n: JsonView, src: Seq<char>, s: StateView) -> StateView
    decreases n.size(), 2int,
{
    let opening = n.get("openingElement"@);
    let children = n.get("children"@).items();
    if n is Null {
        s
    } else {
        visited_items(
            children,
            src,
            visited_attributes(
                opening.get("attributes"@).items(),
                is_intrinsic(opening.get("name"@)),
                src,
                visited_tag(opening, children.len() > 0, src, s),
            ),
        )
    }
}

pub open spec fn visited_attributes(
    items: Seq<JsonView>,
    intrinsic: bool,
    src: Seq<char>,
    s: StateView,
) -> StateView
    decreases items_size(items), 0int,
{
    if items.len() == 0 {
        s
    } else {
        let before = visited_attributes(items.drop_last(), intrinsic, src, s);
        let a = items.last();
        let handler = event_handler(a, before);
        if intrinsic && handler is Some {
            before.call(
                handler->0,
                ArgsView::Args(seq![ObservedView::Opaque]),
                a.start_line(src),
            )
        } else if a.is_kind("JSXAttribute"@) {
            visited(a.get("value"@), src, before)
        } else {
            visited(a.get("argument"@), src, before)
        }
    }
}

// ---------------------------------------------------------------------------
// Execution
// ---------------------------------------------------------------------------

fn ignored(n: &Json) -> (r: bool)
    ensures
        r == is_ignored(n@),
{
    n.is_kind("TSTypeAliasDeclaration") || n.is_kind("TSInterfaceDeclaration") || n.is_kind(
        "ImportDeclaration",
    ) || n.is_kind("ExportAllDeclaration") || n.is_kind("JSXClosingElement") || n.is_kind(
        "MetaProperty",
    ) || n.is_kind("TSIndexSignature")
}

fn ignored_field(name: &str, computed: bool) -> (r: bool)
    ensures
        r == is_ignored_field(name@, computed),
{
    same_text(name, "typeAnnotation") || same_text(name, "returnType") || same_text(
        name,
        "typeParameters",
    ) || same_text(name, "typeArguments") || same_text(name, "superTypeArguments") || same_text(
        name,
        "id",
    ) || same_text(name, "label") || (same_text(name, "key") && !computed)
}

fn function_node(n: &Json) -> (r: bool)
    ensures
        r == is_function(n@),
{
    n.is_kind("FunctionDeclaration") || n.is_kind("FunctionExpression") || n.is_kind(
        "ArrowFunctionExpression",
    ) || n.is_kind("TSDeclareFunction") || n.is_kind("TSEmptyBodyFunctionExpression")
}

fn root_of(e: &Json) -> (r: String)
    ensures
        r@ == root_name(e@),
    decreases e@.size(),
{
    if e.is_null() {
        String::new()
    } else if e.is_kind("Identifier") {
        e.name()
    } else if e.is_kind("MemberExpression") {
        root_of(e.get("object"))
    } else {
        root_of(e.get("left"))
    }
}

fn literal_member_of(n: &Json) -> (r: Option<String>)
    ensures
        opt_text(r) == literal_member(n@),
{
    if n.is_kind("MemberExpression") && n.get("computed").is_true() {
        string_literal(n.get("property"))
    } else {
        None
    }
}

fn opaque_args(n: usize, index: usize) -> (r: Vec<Observed>)
    ensures
        views(r@) == Seq::new(
            n as nat,
            |i: int|
                if i == index {
                    ObservedView::Typed(TypeExprView::Num)
                } else {
                    ObservedView::Opaque
                },
        ),
{
    let mut out: Vec<Observed> = Vec::new();
    let mut i: usize = 0;
    while i < n
        invariant
            i <= n,
            out@.len() == i,
            forall|j: int|
                0 <= j < i ==> (#[trigger] out@[j])@ == (if j == index {
                    ObservedView::Typed(TypeExprView::Num)
                } else {
                    ObservedView::Opaque
                }),
        decreases n - i,
    {
        out.push(
            if i == index {
                Observed::Typed(TypeExpr::Num)
            } else {
                Observed::Opaque
            },
        );
        i += 1;
    }
    assert(views(out@) =~= Seq::new(
        n as nat,
        |i: int|
            if i == index {
                ObservedView::Typed(TypeExprView::Num)
            } else {
                ObservedView::Opaque
            },
    ));
    out
}

fn shape_of(method: &str) -> (r: Option<Vec<Observed>>)
    ensures
        (match r {
            Some(args) => callback_shape(method@) == Some(views(args@)),
            None => callback_shape(method@) is None,
        }),
{
    let ghost any = ObservedView::Opaque;
    let ghost index = ObservedView::Typed(TypeExprView::Num);
    if same_text(method, "map") || same_text(method, "filter") || same_text(method, "forEach")
        || same_text(method, "some") || same_text(method, "every") || same_text(method, "find")
        || same_text(method, "findIndex") || same_text(method, "findLast") || same_text(
        method,
        "findLastIndex",
    ) || same_text(method, "flatMap") {
        let args = opaque_args(3, 1);
        assert(views(args@) =~= seq![any, index, any]);
        Some(args)
    } else if same_text(method, "sort") || same_text(method, "toSorted") {
        let args = opaque_args(2, 2);
        assert(views(args@) =~= seq![any, any]);
        Some(args)
    } else if same_text(method, "reduce") || same_text(method, "reduceRight") {
        let args = opaque_args(4, 2);
        assert(views(args@) =~= seq![any, any, index, any]);
        Some(args)
    } else {
        None
    }
}

fn array_method(method: &str) -> (r: bool)
    ensures
        r == gives_array(method@),
{
    same_text(method, "map") || same_text(method, "filter") || same_text(method, "flatMap")
        || same_text(method, "slice") || same_text(method, "concat") || same_text(method, "flat")
        || same_text(method, "reverse") || same_text(method, "toReversed") || same_text(
        method,
        "sort",
    ) || same_text(method, "toSorted")
}

fn array_value(e: &Json) -> (r: bool)
    ensures
        r == is_array_value(e@),
    decreases e@.size(),
{
    if e.is_null() {
        false
    } else if e.is_kind("ArrayExpression") {
        true
    } else if e.is_kind("ParenthesizedExpression") || e.is_kind("TSNonNullExpression") {
        array_value(e.get("expression"))
    } else if e.is_kind("CallExpression") {
        let callee = e.get("callee");
        static_member(callee) && array_method(callee.get("property").get("name").text())
            && array_value(callee.get("object"))
    } else {
        false
    }
}

fn component_name(name: &str) -> (r: bool)
    ensures
        r == is_component_name(name@),
{
    let c = chars_of(name);
    if c.len() == 0 || ('a' <= c[0] && c[0] <= 'z') {
        return false;
    }
    let mut i: usize = 0;
    while i < c.len()
        invariant
            c@ == name@,
            i <= c@.len(),
            forall|j: int| 0 <= j < i ==> c@[j] != '-',
        decreases c@.len() - i,
    {
        if c[i] == '-' {
            assert(name@[i as int] == '-');
            return false;
        }
        i += 1;
    }
    true
}

/// The call target that a binding stands for.
fn target_of(b: Option<&Binding>, name: &str) -> (r: Option<UsageTargetRef>)
    ensures
        (match r {
            Some(t) => callee_target(crate::observe::opt_binding(b), name@) == Some(t@),
            None => callee_target(crate::observe::opt_binding(b), name@) is None,
        }),
{
    match b {
        Some(Binding::Fn) => Some(
            UsageTargetRef::Local { owner: Owner::Free, name: name.to_owned() },
        ),
        Some(Binding::Import) => Some(UsageTargetRef::Imported { local: name.to_owned() }),
        _ => None,
    }
}

/// Whether two states are in as many scopes.
pub open spec fn same_depth(a: StateView, b: StateView) -> bool {
    a.names.scopes.len() == b.names.scopes.len() && a.names.shadows.len() == b.names.shadows.len()
}

impl UsageVisitor {
    /// Whether the visitor stands in some scope.
    pub open spec fn ready(&self) -> bool {
        self.well_formed() && self@.names.scopes.len() > 0 && self@.names.shadows.len() > 0
    }

    fn attribute_to_observed(&self, a: &Json, src: &Source) -> (r: Observed)
        requires
            src.well_formed(),
        ensures
            r@ == attribute_value(a@, src@, self@.names),
    {
        let v = a.get("value");
        if v.is_null() {
            Observed::BoolLit(true)
        } else if v.is_kind("JSXExpressionContainer") {
            self.observe(v.get("expression"), src)
        } else {
            match simple_literal(v) {
                Some(Observed::StrLit(s)) => Observed::StrLit(s),
                _ => Observed::Opaque,
            }
        }
    }

    fn component_args(&self, list: &Json, has_children: bool, src: &Source) -> (r: CallArgs)
        requires
            src.well_formed(),
        ensures
            r@ == component_args(list@.items(), has_children, src@, self@.names),
    {
        let ghost all = list@.items();
        let ghost names = self@.names;
        let mut props: Vec<(String, Observed)> = Vec::new();
        let ghost extra = if has_children {
            seq![("children"@, ObservedView::Opaque)]
        } else {
            Seq::empty()
        };
        if has_children {
            props.push((String::from_str("children"), Observed::Opaque));
        }
        assert(views(props@) =~= extra);
        let total: usize = list.count();
        let mut i: usize = 0;
        proof {
            assert(attribute_props(all.take(0), src@, names) == Some(
                Seq::<(Seq<char>, ObservedView)>::empty(),
            ));
            assert(views(props@) =~= extra + Seq::<(Seq<char>, ObservedView)>::empty());
        }
        while i < total
            invariant
                src.well_formed(),
                all == list@.items(),
                names == self@.names,
                total == all.len(),
                i <= total,
                attribute_props(all.take(i as int), src@, names) is Some,
                views(props@) == extra + attribute_props(all.take(i as int), src@, names)->0,
            decreases total - i,
        {
            let a = list.at(i);
            proof {
                assert(all.take(i + 1).drop_last() =~= all.take(i as int));
                assert(all.take(i + 1).last() == a@);
                if attribute_props(all.take(i + 1), src@, names) is None {
                    lemma_attributes_fail(all, src@, names, i + 1);
                }
            }
            if !a.is_kind("JSXAttribute") || !a.get("name").is_kind("JSXIdentifier") {
                return CallArgs::Opaque;
            }
            let entry = (a.get("name").name(), self.attribute_to_observed(a, src));
            let ghost before = views(props@);
            props.push(entry);
            proof {
                assert(views(props@) =~= before.push(entry@));
                assert(views(props@) =~= extra + attribute_props(all.take(i + 1), src@, names)->0);
            }
            i += 1;
        }
        assert(all.take(i as int) =~= all);
        let mut args: Vec<Observed> = Vec::new();
        let object = Observed::Object(props);
        args.push(object);
        proof {
            let found = attribute_props(all, src@, names)->0;
            assert(extra + found =~= (if has_children {
                seq![("children"@, ObservedView::Opaque)] + found
            } else {
                found
            }));
            assert(views(args@) =~= seq![object@]);
        }
        CallArgs::Args(args)
    }

    fn visit_tag_object(&mut self, o: &Json)
        requires
            old(self).ready(),
        ensures
            final(self).ready(),
            final(self)@ == visited_tag_object(o@, old(self)@),
            same_depth(final(self)@, old(self)@),
        decreases o@.size(),
    {
        if o.is_null() {
        } else if o.is_kind("JSXMemberExpression") {
            self.escape_member(o.get("property").name());
            self.visit_tag_object(o.get("object"));
        } else {
            self.escape_identifier_use(o.get("name").text());
        }
    }

    fn visit_tag(&mut self, opening: &Json, has_children: bool, src: &Source)
        requires
            src.well_formed(),
            old(self).ready(),
        ensures
            final(self).ready(),
            final(self)@ == visited_tag(opening@, has_children, src@, old(self)@),
            same_depth(final(self)@, old(self)@),
    {
        let tag = opening.get("name");
        let name = tag.name();
        if tag.is_kind("JSXIdentifier") && component_name(name.as_str()) {
            match target_of(self.lookup(name.as_str()), name.as_str()) {
                Some(t) => {
                    let args = self.component_args(opening.get("attributes"), has_children, src);
                    self.call(t, args, opening.start_line(src));
                },
                None => {
                    let t = match self.lookup(name.as_str()) {
                        Some(Binding::ClassDecl) => UsageTargetRef::AllMembersOf(
                            Owner::Class(name),
                        ),
                        Some(Binding::Namespace) => UsageTargetRef::AllExportsOfModule {
                            ns_local: name,
                        },
                        _ => UsageTargetRef::AnyFreeNamed(name),
                    };
                    self.escape(t);
                },
            }
        } else if tag.is_kind("JSXMemberExpression") {
            self.visit_tag_object(tag);
        }
    }

    fn handler_of(&self, a: &Json) -> (r: Option<UsageTargetRef>)
        ensures
            (match r {
                Some(t) => event_handler(a@, self@) == Some(t@),
                None => event_handler(a@, self@) is None,
            }),
    {
        let e = a.get("value").get("expression");
        if a.is_kind("JSXAttribute") && a.get("name").is_kind("JSXIdentifier") && has_prefix(
            a.get("name").get("name").text(),
            "on",
        ) && a.get("value").is_kind("JSXExpressionContainer") && e.is_kind("Identifier") {
            let name = e.get("name").text();
            target_of(self.lookup(name), name)
        } else {
            None
        }
    }

    fn callback_of(&self, n: &Json) -> (r: Option<(UsageTargetRef, CallArgs)>)
        ensures
            (match r {
                Some((t, args)) => array_callback(n@, self@) == Some((t@, args@)),
                None => array_callback(n@, self@) is None,
            }),
    {
        let callee = n.get("callee");
        let args = n.get("arguments");
        if !static_member(callee) || !array_value(callee.get("object")) || args.count() == 0 {
            return None;
        }
        let first = args.at(0);
        if !first.is_kind("Identifier") {
            return None;
        }
        let name = first.get("name").text();
        match (
            shape_of(callee.get("property").get("name").text()),
            target_of(self.lookup(name), name),
        ) {
            (Some(shape), Some(t)) => Some((t, CallArgs::Args(shape))),
            _ => None,
        }
    }

    fn call_name(&mut self, name: String, args: CallArgs, line: u32)
        requires
            old(self).ready(),
        ensures
            final(self).ready(),
            final(self)@ == called_name(name@, args@, line, old(self)@),
            same_depth(final(self)@, old(self)@),
    {
        match target_of(self.lookup(name.as_str()), name.as_str()) {
            Some(t) => self.call(t, args, line),
            None => {
                let t = match self.lookup(name.as_str()) {
                    Some(Binding::Namespace) => UsageTargetRef::AllExportsOfModule {
                        ns_local: name,
                    },
                    _ => UsageTargetRef::AnyFreeNamed(name),
                };
                self.escape(t);
            },
        }
    }

    fn call_member(&mut self, obj: String, name: String, args: CallArgs, line: u32)
        requires
            old(self).ready(),
        ensures
            final(self).ready(),
            final(self)@ == called_member(obj@, name@, args@, line, old(self)@),
            same_depth(final(self)@, old(self)@),
    {
        let t = match self.lookup(obj.as_str()) {
            Some(Binding::ObjectConst) => UsageTargetRef::Local {
                owner: Owner::ObjectConst(obj),
                name,
            },
            Some(Binding::Instance(c)) => UsageTargetRef::Local {
                owner: Owner::Class(c.clone()),
                name,
            },
            Some(Binding::Namespace) => UsageTargetRef::NamespaceMember { ns_local: obj, name },
            Some(Binding::EnumDecl) => return ,
            Some(Binding::Fn) => {
                self.escape_identifier_use(obj.as_str());
                self.escape(UsageTargetRef::AnyMethodNamed(name));
                return ;
            },
            Some(Binding::Import) => {
                self.escape_identifier_use(obj.as_str());
                self.escape_member(name);
                return ;
            },
            _ => {
                self.escape_member(name);
                return ;
            },
        };
        self.call(t, args, line);
    }

    /// Collects the usages in a node.
    pub fn visit(&mut self, n: &Json, src: &Source)
        requires
            src.well_formed(),
            old(self).ready(),
        ensures
            final(self).ready(),
            final(self)@ == visited(n@, src@, old(self)@),
            same_depth(final(self)@, old(self)@),
        decreases n@.size(), 3int,
    {
        match n {
            Json::Array(_) => {
                self.visit_items(n, src);
                return ;
            },
            Json::Object(_) => {},
            _ => return ,
        }
        if ignored(n) {
            return ;
        }
        if n.is_kind("Identifier") {
            self.escape_identifier_use(n.get("name").text());
        } else if n.is_kind("ExportNamedDeclaration") {
            self.visit(n.get("declaration"), src);
        } else if n.is_kind("ExportDefaultDeclaration") {
            if !n.get("declaration").is_kind("Identifier") {
                self.visit(n.get("declaration"), src);
            }
        } else if n.is_kind("TSEnumDeclaration") {
            self.visit_initializers(n.get("body").get("members"), src);
        } else if n.is_kind("TSQualifiedName") {
            self.visit(n.get("left"), src);
        } else if n.is_kind("TSClassImplements") {
            let root = root_of(n.get("expression"));
            self.escape_identifier_use(root.as_str());
        } else if function_node(n) {
            self.visit_function(n, src);
        } else if n.is_kind("VariableDeclaration") {
            let is_const = same_text(n.get("kind").text(), "const");
            self.visit_declarators(n.get("declarations"), is_const, src);
        } else if n.is_kind("CatchClause") {
            self.visit_binding(n.get("param"), src);
            self.visit(n.get("body"), src);
        } else if n.is_kind("CallExpression") {
            self.visit_call_expression(n, src);
        } else if n.is_kind("NewExpression") {
            if !n.get("callee").is_kind("Identifier") {
                self.visit(n.get("callee"), src);
            }
            self.visit_items(n.get("arguments"), src);
        } else if static_member(n) {
            self.visit_static_member_expression(n, src);
        } else if n.is_kind("JSXElement") {
            self.visit_jsx_element(n, src);
        } else if let Some(key) = literal_member_of(n) {
            self.escape_member(key);
            self.visit(n.get("object"), src);
        } else {
            self.visit_fields(n, src);
        }
    }

    fn visit_items(&mut self, list: &Json, src: &Source)
        requires
            src.well_formed(),
            old(self).ready(),
        ensures
            final(self).ready(),
            final(self)@ == visited_items(list@.items(), src@, old(self)@),
            same_depth(final(self)@, old(self)@),
        decreases list@.size(), 0int,
    {
        let ghost all = list@.items();
        let ghost start = self@;
        let total: usize = list.count();
        let mut i: usize = 0;
        while i < total
            invariant
                src.well_formed(),
                self.ready(),
                all == list@.items(),
                total == all.len(),
                i <= total,
                self@ == visited_items(all.take(i as int), src@, start),
                same_depth(self@, start),
            decreases total - i,
        {
            self.visit(list.at(i), src);
            proof {
                assert(all.take(i + 1).drop_last() =~= all.take(i as int));
                assert(all.take(i + 1).last() == all[i as int]);
            }
            i += 1;
        }
        assert(all.take(i as int) =~= all);
    }

    fn visit_fields(&mut self, n: &Json, src: &Source)
        requires
            src.well_formed(),
            old(self).ready(),
        ensures
            final(self).ready(),
            final(self)@ == visited_fields(
                n@.fields(),
                n@.get("computed"@).is_true(),
                src@,
                old(self)@,
            ),
            same_depth(final(self)@, old(self)@),
        decreases n@.size(), 2int,
    {
        let computed = n.get("computed").is_true();
        match n {
            Json::Object(fields) => {
                let ghost all = views(fields@);
                let ghost start = self@;
                assert(n@ == JsonView::Object(all));
                let mut i: usize = 0;
                while i < fields.len()
                    invariant
                        src.well_formed(),
                        self.ready(),
                        all == views(fields@),
                        n@ == JsonView::Object(all),
                        i <= fields@.len(),
                        self@ == visited_fields(all.take(i as int), computed, src@, start),
                        same_depth(self@, start),
                    decreases fields@.len() - i,
                {
                    proof {
                        assert(all.take(i + 1).drop_last() =~= all.take(i as int));
                        assert(all.take(i + 1)[i as int] == fields@[i as int]@);
                        assert(n@.fields()[i as int] == fields@[i as int]@);
                    }
                    if !ignored_field(fields[i].0.as_str(), computed) {
                        self.visit(&fields[i].1, src);
                    }
                    i += 1;
                }
                assert(all.take(i as int) =~= all);
            },
            _ => {},
        }
    }

    fn visit_initializers(&mut self, list: &Json, src: &Source)
        requires
            src.well_formed(),
            old(self).ready(),
        ensures
            final(self).ready(),
            final(self)@ == visited_initializers(list@.items(), src@, old(self)@),
            same_depth(final(self)@, old(self)@),
        decreases list@.size(), 0int,
    {
        let ghost all = list@.items();
        let ghost start = self@;
        let total: usize = list.count();
        let mut i: usize = 0;
        while i < total
            invariant
                src.well_formed(),
                self.ready(),
                all == list@.items(),
                total == all.len(),
                i <= total,
                self@ == visited_initializers(all.take(i as int), src@, start),
                same_depth(self@, start),
            decreases total - i,
        {
            self.visit(list.at(i).get("initializer"), src);
            proof {
                assert(all.take(i + 1).drop_last() =~= all.take(i as int));
                assert(all.take(i + 1).last() == all[i as int]);
            }
            i += 1;
        }
        assert(all.take(i as int) =~= all);
    }

    fn visit_binding(&mut self, n: &Json, src: &Source)
        requires
            src.well_formed(),
            old(self).ready(),
        ensures
            final(self).ready(),
            final(self)@ == visited_binding(n@, src@, old(self)@),
            same_depth(final(self)@, old(self)@),
        decreases n@.size(), 1int,
    {
        if n.is_null() {
            return ;
        }
        self.visit_items(n.get("decorators"), src);
        if n.is_kind("AssignmentPattern") {
            self.visit_binding(n.get("left"), src);
            self.visit(n.get("right"), src);
        } else if n.is_kind("ObjectPattern") {
            self.visit_bindings(n.get("properties"), src);
        } else if n.is_kind("ArrayPattern") {
            self.visit_bindings(n.get("elements"), src);
        } else if n.is_kind("Property") {
            if n.get("computed").is_true() {
                self.visit(n.get("key"), src);
            }
            self.visit_binding(n.get("value"), src);
        } else if n.is_kind("RestElement") {
            self.visit_binding(n.get("argument"), src);
        } else if n.is_kind("TSParameterProperty") {
            self.visit_binding(n.get("parameter"), src);
        }
    }

    fn visit_bindings(&mut self, list: &Json, src: &Source)
        requires
            src.well_formed(),
            old(self).ready(),
        ensures
            final(self).ready(),
            final(self)@ == visited_bindings(list@.items(), src@, old(self)@),
            same_depth(final(self)@, old(self)@),
        decreases list@.size(), 0int,
    {
        let ghost all = list@.items();
        let ghost start = self@;
        let total: usize = list.count();
        let mut i: usize = 0;
        while i < total
            invariant
                src.well_formed(),
                self.ready(),
                all == list@.items(),
                total == all.len(),
                i <= total,
                self@ == visited_bindings(all.take(i as int), src@, start),
                same_depth(self@, start),
            decreases total - i,
        {
            self.visit_binding(list.at(i), src);
            proof {
                assert(all.take(i + 1).drop_last() =~= all.take(i as int));
                assert(all.take(i + 1).last() == all[i as int]);
            }
            i += 1;
        }
        assert(all.take(i as int) =~= all);
    }

    fn visit_function(&mut self, n: &Json, src: &Source)
        requires
            src.well_formed(),
            old(self).ready(),
            !(n@ is Null),
        ensures
            final(self).ready(),
            final(self)@ == visited_function(n@, src@, old(self)@),
            same_depth(final(self)@, old(self)@),
        decreases n@.size(), 2int,
    {
        let id = n.get("id");
        let is_decl = n.is_kind("FunctionDeclaration");
        if is_decl && self.in_function() && !id.is_null() {
            self.bind_here(id.name(), Binding::LocalOther);
        }
        self.push_fn_scope(n, src);
        if !is_decl && !id.is_null() {
            self.bind_here(id.name(), Binding::LocalOther);
        }
        self.visit_bindings(n.get("params"), src);
        self.visit(n.get("body"), src);
        self.pop_fn_scope();
    }

    fn visit_declarators(&mut self, list: &Json, is_const: bool, src: &Source)
        requires
            src.well_formed(),
            old(self).ready(),
        ensures
            final(self).ready(),
            final(self)@ == visited_declarators(list@.items(), is_const, src@, old(self)@),
            same_depth(final(self)@, old(self)@),
        decreases list@.size(), 0int,
    {
        let ghost all = list@.items();
        let ghost start = self@;
        let total: usize = list.count();
        let mut i: usize = 0;
        while i < total
            invariant
                src.well_formed(),
                self.ready(),
                all == list@.items(),
                total == all.len(),
                i <= total,
                self@ == visited_declarators(all.take(i as int), is_const, src@, start),
                same_depth(self@, start),
            decreases total - i,
        {
            let d = list.at(i);
            proof {
                assert(all.take(i + 1).drop_last() =~= all.take(i as int));
                assert(all.take(i + 1).last() == d@);
            }
            let id = d.get("id");
            if id.is_kind("Identifier") {
                if self.in_function() {
                    self.bind_local(d, is_const, src);
                }
            } else {
                self.bind_names_here(id);
            }
            self.visit_binding(id, src);
            self.visit(d.get("init"), src);
            i += 1;
        }
        assert(all.take(i as int) =~= all);
    }

    fn visit_args(&mut self, list: &Json, skip_first: bool, src: &Source)
        requires
            src.well_formed(),
            old(self).ready(),
            skip_first ==> list@.items().len() > 0,
        ensures
            final(self).ready(),
            final(self)@ == visited_args(list@.items(), skip_first, src@, old(self)@),
            same_depth(final(self)@, old(self)@),
        decreases list@.size(), 0int,
    {
        let ghost all = list@.items();
        let ghost start = self@;
        let total: usize = list.count();
        let mut i: usize = if skip_first {
            1
        } else {
            0
        };
        while i < total
            invariant
                src.well_formed(),
                self.ready(),
                all == list@.items(),
                total == all.len(),
                i <= total,
                skip_first ==> i >= 1,
                self@ == visited_args(all.take(i as int), skip_first, src@, start),
                same_depth(self@, start),
            decreases total - i,
        {
            self.visit(list.at(i), src);
            proof {
                assert(all.take(i + 1).drop_last() =~= all.take(i as int));
                assert(all.take(i + 1).last() == all[i as int]);
            }
            i += 1;
        }
        assert(all.take(i as int) =~= all);
    }

    fn visit_call_expression(&mut self, n: &Json, src: &Source)
        requires
            src.well_formed(),
            old(self).ready(),
            !(n@ is Null),
        ensures
            final(self).ready(),
            final(self)@ == visited_call(n@, src@, old(self)@),
            same_depth(final(self)@, old(self)@),
        decreases n@.size(), 2int,
    {
        let callee = n.get("callee");
        let list = n.get("arguments");
        let line: u32 = n.start_line(src);
        if callee.is_kind("Identifier") {
            let args = self.args_of(list, src);
            self.call_name(callee.name(), args, line);
        } else if static_member(callee) {
            let obj = callee.get("object");
            let prop = callee.get("property").name();
            if obj.is_kind("Identifier") {
                let args = self.args_of(list, src);
                self.call_member(obj.name(), prop, args, line);
            } else {
                self.escape_member(prop);
                self.visit(obj, src);
            }
        } else {
            self.visit(callee, src);
        }
        match self.callback_of(n) {
            Some((t, shape)) => {
                self.call(t, shape, line);
                self.visit_args(list, true, src);
            },
            None => self.visit_args(list, false, src),
        }
    }

    fn visit_static_member_expression(&mut self, n: &Json, src: &Source)
        requires
            src.well_formed(),
            old(self).ready(),
            !(n@ is Null),
        ensures
            final(self).ready(),
            final(self)@ == visited_member(n@, src@, old(self)@),
            same_depth(final(self)@, old(self)@),
        decreases n@.size(), 2int,
    {
        let obj = n.get("object");
        let prop = n.get("property").name();
        if !obj.is_kind("Identifier") {
            self.escape_member(prop);
            self.visit(obj, src);
            return ;
        }
        let name = obj.name();
        let t = match self.lookup(name.as_str()) {
            Some(Binding::Fn) => None,
            Some(Binding::Import) => {
                self.escape_identifier_use(name.as_str());
                self.escape_member(prop);
                return ;
            },
            Some(Binding::Namespace) => None,
            Some(Binding::ObjectConst) => Some(
                UsageTargetRef::Local { owner: Owner::ObjectConst(name.clone()), name: prop },
            ),
            Some(Binding::Instance(c)) => Some(
                UsageTargetRef::Local { owner: Owner::Class(c.clone()), name: prop },
            ),
            Some(Binding::EnumDecl) => return ,
            _ => {
                self.escape_member(prop);
                return ;
            },
        };
        match t {
            Some(t) => self.escape(t),
            None => self.escape_identifier_use(name.as_str()),
        }
    }

    fn visit_jsx_element(&mut self, n: &Json, src: &Source)
        requires
            src.well_formed(),
            old(self).ready(),
            !(n@ is Null),
        ensures
            final(self).ready(),
            final(self)@ == visited_element(n@, src@, old(self)@),
            same_depth(final(self)@, old(self)@),
        decreases n@.size(), 2int,
    {
        let opening = n.get("openingElement");
        let children = n.get("children");
        let tag = opening.get("name");
        let intrinsic = tag.is_kind("JSXIdentifier") && !component_name(tag.get("name").text());
        self.visit_tag(opening, children.count() > 0, src);
        self.visit_attributes(opening.get("attributes"), intrinsic, src);
        self.visit_items(children, src);
    }

    fn visit_attributes(&mut self, list: &Json, intrinsic: bool, src: &Source)
        requires
            src.well_formed(),
            old(self).ready(),
        ensures
            final(self).ready(),
            final(self)@ == visited_attributes(list@.items(), intrinsic, src@, old(self)@),
            same_depth(final(self)@, old(self)@),
        decreases list@.size(), 0int,
    {
        let ghost all = list@.items();
        let ghost start = self@;
        let total: usize = list.count();
        let mut i: usize = 0;
        while i < total
            invariant
                src.well_formed(),
                self.ready(),
                all == list@.items(),
                total == all.len(),
                i <= total,
                self@ == visited_attributes(all.take(i as int), intrinsic, src@, start),
                same_depth(self@, start),
            decreases total - i,
        {
            let a = list.at(i);
            proof {
                assert(all.take(i + 1).drop_last() =~= all.take(i as int));
                assert(all.take(i + 1).last() == a@);
            }
            let handler = if intrinsic {
                self.handler_of(a)
            } else {
                None
            };
            match handler {
                Some(t) => {
                    let mut args: Vec<Observed> = Vec::new();
                    args.push(Observed::Opaque);
                    assert(views(args@) =~= seq![ObservedView::Opaque]);
                    self.call(t, CallArgs::Args(args), a.start_line(src));
                },
                None => {
                    if a.is_kind("JSXAttribute") {
                        self.visit(a.get("value"), src);
                    } else {
                        self.visit(a.get("argument"), src);
                    }
                },
            }
            i += 1;
        }
        assert(all.take(i as int) =~= all);
    }
}

proof fn lemma_attributes_fail(items: Seq<JsonView>, src: Seq<char>, names: NamesView, k: int)
    requires
        0 <= k <= items.len(),
        attribute_props(items.take(k), src, names) is None,
    ensures
        attribute_props(items, src, names) is None,
    decreases items.len() - k,
{
    if k == items.len() {
        assert(items.take(k) =~= items);
    } else {
        assert(items.take(k + 1).drop_last() =~= items.take(k));
        lemma_attributes_fail(items, src, names, k + 1);
    }
}

} // verus!

//! The module level of a syntax tree: imports, exports, types, and the
//! functions that can be call targets.

use vstd::hash_set::StringHashSet;
use vstd::prelude::*;
use vstd::string::*;

use crate::annotation::{
    annotation, annotation_of, interface_type, object_type, ts_type_to_expr, type_expr,
};
use crate::json::{Json, JsonView};
use crate::model::{
    map_view, opt_views, views, DeclView, EnumMembers, FnDecl, ImportSource, ImportView, ModuleInfo,
    ModuleView, Owner, OwnerView, ReExport, ReExportView, TypeExpr, TypeExprView,
};
use crate::param::{decl_view, extract_decl};
use crate::scope::{bind, Binding, BindingView, Scope, ScopeMap};
use crate::source::Source;
use crate::specifier::{import_target, resolve_import};
use crate::syntax::{
    export_name, export_name_to_string, literal_value, opt_text, plain_key, plain_key_of,
    simple_literal, string_literal, string_value,
};
use crate::text::same_text;
use crate::workspace::{SpecView, SpecifierMap};

verus! {

broadcast use crate::model::group_model_views;

/// What the resolution of imports depends on.
#[verifier::ext_equal]
pub struct PlaceView {
    /// The path of the module.
    pub path: Seq<char>,
    pub specs: SpecView,
    /// The files that exist.
    pub existing: Set<Seq<char>>,
}

impl PlaceView {
    pub open spec fn resolve(self, spec: Seq<char>) -> Option<Seq<char>> {
        import_target(self.path, spec, self.specs, self.existing)
    }
}

/// What is known of a module while its statements are read.
#[verifier::ext_equal]
pub struct PreView {
    pub info: ModuleView,
    pub scope: ScopeMap,
    /// Local names that are exported.
    pub exported: Set<Seq<char>>,
    /// Functions that have a signature without a body.
    pub bodyless: Set<Seq<char>>,
}

impl PreView {
    pub open spec fn bound(self, name: Seq<char>, b: BindingView) -> PreView {
        PreView { scope: self.scope.insert(name, b), ..self }
    }

    pub open spec fn declared(self, d: DeclView) -> PreView {
        PreView { info: ModuleView { decls: self.info.decls.push(d), ..self.info }, ..self }
    }

    pub open spec fn imported(
        self,
        local: Seq<char>,
        path: Option<Seq<char>>,
        name: Seq<char>,
        b: BindingView,
    ) -> PreView {
        PreView {
            info: ModuleView {
                imports: self.info.imports.insert(local, ImportView { path, name }),
                ..self.info
            },
            ..self
        }.bound(local, b)
    }

    pub open spec fn reexported(
        self,
        exported: Seq<char>,
        path: Option<Seq<char>>,
        name: Seq<char>,
    ) -> PreView {
        PreView {
            info: ModuleView {
                reexports_named: self.info.reexports_named.push(
                    ReExportView { exported, source: ImportView { path, name } },
                ),
                ..self.info
            },
            ..self
        }
    }

    pub open spec fn starred(self, path: Option<Seq<char>>) -> PreView {
        PreView {
            info: ModuleView {
                reexports_star: self.info.reexports_star.push(path),
                ..self.info
            },
            ..self
        }
    }

    pub open spec fn defaulted(self, name: Seq<char>) -> PreView {
        PreView { info: ModuleView { default_export: Some(name), ..self.info }, ..self }
    }

    pub open spec fn exporting(self, name: Seq<char>) -> PreView {
        PreView { exported: self.exported.insert(name), ..self }
    }

    pub open spec fn lacking_body(self, name: Seq<char>) -> PreView {
        PreView { bodyless: self.bodyless.insert(name), ..self }
    }

    pub open spec fn aliased(self, name: Seq<char>, t: TypeExprView) -> PreView {
        PreView {
            info: ModuleView {
                type_aliases: self.info.type_aliases.insert(name, t),
                ..self.info
            },
            ..self
        }
    }

    /// Members of an enum; those of merged declarations come together.
    pub open spec fn enumerated(self, name: Seq<char>, members: Seq<Seq<char>>) -> PreView {
        PreView {
            info: ModuleView {
                enums: self.info.enums.insert(
                    name,
                    (if self.info.enums.contains_key(name) {
                        self.info.enums[name]
                    } else {
                        Seq::empty()
                    }) + members,
                ),
                ..self.info
            },
            ..self
        }
    }
}

/// What is known of a module while its statements are read.
pub struct Pre {
    pub info: ModuleInfo,
    pub scope: Scope,
    pub exported: StringHashSet,
    pub bodyless: StringHashSet,
}

impl View for Pre {
    type V = PreView;

    open spec fn view(&self) -> PreView {
        PreView {
            info: self.info@,
            scope: map_view(self.scope@),
            exported: self.exported@,
            bodyless: self.bodyless@,
        }
    }
}

impl Pre {
    fn bind(&mut self, name: String, b: Binding)
        ensures
            final(self)@ == old(self)@.bound(name@, b@),
    {
        bind(&mut self.scope, name, b);
    }

    fn declare(&mut self, d: FnDecl)
        ensures
            final(self)@ == old(self)@.declared(d@),
    {
        let ghost before = self@;
        self.info.decls.push(d);
        assert(self@ =~= before.declared(d@)) by {
            assert(views(self.info.decls@) =~= before.info.decls.push(d@));
        }
    }

    fn import(&mut self, local: String, path: Option<String>, name: String, b: Binding)
        ensures
            final(self)@ == old(self)@.imported(local@, opt_text(path), name@, b@),
    {
        let ghost before = self@;
        let source = ImportSource { path, name };
        self.info.imports.insert(local.clone(), source);
        assert(self@.info.imports =~= before.info.imports.insert(local@, source@));
        bind(&mut self.scope, local, b);
        assert(self@ =~= before.imported(local@, opt_text(path), name@, b@));
    }

    fn reexport(&mut self, exported: String, path: Option<String>, name: String)
        ensures
            final(self)@ == old(self)@.reexported(exported@, opt_text(path), name@),
    {
        let ghost before = self@;
        let r = ReExport { exported, source: ImportSource { path, name } };
        self.info.reexports_named.push(r);
        assert(self@ =~= before.reexported(exported@, opt_text(path), name@)) by {
            assert(views(self.info.reexports_named@) =~= before.info.reexports_named.push(r@));
        }
    }

    fn star(&mut self, path: Option<String>)
        ensures
            final(self)@ == old(self)@.starred(opt_text(path)),
    {
        let ghost before = self@;
        self.info.reexports_star.push(path);
        assert(self@ =~= before.starred(opt_text(path))) by {
            assert(opt_views(self.info.reexports_star@) =~= before.info.reexports_star.push(
                opt_text(path),
            ));
        }
    }

    fn alias(&mut self, name: String, t: TypeExpr)
        ensures
            final(self)@ == old(self)@.aliased(name@, t@),
    {
        let ghost before = self@;
        self.info.type_aliases.insert(name, t);
        assert(self@ =~= before.aliased(name@, t@)) by {
            assert(self@.info.type_aliases =~= before.info.type_aliases.insert(name@, t@));
        }
    }

    fn enumerate(&mut self, name: String, members: Vec<String>)
        ensures
            final(self)@ == old(self)@.enumerated(name@, views(members@)),
    {
        let ghost before = self@;
        let ghost known = if before.info.enums.contains_key(name@) {
            before.info.enums[name@]
        } else {
            Seq::empty()
        };
        let ghost added = views(members@);
        let mut all: Vec<String> = Vec::new();
        if let Some(e) = self.info.enums.get(name.as_str()) {
            assert(before.info.enums[name@] == e@);
            let mut i: usize = 0;
            while i < e.members.len()
                invariant
                    i <= e.members@.len(),
                    all@.len() == i,
                    forall|j: int| 0 <= j < i ==> all@[j]@ == e.members@[j]@,
                decreases e.members@.len() - i,
            {
                all.push(e.members[i].clone());
                i += 1;
            }
            assert(views(all@) =~= known);
        }
        assert(views(all@) =~= known);
        let mut more = members;
        all.append(&mut more);
        assert(views(all@) =~= known + added);
        let e = EnumMembers { members: all };
        self.info.enums.insert(name, e);
        assert(self@ =~= before.enumerated(name@, added)) by {
            assert(self@.info.enums =~= before.info.enums.insert(name@, e@));
        }
    }
}

// ---------------------------------------------------------------------------
// Types
// ---------------------------------------------------------------------------

/// Generic aliases and duplicate declarations are not modelled.
pub open spec fn with_type_alias(s: PreView, n: JsonView, src: Seq<char>) -> PreView {
    let name = n.get("id"@).name();
    s.aliased(
        name,
        if !(n.get("typeParameters"@) is Null) || s.info.type_aliases.contains_key(name) {
            TypeExprView::Opaque(n.source_text(src))
        } else {
            type_expr(n.get("typeAnnotation"@), src, 0)
        },
    )
}

/// Generic, extended and merged interfaces are not modelled: the combined
/// shape of a second declaration of the same name is unknown.
pub open spec fn with_interface(s: PreView, n: JsonView, src: Seq<char>) -> PreView {
    let name = n.get("id"@).name();
    s.aliased(
        name,
        if !(n.get("typeParameters"@) is Null) || n.get("extends"@).items().len() > 0
            || s.info.type_aliases.contains_key(name) {
            TypeExprView::Opaque(n.source_text(src))
        } else {
            object_type(n.get("body"@).get("body"@).items(), src, 0)
        },
    )
}

/// The name of an enum member that is an identifier or a string.
pub open spec fn member_name(m: JsonView) -> Option<Seq<char>> {
    let id = m.get("id"@);
    if m.get("computed"@).is_true() {
        None
    } else if id.is_kind("Identifier"@) {
        Some(id.name())
    } else {
        string_value(id)
    }
}

pub open spec fn member_names(items: Seq<JsonView>) -> Seq<Seq<char>>
    decreases items.len(),
{
    if items.len() == 0 {
        Seq::empty()
    } else {
        let before = member_names(items.drop_last());
        match member_name(items.last()) {
            Some(name) => before.push(name),
            None => before,
        }
    }
}

pub open spec fn with_enum(s: PreView, n: JsonView) -> PreView {
    let name = n.get("id"@).name();
    s.enumerated(name, member_names(n.get("body"@).get("members"@).items())).bound(
        name,
        BindingView::EnumDecl,
    )
}

fn prepass_type_alias(pre: &mut Pre, n: &Json, src: &Source)
    requires
        src.well_formed(),
    ensures
        final(pre)@ == with_type_alias(old(pre)@, n@, src@),
{
    let name = n.get("id").name();
    let t = if !n.get("typeParameters").is_null() || pre.info.type_aliases.contains_key(
        name.as_str(),
    ) {
        TypeExpr::Opaque(n.source_text(src))
    } else {
        ts_type_to_expr(n.get("typeAnnotation"), src, 0)
    };
    pre.alias(name, t);
}

fn prepass_interface(pre: &mut Pre, n: &Json, src: &Source)
    requires
        src.well_formed(),
    ensures
        final(pre)@ == with_interface(old(pre)@, n@, src@),
{
    let name = n.get("id").name();
    let t = if !n.get("typeParameters").is_null() || n.get("extends").count() > 0
        || pre.info.type_aliases.contains_key(name.as_str()) {
        TypeExpr::Opaque(n.source_text(src))
    } else {
        interface_type(n.get("body").get("body"), src)
    };
    pre.alias(name, t);
}

fn member_name_of(m: &Json) -> (r: Option<String>)
    ensures
        opt_text(r) == member_name(m@),
{
    let id = m.get("id");
    if m.get("computed").is_true() {
        None
    } else if id.is_kind("Identifier") {
        Some(id.name())
    } else {
        string_literal(id)
    }
}

fn prepass_enum(pre: &mut Pre, n: &Json)
    ensures
        final(pre)@ == with_enum(old(pre)@, n@),
{
    let name = n.get("id").name();
    let list = n.get("body").get("members");
    let ghost all = list@.items();
    let mut members: Vec<String> = Vec::new();
    assert(views(members@) =~= member_names(all.take(0)));
    let total: usize = list.count();
    let mut i: usize = 0;
    while i < total
        invariant
            all == list@.items(),
            total == all.len(),
            i <= total,
            views(members@) == member_names(all.take(i as int)),
        decreases total - i,
    {
        proof {
            assert(all.take(i + 1).drop_last() =~= all.take(i as int));
            assert(all.take(i + 1).last() == all[i as int]);
        }
        if let Some(m) = member_name_of(list.at(i)) {
            let ghost before = views(members@);
            members.push(m);
            assert(views(members@) =~= before.push(m@));
        }
        i += 1;
    }
    assert(all.take(i as int) =~= all);
    pre.enumerate(name.clone(), members);
    pre.bind(name, Binding::EnumDecl);
}

// ---------------------------------------------------------------------------
// Functions and classes
// ---------------------------------------------------------------------------

pub open spec fn with_function(s: PreView, f: JsonView, exported: bool, src: Seq<char>) -> PreView {
    if f.get("id"@) is Null {
        s
    } else {
        let name = f.get("id"@).name();
        let b = s.bound(name, BindingView::Fn);
        if f.get("body"@) is Null {
            b.lacking_body(name)
        } else {
            b.declared(decl_view(name, OwnerView::Free, f, f, exported, false, src))
        }
    }
}

/// Whether a class member is a method of an instance with a plain name.
pub open spec fn is_method(m: JsonView) -> bool {
    m.is_kind("MethodDefinition"@) && m.get("kind"@).text() == "method"@ && !m.get(
        "static"@,
    ).is_true() && plain_key(m) is Some
}

/// Whether the class has a signature without a body for the method.
pub open spec fn has_signature(members: Seq<JsonView>, name: Seq<char>) -> bool {
    exists|i: int|
        0 <= i < members.len() && is_method(#[trigger] members[i]) && plain_key(members[i])
            == Some(name) && members[i].get("value"@).get("body"@) is Null
}

/// The methods of the first `k` members of a class.
pub open spec fn with_methods(
    s: PreView,
    class: Seq<char>,
    members: Seq<JsonView>,
    k: int,
    exported: bool,
    src: Seq<char>,
) -> PreView
    decreases k,
{
    if k <= 0 {
        s
    } else {
        let before = with_methods(s, class, members, k - 1, exported, src);
        let m = members[k - 1];
        if is_method(m) && !(m.get("value"@).get("body"@) is Null) {
            let name = plain_key(m)->0;
            before.declared(
                decl_view(
                    name,
                    OwnerView::Class(class),
                    m.get("value"@),
                    m,
                    exported,
                    has_signature(members, name),
                    src,
                ),
            )
        } else {
            before
        }
    }
}

/// Inheritance is not modelled: a call of a method that a class does not have
/// itself reaches every method of that name.
pub open spec fn with_class(s: PreView, c: JsonView, exported: bool, src: Seq<char>) -> PreView {
    if c.get("id"@) is Null {
        s
    } else {
        let name = c.get("id"@).name();
        let members = c.get("body"@).get("body"@).items();
        with_methods(
            s.bound(name, BindingView::ClassDecl),
            name,
            members,
            members.len() as int,
            exported,
            src,
        )
    }
}

fn prepass_function(pre: &mut Pre, f: &Json, exported: bool, src: &Source)
    requires
        src.well_formed(),
    ensures
        final(pre)@ == with_function(old(pre)@, f@, exported, src@),
{
    if f.get("id").is_null() {
        return ;
    }
    let name = f.get("id").name();
    pre.bind(name.clone(), Binding::Fn);
    if f.get("body").is_null() {
        let ghost before = pre@;
        let ghost key = name@;
        let _ = pre.bodyless.insert(name);
        assert(pre@ =~= before.lacking_body(key));
    } else {
        pre.declare(extract_decl(name, Owner::Free, f, f, exported, false, src));
    }
}

fn method(m: &Json) -> (r: bool)
    ensures
        r == is_method(m@),
{
    m.is_kind("MethodDefinition") && same_text(m.get("kind").text(), "method")
        && !m.get("static").is_true() && plain_key_of(m).is_some()
}

fn signature_among(list: &Json, name: &String) -> (r: bool)
    ensures
        r == has_signature(list@.items(), name@),
{
    let ghost all = list@.items();
    let total: usize = list.count();
    let mut i: usize = 0;
    while i < total
        invariant
            all == list@.items(),
            total == all.len(),
            i <= total,
            forall|j: int|
                0 <= j < i ==> !(is_method(#[trigger] all[j]) && plain_key(all[j]) == Some(name@)
                    && all[j].get("value"@).get("body"@) is Null),
        decreases total - i,
    {
        let m = list.at(i);
        if method(m) && m.get("value").get("body").is_null() {
            if let Some(k) = plain_key_of(m) {
                if k == *name {
                    assert(is_method(all[i as int]));
                    return true;
                }
            }
        }
        i += 1;
    }
    false
}

fn prepass_class(pre: &mut Pre, c: &Json, exported: bool, src: &Source)
    requires
        src.well_formed(),
    ensures
        final(pre)@ == with_class(old(pre)@, c@, exported, src@),
{
    if c.get("id").is_null() {
        return ;
    }
    let name = c.get("id").name();
    pre.bind(name.clone(), Binding::ClassDecl);
    let ghost start = pre@;
    let list = c.get("body").get("body");
    let ghost all = list@.items();
    let total: usize = list.count();
    let mut i: usize = 0;
    while i < total
        invariant
            src.well_formed(),
            all == list@.items(),
            total == all.len(),
            i <= total,
            pre@ == with_methods(start, name@, all, i as int, exported, src@),
        decreases total - i,
    {
        let m = list.at(i);
        if method(m) && !m.get("value").get("body").is_null() {
            if let Some(key) = plain_key_of(m) {
                let overloaded = signature_among(list, &key);
                pre.declare(
                    extract_decl(
                        key,
                        Owner::Class(name.clone()),
                        m.get("value"),
                        m,
                        exported,
                        overloaded,
                        src,
                    ),
                );
            }
        }
        i += 1;
    }
}

// ---------------------------------------------------------------------------
// Variables
// ---------------------------------------------------------------------------

pub open spec fn is_function_value(e: JsonView) -> bool {
    e.is_kind("ArrowFunctionExpression"@) || e.is_kind("FunctionExpression"@) || e.is_kind(
        "TSEmptyBodyFunctionExpression"@,
    )
}

/// Whether a property of an object literal is a function with a body.
pub open spec fn is_object_method(p: JsonView) -> bool {
    p.is_kind("Property"@) && plain_key(p) is Some && is_function_value(p.get("value"@)) && !(p.get(
        "value"@,
    ).get("body"@) is Null)
}

pub open spec fn has_object_method(props: Seq<JsonView>) -> bool {
    exists|i: int| 0 <= i < props.len() && is_object_method(#[trigger] props[i])
}

/// What a declared variable is bound to. Only at the module level are
/// functions and the methods of objects call targets.
pub open spec fn variable_binding(
    d: JsonView,
    is_const: bool,
    module_level: bool,
    src: Seq<char>,
) -> BindingView {
    let ann = annotation_of(d.get("id"@), src);
    let init = d.get("init"@);
    if is_function_value(init) {
        if module_level {
            BindingView::Fn
        } else {
            BindingView::LocalOther
        }
    } else if !is_const {
        BindingView::LocalOther
    } else if init.is_kind("ObjectExpression"@) {
        if module_level && has_object_method(init.get("properties"@).items()) {
            BindingView::ObjectConst
        } else {
            BindingView::Const { ann, lit: None }
        }
    } else if init.is_kind("NewExpression"@) {
        if init.get("callee"@).is_kind("Identifier"@) {
            BindingView::Instance(init.get("callee"@).name())
        } else {
            BindingView::LocalOther
        }
    } else if ann is Some || literal_value(init) is Some {
        BindingView::Const { ann, lit: literal_value(init) }
    } else {
        BindingView::LocalOther
    }
}

/// The methods of the first `k` properties of an object literal.
pub open spec fn with_object_methods(
    s: PreView,
    name: Seq<char>,
    props: Seq<JsonView>,
    k: int,
    exported: bool,
    src: Seq<char>,
) -> PreView
    decreases k,
{
    if k <= 0 {
        s
    } else {
        let before = with_object_methods(s, name, props, k - 1, exported, src);
        let p = props[k - 1];
        if is_object_method(p) {
            before.declared(
                decl_view(
                    plain_key(p)->0,
                    OwnerView::ObjectConst(name),
                    p.get("value"@),
                    p,
                    exported,
                    false,
                    src,
                ),
            )
        } else {
            before
        }
    }
}

/// The call targets that a variable of the module level holds.
pub open spec fn with_targets(
    s: PreView,
    d: JsonView,
    is_const: bool,
    exported: bool,
    src: Seq<char>,
) -> PreView {
    let name = d.get("id"@).name();
    let init = d.get("init"@);
    if is_function_value(init) {
        s.declared(
            decl_view(
                name,
                OwnerView::Free,
                init,
                init,
                exported,
                init.get("body"@) is Null,
                src,
            ),
        )
    } else if is_const && init.is_kind("ObjectExpression"@) {
        let props = init.get("properties"@).items();
        with_object_methods(s, name, props, props.len() as int, exported, src)
    } else {
        s
    }
}

/// The specifier of `import("./x")`, `await import("./x")` or `require("./x")`
/// with a literal specifier.
pub open spec fn dynamic_import(init: JsonView) -> Option<Seq<char>> {
    let e = if init.is_kind("AwaitExpression"@) {
        init.get("argument"@)
    } else {
        init
    };
    if e.is_kind("ImportExpression"@) {
        string_value(e.get("source"@))
    } else if e.is_kind("CallExpression"@) && e.get("callee"@).is_kind("Identifier"@) && e.get(
        "callee"@,
    ).name() == "require"@ && e.get("arguments"@).items().len() == 1 {
        string_value(e.get("arguments"@).items()[0])
    } else {
        None
    }
}

pub open spec fn with_variable(
    s: PreView,
    d: JsonView,
    is_const: bool,
    exported: bool,
    src: Seq<char>,
    place: PlaceView,
) -> PreView {
    let id = d.get("id"@);
    if !id.is_kind("Identifier"@) {
        s
    } else {
        match dynamic_import(d.get("init"@)) {
            Some(spec) => s.imported(
                id.name(),
                place.resolve(spec),
                "*"@,
                BindingView::Namespace,
            ),
            None => with_targets(s, d, is_const, exported, src).bound(
                id.name(),
                variable_binding(d, is_const, true, src),
            ),
        }
    }
}

pub open spec fn with_variables(
    s: PreView,
    items: Seq<JsonView>,
    is_const: bool,
    exported: bool,
    src: Seq<char>,
    place: PlaceView,
) -> PreView
    decreases items.len(),
{
    if items.len() == 0 {
        s
    } else {
        with_variable(
            with_variables(s, items.drop_last(), is_const, exported, src, place),
            items.last(),
            is_const,
            exported,
            src,
            place,
        )
    }
}

fn function_value(e: &Json) -> (r: bool)
    ensures
        r == is_function_value(e@),
{
    e.is_kind("ArrowFunctionExpression") || e.is_kind("FunctionExpression") || e.is_kind(
        "TSEmptyBodyFunctionExpression",
    )
}

fn object_method(p: &Json) -> (r: bool)
    ensures
        r == is_object_method(p@),
{
    p.is_kind("Property") && plain_key_of(p).is_some() && function_value(p.get("value"))
        && !p.get("value").get("body").is_null()
}

fn object_method_among(list: &Json) -> (r: bool)
    ensures
        r == has_object_method(list@.items()),
{
    let ghost all = list@.items();
    let total: usize = list.count();
    let mut i: usize = 0;
    while i < total
        invariant
            all == list@.items(),
            total == all.len(),
            i <= total,
            forall|j: int| 0 <= j < i ==> !is_object_method(#[trigger] all[j]),
        decreases total - i,
    {
        if object_method(list.at(i)) {
            assert(is_object_method(all[i as int]));
            return true;
        }
        i += 1;
    }
    false
}

/// What a declared variable is bound to.
pub fn classify_declarator(d: &Json, is_const: bool, module_level: bool, src: &Source) -> (r:
    Binding)
    requires
        src.well_formed(),
    ensures
        r@ == variable_binding(d@, is_const, module_level, src@),
{
    let ann = annotation(d.get("id"), src);
    let init = d.get("init");
    if function_value(init) {
        if module_level {
            Binding::Fn
        } else {
            Binding::LocalOther
        }
    } else if !is_const {
        Binding::LocalOther
    } else if init.is_kind("ObjectExpression") {
        if module_level && object_method_among(init.get("properties")) {
            Binding::ObjectConst
        } else {
            Binding::Const { ann, lit: None }
        }
    } else if init.is_kind("NewExpression") {
        let callee = init.get("callee");
        if callee.is_kind("Identifier") {
            Binding::Instance(callee.name())
        } else {
            Binding::LocalOther
        }
    } else {
        let lit = simple_literal(init);
        if ann.is_some() || lit.is_some() {
            Binding::Const { ann, lit }
        } else {
            Binding::LocalOther
        }
    }
}

fn declare_targets(pre: &mut Pre, d: &Json, is_const: bool, exported: bool, src: &Source)
    requires
        src.well_formed(),
    ensures
        final(pre)@ == with_targets(old(pre)@, d@, is_const, exported, src@),
{
    let name = d.get("id").name();
    let init = d.get("init");
    if function_value(init) {
        let lacks_body = init.get("body").is_null();
        pre.declare(extract_decl(name, Owner::Free, init, init, exported, lacks_body, src));
    } else if is_const && init.is_kind("ObjectExpression") {
        let ghost start = pre@;
        let list = init.get("properties");
        let ghost all = list@.items();
        let total: usize = list.count();
        let mut i: usize = 0;
        while i < total
            invariant
                src.well_formed(),
                all == list@.items(),
                total == all.len(),
                i <= total,
                pre@ == with_object_methods(start, name@, all, i as int, exported, src@),
            decreases total - i,
        {
            let p = list.at(i);
            if object_method(p) {
                if let Some(key) = plain_key_of(p) {
                    pre.declare(
                        extract_decl(
                            key,
                            Owner::ObjectConst(name.clone()),
                            p.get("value"),
                            p,
                            exported,
                            false,
                            src,
                        ),
                    );
                }
            }
            i += 1;
        }
    }
}

pub fn dynamic_import_specifier(init: &Json) -> (r: Option<String>)
    ensures
        opt_text(r) == dynamic_import(init@),
{
    let e = if init.is_kind("AwaitExpression") {
        init.get("argument")
    } else {
        init
    };
    if e.is_kind("ImportExpression") {
        return string_literal(e.get("source"));
    }
    let args = e.get("arguments");
    if e.is_kind("CallExpression") && e.get("callee").is_kind("Identifier") && e.get(
        "callee",
    ).named("require") && args.count() == 1 {
        return string_literal(args.at(0));
    }
    None
}

/// What the resolution of imports depends on.
pub struct Place<'a> {
    pub path: &'a str,
    pub specs: &'a SpecifierMap,
    pub existing: &'a StringHashSet,
}

impl View for Place<'_> {
    type V = PlaceView;

    open spec fn view(&self) -> PlaceView {
        PlaceView { path: self.path@, specs: self.specs@, existing: self.existing@ }
    }
}

impl<'a> Place<'a> {
    fn resolve(&self, spec: &str) -> (r: Option<String>)
        ensures
            opt_text(r) == self@.resolve(spec@),
    {
        resolve_import(self.path, spec, self.specs, self.existing)
    }
}

fn prepass_var(pre: &mut Pre, n: &Json, exported: bool, src: &Source, place: &Place)
    requires
        src.well_formed(),
    ensures
        final(pre)@ == with_variables(
            old(pre)@,
            n@.get("declarations"@).items(),
            n@.get("kind"@).text() == "const"@,
            exported,
            src@,
            place@,
        ),
{
    let is_const = same_text(n.get("kind").text(), "const");
    let ghost start = pre@;
    let list = n.get("declarations");
    let ghost all = list@.items();
    let total: usize = list.count();
    let mut i: usize = 0;
    while i < total
        invariant
            src.well_formed(),
            all == list@.items(),
            total == all.len(),
            i <= total,
            pre@ == with_variables(start, all.take(i as int), is_const, exported, src@, place@),
        decreases total - i,
    {
        let d = list.at(i);
        proof {
            assert(all.take(i + 1).drop_last() =~= all.take(i as int));
            assert(all.take(i + 1).last() == d@);
        }
        let id = d.get("id");
        if id.is_kind("Identifier") {
            match dynamic_import_specifier(d.get("init")) {
                Some(spec) => {
                    let path = place.resolve(spec.as_str());
                    pre.import(id.name(), path, String::from_str("*"), Binding::Namespace);
                },
                None => {
                    declare_targets(pre, d, is_const, exported, src);
                    pre.bind(id.name(), classify_declarator(d, is_const, true, src));
                },
            }
        }
        i += 1;
    }
    assert(all.take(i as int) =~= all);
}

// ---------------------------------------------------------------------------
// Statements
// ---------------------------------------------------------------------------

pub open spec fn is_function_declaration(n: JsonView) -> bool {
    n.is_kind("FunctionDeclaration"@) || n.is_kind("TSDeclareFunction"@)
}

pub open spec fn with_declaration(
    s: PreView,
    n: JsonView,
    exported: bool,
    src: Seq<char>,
    place: PlaceView,
) -> PreView {
    if n.is_kind("VariableDeclaration"@) {
        with_variables(
            s,
            n.get("declarations"@).items(),
            n.get("kind"@).text() == "const"@,
            exported,
            src,
            place,
        )
    } else if is_function_declaration(n) {
        with_function(s, n, exported, src)
    } else if n.is_kind("ClassDeclaration"@) {
        with_class(s, n, exported, src)
    } else if n.is_kind("TSTypeAliasDeclaration"@) {
        with_type_alias(s, n, src)
    } else if n.is_kind("TSInterfaceDeclaration"@) {
        with_interface(s, n, src)
    } else if n.is_kind("TSEnumDeclaration"@) {
        with_enum(s, n)
    } else {
        s
    }
}

pub open spec fn with_import_specifiers(
    s: PreView,
    items: Seq<JsonView>,
    path: Option<Seq<char>>,
) -> PreView
    decreases items.len(),
{
    if items.len() == 0 {
        s
    } else {
        let before = with_import_specifiers(s, items.drop_last(), path);
        let i = items.last();
        let local = i.get("local"@).name();
        if i.is_kind("ImportSpecifier"@) {
            before.imported(local, path, export_name(i.get("imported"@)), BindingView::Import)
        } else if i.is_kind("ImportDefaultSpecifier"@) {
            before.imported(local, path, "default"@, BindingView::Import)
        } else if i.is_kind("ImportNamespaceSpecifier"@) {
            before.imported(local, path, "*"@, BindingView::Namespace)
        } else {
            before
        }
    }
}

/// `export { a as b } from "./m"`.
pub open spec fn with_reexports(s: PreView, items: Seq<JsonView>, path: Option<Seq<char>>) -> PreView
    decreases items.len(),
{
    if items.len() == 0 {
        s
    } else {
        with_reexports(s, items.drop_last(), path).reexported(
            export_name(items.last().get("exported"@)),
            path,
            export_name(items.last().get("local"@)),
        )
    }
}

/// `export { a as b }`: the local name is exported, and the module offers it
/// under the other name.
pub open spec fn with_exports(s: PreView, items: Seq<JsonView>, path: Seq<char>) -> PreView
    decreases items.len(),
{
    if items.len() == 0 {
        s
    } else {
        let local = export_name(items.last().get("local"@));
        with_exports(s, items.drop_last(), path).exporting(local).reexported(
            export_name(items.last().get("exported"@)),
            Some(path),
            local,
        )
    }
}

/// The effect of `export default`.
pub open spec fn with_default(s: PreView, d: JsonView, src: Seq<char>) -> PreView {
    if d.is_kind("Identifier"@) {
        s.defaulted(d.name()).exporting(d.name())
    } else if is_function_declaration(d) || d.is_kind("ClassDeclaration"@) {
        let after = if d.is_kind("ClassDeclaration"@) {
            with_class(s, d, true, src)
        } else {
            with_function(s, d, true, src)
        };
        if d.get("id"@) is Null {
            after
        } else {
            after.defaulted(d.get("id"@).name())
        }
    } else {
        s
    }
}

pub open spec fn with_statement(
    s: PreView,
    n: JsonView,
    src: Seq<char>,
    place: PlaceView,
) -> PreView {
    let source = n.get("source"@).get("value"@).text();
    if n.is_kind("ImportDeclaration"@) {
        with_import_specifiers(s, n.get("specifiers"@).items(), place.resolve(source))
    } else if n.is_kind("ExportNamedDeclaration"@) {
        let items = n.get("specifiers"@).items();
        let named = if n.get("source"@) is Null {
            with_exports(s, items, place.path)
        } else {
            with_reexports(s, items, place.resolve(source))
        };
        with_declaration(named, n.get("declaration"@), true, src, place)
    } else if n.is_kind("ExportAllDeclaration"@) {
        // `export * as ns` re-exports a namespace object, which leads nowhere.
        s.starred(
            if n.get("exported"@) is Null {
                place.resolve(source)
            } else {
                None
            },
        )
    } else if n.is_kind("ExportDefaultDeclaration"@) {
        with_default(s, n.get("declaration"@), src)
    } else {
        with_declaration(s, n, false, src, place)
    }
}

pub open spec fn with_statements(
    s: PreView,
    items: Seq<JsonView>,
    src: Seq<char>,
    place: PlaceView,
) -> PreView
    decreases items.len(),
{
    if items.len() == 0 {
        s
    } else {
        with_statement(with_statements(s, items.drop_last(), src, place), items.last(), src, place)
    }
}

fn prepass_declaration(pre: &mut Pre, n: &Json, exported: bool, src: &Source, place: &Place)
    requires
        src.well_formed(),
    ensures
        final(pre)@ == with_declaration(old(pre)@, n@, exported, src@, place@),
{
    if n.is_kind("VariableDeclaration") {
        prepass_var(pre, n, exported, src, place);
    } else if n.is_kind("FunctionDeclaration") || n.is_kind("TSDeclareFunction") {
        prepass_function(pre, n, exported, src);
    } else if n.is_kind("ClassDeclaration") {
        prepass_class(pre, n, exported, src);
    } else if n.is_kind("TSTypeAliasDeclaration") {
        prepass_type_alias(pre, n, src);
    } else if n.is_kind("TSInterfaceDeclaration") {
        prepass_interface(pre, n, src);
    } else if n.is_kind("TSEnumDeclaration") {
        prepass_enum(pre, n);
    }
}

fn prepass_imports(pre: &mut Pre, list: &Json, path: &Option<String>)
    ensures
        final(pre)@ == with_import_specifiers(old(pre)@, list@.items(), opt_text(*path)),
{
    let ghost start = pre@;
    let ghost all = list@.items();
    let total: usize = list.count();
    let mut k: usize = 0;
    while k < total
        invariant
            all == list@.items(),
            total == all.len(),
            k <= total,
            pre@ == with_import_specifiers(start, all.take(k as int), opt_text(*path)),
        decreases total - k,
    {
        let i = list.at(k);
        proof {
            assert(all.take(k + 1).drop_last() =~= all.take(k as int));
            assert(all.take(k + 1).last() == i@);
        }
        let local = i.get("local").name();
        if i.is_kind("ImportSpecifier") {
            pre.import(
                local,
                copy_opt(path),
                export_name_to_string(i.get("imported")),
                Binding::Import,
            );
        } else if i.is_kind("ImportDefaultSpecifier") {
            pre.import(local, copy_opt(path), String::from_str("default"), Binding::Import);
        } else if i.is_kind("ImportNamespaceSpecifier") {
            pre.import(local, copy_opt(path), String::from_str("*"), Binding::Namespace);
        }
        k += 1;
    }
    assert(all.take(k as int) =~= all);
}

fn copy_opt(o: &Option<String>) -> (r: Option<String>)
    ensures
        opt_text(r) == opt_text(*o),
{
    match o {
        Some(s) => Some(s.clone()),
        None => None,
    }
}

fn prepass_reexports(pre: &mut Pre, list: &Json, path: &Option<String>)
    ensures
        final(pre)@ == with_reexports(old(pre)@, list@.items(), opt_text(*path)),
{
    let ghost start = pre@;
    let ghost all = list@.items();
    let total: usize = list.count();
    let mut i: usize = 0;
    while i < total
        invariant
            all == list@.items(),
            total == all.len(),
            i <= total,
            pre@ == with_reexports(start, all.take(i as int), opt_text(*path)),
        decreases total - i,
    {
        let x = list.at(i);
        proof {
            assert(all.take(i + 1).drop_last() =~= all.take(i as int));
            assert(all.take(i + 1).last() == x@);
        }
        pre.reexport(
            export_name_to_string(x.get("exported")),
            copy_opt(path),
            export_name_to_string(x.get("local")),
        );
        i += 1;
    }
    assert(all.take(i as int) =~= all);
}

fn prepass_exports(pre: &mut Pre, list: &Json, path: &str)
    ensures
        final(pre)@ == with_exports(old(pre)@, list@.items(), path@),
{
    let ghost start = pre@;
    let ghost all = list@.items();
    let total: usize = list.count();
    let mut i: usize = 0;
    while i < total
        invariant
            all == list@.items(),
            total == all.len(),
            i <= total,
            pre@ == with_exports(start, all.take(i as int), path@),
        decreases total - i,
    {
        let x = list.at(i);
        proof {
            assert(all.take(i + 1).drop_last() =~= all.take(i as int));
            assert(all.take(i + 1).last() == x@);
        }
        let local = export_name_to_string(x.get("local"));
        let ghost before = pre@;
        let _ = pre.exported.insert(local.clone());
        assert(pre@ =~= before.exporting(local@));
        pre.reexport(export_name_to_string(x.get("exported")), Some(path.to_owned()), local);
        i += 1;
    }
    assert(all.take(i as int) =~= all);
}

fn set_default(pre: &mut Pre, name: String)
    ensures
        final(pre)@ == old(pre)@.defaulted(name@),
{
    let ghost before = pre@;
    let ghost key = name@;
    pre.info.default_export = Some(name);
    assert(pre@ =~= before.defaulted(key));
}

fn prepass_default(pre: &mut Pre, d: &Json, src: &Source)
    requires
        src.well_formed(),
    ensures
        final(pre)@ == with_default(old(pre)@, d@, src@),
{
    if d.is_kind("Identifier") {
        set_default(pre, d.name());
        let ghost before = pre@;
        let _ = pre.exported.insert(d.name());
        assert(pre@ =~= before.exporting(d@.name()));
    } else if d.is_kind("FunctionDeclaration") || d.is_kind("TSDeclareFunction") || d.is_kind(
        "ClassDeclaration",
    ) {
        if d.is_kind("ClassDeclaration") {
            prepass_class(pre, d, true, src);
        } else {
            prepass_function(pre, d, true, src);
        }
        if !d.get("id").is_null() {
            set_default(pre, d.get("id").name());
        }
    }
}

fn prepass_stmt(pre: &mut Pre, n: &Json, src: &Source, place: &Place)
    requires
        src.well_formed(),
    ensures
        final(pre)@ == with_statement(old(pre)@, n@, src@, place@),
{
    let source = n.get("source").get("value").text();
    if n.is_kind("ImportDeclaration") {
        let path = place.resolve(source);
        prepass_imports(pre, n.get("specifiers"), &path);
    } else if n.is_kind("ExportNamedDeclaration") {
        if n.get("source").is_null() {
            prepass_exports(pre, n.get("specifiers"), place.path);
        } else {
            let path = place.resolve(source);
            prepass_reexports(pre, n.get("specifiers"), &path);
        }
        prepass_declaration(pre, n.get("declaration"), true, src, place);
    } else if n.is_kind("ExportAllDeclaration") {
        let path = if n.get("exported").is_null() {
            place.resolve(source)
        } else {
            None
        };
        pre.star(path);
    } else if n.is_kind("ExportDefaultDeclaration") {
        prepass_default(pre, n.get("declaration"), src);
    } else {
        prepass_declaration(pre, n, false, src, place);
    }
}

/// Reads the statements of a module.
pub fn prepass(pre: &mut Pre, list: &Json, src: &Source, place: &Place)
    requires
        src.well_formed(),
    ensures
        final(pre)@ == with_statements(old(pre)@, list@.items(), src@, place@),
{
    let ghost start = pre@;
    let ghost all = list@.items();
    let total: usize = list.count();
    let mut i: usize = 0;
    while i < total
        invariant
            src.well_formed(),
            all == list@.items(),
            total == all.len(),
            i <= total,
            pre@ == with_statements(start, all.take(i as int), src@, place@),
        decreases total - i,
    {
        prepass_stmt(pre, list.at(i), src, place);
        proof {
            assert(all.take(i + 1).drop_last() =~= all.take(i as int));
            assert(all.take(i + 1).last() == all[i as int]);
        }
        i += 1;
    }
    assert(all.take(i as int) =~= all);
}

} // verus!

//! The facts extracted from each source file. Nothing here refers to the
//! syntax tree that a file was read from.

use vstd::hash_map::StringHashMap;
use vstd::prelude::*;

verus! {

pub type ModuleId = usize;

/// The views of the elements of a sequence.
pub open spec fn views<T: View>(s: Seq<T>) -> Seq<T::V> {
    Seq::new(s.len(), |i: int| s[i]@)
}

pub open spec fn opt_view<T: View>(o: Option<T>) -> Option<T::V> {
    match o {
        Some(x) => Some(x@),
        None => None,
    }
}

/// A map with the views of its values.
pub open spec fn map_view<T: View>(m: Map<Seq<char>, T>) -> Map<Seq<char>, T::V> {
    m.map_values(|x: T| x@)
}

// ---------------------------------------------------------------------------
// Type annotations
// ---------------------------------------------------------------------------

/// A type annotation, structurally extracted but unresolved (references are by name).
#[derive(Debug)]
pub enum TypeExpr {
    Ref(String),
    Union(Vec<TypeExpr>),
    StrLit(String),
    NumLit(String),
    BoolLit(bool),
    Str,
    Num,
    Bool,
    Undefined,
    Null,
    Any,
    Unknown,
    ObjectLit(Vec<ObjProp>),
    /// The type of a property of the base type.
    Proj(Box<TypeExpr>, String),
    /// Anything that is not modelled (generics, arrays, functions, mapped types, ...).
    /// Carries the source text for display. Never matches anything.
    Opaque(String),
}

#[derive(Debug)]
pub struct ObjProp {
    pub name: String,
    pub ty: TypeExpr,
    pub optional: bool,
}

#[verifier::ext_equal]
pub enum TypeExprView {
    Ref(Seq<char>),
    Union(Seq<TypeExprView>),
    StrLit(Seq<char>),
    NumLit(Seq<char>),
    BoolLit(bool),
    Str,
    Num,
    Bool,
    Undefined,
    Null,
    Any,
    Unknown,
    ObjectLit(Seq<ObjPropView>),
    Proj(Box<TypeExprView>, Seq<char>),
    Opaque(Seq<char>),
}

#[verifier::ext_equal]
pub struct ObjPropView {
    pub name: Seq<char>,
    pub ty: TypeExprView,
    pub optional: bool,
}

impl View for TypeExpr {
    type V = TypeExprView;

    open spec fn view(&self) -> TypeExprView
        decreases self,
    {
        match self {
            TypeExpr::Ref(n) => TypeExprView::Ref(n@),
            TypeExpr::Union(parts) => TypeExprView::Union(
                Seq::new(
                    parts@.len(),
                    |i: int|
                        if 0 <= i < parts@.len() {
                            parts@[i].view()
                        } else {
                            arbitrary()
                        },
                ),
            ),
            TypeExpr::StrLit(s) => TypeExprView::StrLit(s@),
            TypeExpr::NumLit(s) => TypeExprView::NumLit(s@),
            TypeExpr::BoolLit(b) => TypeExprView::BoolLit(*b),
            TypeExpr::Str => TypeExprView::Str,
            TypeExpr::Num => TypeExprView::Num,
            TypeExpr::Bool => TypeExprView::Bool,
            TypeExpr::Undefined => TypeExprView::Undefined,
            TypeExpr::Null => TypeExprView::Null,
            TypeExpr::Any => TypeExprView::Any,
            TypeExpr::Unknown => TypeExprView::Unknown,
            TypeExpr::ObjectLit(props) => TypeExprView::ObjectLit(
                Seq::new(
                    props@.len(),
                    |i: int|
                        if 0 <= i < props@.len() {
                            ObjPropView {
                                name: props@[i].name@,
                                ty: props@[i].ty.view(),
                                optional: props@[i].optional,
                            }
                        } else {
                            arbitrary()
                        },
                ),
            ),
            TypeExpr::Proj(base, key) => TypeExprView::Proj(Box::new((**base).view()), key@),
            TypeExpr::Opaque(s) => TypeExprView::Opaque(s@),
        }
    }
}

impl View for ObjProp {
    type V = ObjPropView;

    open spec fn view(&self) -> ObjPropView {
        ObjPropView { name: self.name@, ty: self.ty@, optional: self.optional }
    }
}

pub broadcast proof fn lemma_type_union_view(parts: Vec<TypeExpr>)
    ensures
        (#[trigger] TypeExpr::Union(parts)@) == TypeExprView::Union(views(parts@)),
{
    reveal_with_fuel(<TypeExpr as View>::view, 2);
    assert(TypeExpr::Union(parts)@->Union_0 =~= views(parts@));
}

pub broadcast proof fn lemma_type_object_view(props: Vec<ObjProp>)
    ensures
        (#[trigger] TypeExpr::ObjectLit(props)@) == TypeExprView::ObjectLit(views(props@)),
{
    reveal_with_fuel(<TypeExpr as View>::view, 2);
    assert(TypeExpr::ObjectLit(props)@->ObjectLit_0 =~= views(props@));
}

pub broadcast group group_model_views {
    lemma_type_union_view,
    lemma_type_object_view,
    lemma_observed_object_view,
}

impl TypeExpr {
    /// A copy of the expression.
    pub fn copy(&self) -> (r: Self)
        ensures
            r@ == self@,
        decreases self,
    {
        match self {
            TypeExpr::Ref(n) => TypeExpr::Ref(n.clone()),
            TypeExpr::Union(parts) => {
                let mut out: Vec<TypeExpr> = Vec::new();
                let mut i: usize = 0;
                while i < parts.len()
                    invariant
                        i <= parts@.len(),
                        *self == TypeExpr::Union(*parts),
                        out@.len() == i,
                        forall|j: int| 0 <= j < i ==> out@[j]@ == parts@[j]@,
                    decreases parts@.len() - i,
                {
                    proof {
                        assert(decreases_to!(*self => self->Union_0));
                        assert(decreases_to!(self->Union_0 => parts@));
                        assert(decreases_to!(parts@ => parts@[i as int]));
                    }
                    out.push(parts[i].copy());
                    i += 1;
                }
                proof {
                    broadcast use group_model_views;

                    assert(views(out@) =~= views(parts@));
                }
                TypeExpr::Union(out)
            },
            TypeExpr::StrLit(s) => TypeExpr::StrLit(s.clone()),
            TypeExpr::NumLit(s) => TypeExpr::NumLit(s.clone()),
            TypeExpr::BoolLit(b) => TypeExpr::BoolLit(*b),
            TypeExpr::Str => TypeExpr::Str,
            TypeExpr::Num => TypeExpr::Num,
            TypeExpr::Bool => TypeExpr::Bool,
            TypeExpr::Undefined => TypeExpr::Undefined,
            TypeExpr::Null => TypeExpr::Null,
            TypeExpr::Any => TypeExpr::Any,
            TypeExpr::Unknown => TypeExpr::Unknown,
            TypeExpr::ObjectLit(props) => {
                let mut out: Vec<ObjProp> = Vec::new();
                let mut i: usize = 0;
                while i < props.len()
                    invariant
                        i <= props@.len(),
                        *self == TypeExpr::ObjectLit(*props),
                        out@.len() == i,
                        forall|j: int| 0 <= j < i ==> out@[j]@ == props@[j]@,
                    decreases props@.len() - i,
                {
                    let p = &props[i];
                    proof {
                        assert(decreases_to!(*self => self->ObjectLit_0));
                        assert(decreases_to!(self->ObjectLit_0 => props@));
                        assert(decreases_to!(props@ => props@[i as int]));
                        assert(decreases_to!(props@[i as int] => props@[i as int].ty));
                    }
                    out.push(
                        ObjProp { name: p.name.clone(), ty: p.ty.copy(), optional: p.optional },
                    );
                    i += 1;
                }
                proof {
                    broadcast use group_model_views;

                    assert(views(out@) =~= views(props@));
                }
                TypeExpr::ObjectLit(out)
            },
            TypeExpr::Proj(base, key) => TypeExpr::Proj(Box::new(base.copy()), key.clone()),
            TypeExpr::Opaque(s) => TypeExpr::Opaque(s.clone()),
        }
    }
}

// ---------------------------------------------------------------------------
// Observed arguments
// ---------------------------------------------------------------------------

/// A conservatively inferred argument expression.
#[derive(Debug)]
pub enum Observed {
    StrLit(String),
    NumLit(String),
    BoolLit(bool),
    Undefined,
    Null,
    /// The expression's type is the given annotation (const or parameter annotation, `as` cast).
    Typed(TypeExpr),
    /// Enum member access like `Priority.Low`.
    EnumMember { enum_name: String, member: String },
    Object(Vec<(String, Observed)>),
    /// Cannot determine: covers everything.
    Opaque,
}

#[verifier::ext_equal]
pub enum ObservedView {
    StrLit(Seq<char>),
    NumLit(Seq<char>),
    BoolLit(bool),
    Undefined,
    Null,
    Typed(TypeExprView),
    EnumMember { enum_name: Seq<char>, member: Seq<char> },
    Object(Seq<(Seq<char>, ObservedView)>),
    Opaque,
}

impl View for Observed {
    type V = ObservedView;

    open spec fn view(&self) -> ObservedView
        decreases self,
    {
        match self {
            Observed::StrLit(s) => ObservedView::StrLit(s@),
            Observed::NumLit(s) => ObservedView::NumLit(s@),
            Observed::BoolLit(b) => ObservedView::BoolLit(*b),
            Observed::Undefined => ObservedView::Undefined,
            Observed::Null => ObservedView::Null,
            Observed::Typed(t) => ObservedView::Typed(t@),
            Observed::EnumMember { enum_name, member } => ObservedView::EnumMember {
                enum_name: enum_name@,
                member: member@,
            },
            Observed::Object(props) => ObservedView::Object(
                Seq::new(
                    props@.len(),
                    |i: int|
                        if 0 <= i < props@.len() {
                            (props@[i].0@, props@[i].1.view())
                        } else {
                            arbitrary()
                        },
                ),
            ),
            Observed::Opaque => ObservedView::Opaque,
        }
    }
}

pub broadcast proof fn lemma_observed_object_view(props: Vec<(String, Observed)>)
    ensures
        (#[trigger] Observed::Object(props)@) == ObservedView::Object(views(props@)),
{
    reveal_with_fuel(<Observed as View>::view, 2);
    assert(Observed::Object(props)@->Object_0 =~= views(props@));
}

impl Observed {
    /// A copy of the observation.
    pub fn copy(&self) -> (r: Self)
        ensures
            r@ == self@,
        decreases self,
    {
        match self {
            Observed::StrLit(s) => Observed::StrLit(s.clone()),
            Observed::NumLit(s) => Observed::NumLit(s.clone()),
            Observed::BoolLit(b) => Observed::BoolLit(*b),
            Observed::Undefined => Observed::Undefined,
            Observed::Null => Observed::Null,
            Observed::Typed(t) => Observed::Typed(t.copy()),
            Observed::EnumMember { enum_name, member } => Observed::EnumMember {
                enum_name: enum_name.clone(),
                member: member.clone(),
            },
            Observed::Object(props) => {
                let mut out: Vec<(String, Observed)> = Vec::new();
                let mut i: usize = 0;
                while i < props.len()
                    invariant
                        i <= props@.len(),
                        *self == Observed::Object(*props),
                        out@.len() == i,
                        forall|j: int| 0 <= j < i ==> out@[j]@ == props@[j]@,
                    decreases props@.len() - i,
                {
                    let p = &props[i];
                    proof {
                        assert(decreases_to!(*self => self->Object_0));
                        assert(decreases_to!(self->Object_0 => props@));
                        assert(decreases_to!(props@ => props@[i as int]));
                        assert(decreases_to!(props@[i as int] => props@[i as int].1));
                    }
                    out.push((p.0.clone(), p.1.copy()));
                    i += 1;
                }
                proof {
                    broadcast use group_model_views;

                    assert(views(out@) =~= views(props@));
                }
                Observed::Object(out)
            },
            Observed::Opaque => Observed::Opaque,
        }
    }
}

// ---------------------------------------------------------------------------
// Declarations
// ---------------------------------------------------------------------------

#[derive(Debug)]
pub struct ParamInfo {
    pub name: String,
    pub ty: Option<TypeExpr>,
    /// Annotation source text, for display.
    pub ty_text: Option<String>,
    pub optional: bool,
    pub default: Option<Observed>,
}

#[verifier::ext_equal]
pub struct ParamView {
    pub name: Seq<char>,
    pub ty: Option<TypeExprView>,
    pub ty_text: Option<Seq<char>>,
    pub optional: bool,
    pub default: Option<ObservedView>,
}

impl View for ParamInfo {
    type V = ParamView;

    open spec fn view(&self) -> ParamView {
        ParamView {
            name: self.name@,
            ty: opt_view(self.ty),
            ty_text: opt_view(self.ty_text),
            optional: self.optional,
            default: opt_view(self.default),
        }
    }
}

#[derive(Debug)]
pub enum Owner {
    /// Plain function or const-bound arrow/function expression.
    Free,
    Class(String),
    ObjectConst(String),
}

#[verifier::ext_equal]
pub enum OwnerView {
    Free,
    Class(Seq<char>),
    ObjectConst(Seq<char>),
}

impl View for Owner {
    type V = OwnerView;

    open spec fn view(&self) -> OwnerView {
        match self {
            Owner::Free => OwnerView::Free,
            Owner::Class(c) => OwnerView::Class(c@),
            Owner::ObjectConst(c) => OwnerView::ObjectConst(c@),
        }
    }
}

impl Owner {
    pub fn copy(&self) -> (r: Self)
        ensures
            r@ == self@,
    {
        match self {
            Owner::Free => Owner::Free,
            Owner::Class(c) => Owner::Class(c.clone()),
            Owner::ObjectConst(c) => Owner::ObjectConst(c.clone()),
        }
    }

    pub fn same(&self, other: &Owner) -> (r: bool)
        ensures
            r == (self@ == other@),
    {
        match (self, other) {
            (Owner::Free, Owner::Free) => true,
            (Owner::Class(a), Owner::Class(b)) => *a == *b,
            (Owner::ObjectConst(a), Owner::ObjectConst(b)) => *a == *b,
            _ => false,
        }
    }
}

/// Why a declaration is left out of the analysis.
#[derive(Debug, Clone, Copy, PartialEq, Eq, Structural)]
pub enum SkipReason {
    Generic,
    Overload,
    RestParam,
    NoParams,
}

#[derive(Debug)]
pub struct FnDecl {
    pub name: String,
    pub owner: Owner,
    pub params: Vec<ParamInfo>,
    pub line: u32,
    pub end_line: u32,
    pub exported: bool,
    pub skip: Option<SkipReason>,
    /// False for generics, overloads, rest parameters and functions without parameters.
    pub eligible: bool,
}

#[verifier::ext_equal]
pub struct DeclView {
    pub name: Seq<char>,
    pub owner: OwnerView,
    pub params: Seq<ParamView>,
    pub line: u32,
    pub end_line: u32,
    pub exported: bool,
    pub skip: Option<SkipReason>,
    pub eligible: bool,
}

impl View for FnDecl {
    type V = DeclView;

    open spec fn view(&self) -> DeclView {
        DeclView {
            name: self.name@,
            owner: self.owner@,
            params: views(self.params@),
            line: self.line,
            end_line: self.end_line,
            exported: self.exported,
            skip: self.skip,
            eligible: self.eligible,
        }
    }
}

// ---------------------------------------------------------------------------
// Usages
// ---------------------------------------------------------------------------

#[derive(Debug)]
pub enum CallArgs {
    /// Arguments in order; trailing omitted arguments are simply absent.
    Args(Vec<Observed>),
    /// Spread or otherwise uninterpretable argument list: covers everything.
    Opaque,
}

#[verifier::ext_equal]
pub enum ArgsView {
    Args(Seq<ObservedView>),
    Opaque,
}

impl View for CallArgs {
    type V = ArgsView;

    open spec fn view(&self) -> ArgsView {
        match self {
            CallArgs::Args(list) => ArgsView::Args(views(list@)),
            CallArgs::Opaque => ArgsView::Opaque,
        }
    }
}

#[derive(Debug)]
pub enum UsageKind {
    Call(CallArgs),
    /// Reference outside callee position: the target may be called from anywhere.
    Escape,
}

#[verifier::ext_equal]
pub enum UsageKindView {
    Call(ArgsView),
    Escape,
}

impl View for UsageKind {
    type V = UsageKindView;

    open spec fn view(&self) -> UsageKindView {
        match self {
            UsageKind::Call(args) => UsageKindView::Call(args@),
            UsageKind::Escape => UsageKindView::Escape,
        }
    }
}

/// How a usage names its target; resolved during linking.
#[derive(Debug)]
pub enum UsageTargetRef {
    Local { owner: Owner, name: String },
    Imported { local: String },
    /// `ns.name` where `ns` is a namespace import.
    NamespaceMember { ns_local: String, name: String },
    /// `obj.m(...)` or `obj.m` where `obj` could not be resolved:
    /// conservatively hits every method named `m` in the project.
    AnyMethodNamed(String),
    /// A call or access that could reach any free function of this name.
    AnyFreeNamed(String),
    /// A tracked object or class binding escaped as a value: every method of
    /// that owner must be considered escaped.
    AllMembersOf(Owner),
    /// A namespace binding escaped as a value.
    AllExportsOfModule { ns_local: String },
}

#[verifier::ext_equal]
pub enum TargetView {
    Local { owner: OwnerView, name: Seq<char> },
    Imported { local: Seq<char> },
    NamespaceMember { ns_local: Seq<char>, name: Seq<char> },
    AnyMethodNamed(Seq<char>),
    AnyFreeNamed(Seq<char>),
    AllMembersOf(OwnerView),
    AllExportsOfModule { ns_local: Seq<char> },
}

impl View for UsageTargetRef {
    type V = TargetView;

    open spec fn view(&self) -> TargetView {
        match self {
            UsageTargetRef::Local { owner, name } => TargetView::Local {
                owner: owner@,
                name: name@,
            },
            UsageTargetRef::Imported { local } => TargetView::Imported { local: local@ },
            UsageTargetRef::NamespaceMember { ns_local, name } => TargetView::NamespaceMember {
                ns_local: ns_local@,
                name: name@,
            },
            UsageTargetRef::AnyMethodNamed(n) => TargetView::AnyMethodNamed(n@),
            UsageTargetRef::AnyFreeNamed(n) => TargetView::AnyFreeNamed(n@),
            UsageTargetRef::AllMembersOf(o) => TargetView::AllMembersOf(o@),
            UsageTargetRef::AllExportsOfModule { ns_local } => TargetView::AllExportsOfModule {
                ns_local: ns_local@,
            },
        }
    }
}

impl UsageTargetRef {
    pub fn same(&self, other: &UsageTargetRef) -> (r: bool)
        ensures
            r == (self@ == other@),
    {
        match (self, other) {
            (
                UsageTargetRef::Local { owner: o1, name: n1 },
                UsageTargetRef::Local { owner: o2, name: n2 },
            ) => o1.same(o2) && *n1 == *n2,
            (
                UsageTargetRef::Imported { local: a },
                UsageTargetRef::Imported { local: b },
            ) => *a == *b,
            (
                UsageTargetRef::NamespaceMember { ns_local: a1, name: n1 },
                UsageTargetRef::NamespaceMember { ns_local: a2, name: n2 },
            ) => *a1 == *a2 && *n1 == *n2,
            (UsageTargetRef::AnyMethodNamed(a), UsageTargetRef::AnyMethodNamed(b)) => *a == *b,
            (UsageTargetRef::AnyFreeNamed(a), UsageTargetRef::AnyFreeNamed(b)) => *a == *b,
            (UsageTargetRef::AllMembersOf(a), UsageTargetRef::AllMembersOf(b)) => a.same(b),
            (
                UsageTargetRef::AllExportsOfModule { ns_local: a },
                UsageTargetRef::AllExportsOfModule { ns_local: b },
            ) => *a == *b,
            _ => false,
        }
    }
}

#[derive(Debug)]
pub struct Usage {
    pub target: UsageTargetRef,
    pub kind: UsageKind,
    /// Line of a call; 0 for an escape.
    pub line: u32,
}

#[verifier::ext_equal]
pub struct UsageView {
    pub target: TargetView,
    pub kind: UsageKindView,
    pub line: u32,
}

impl View for Usage {
    type V = UsageView;

    open spec fn view(&self) -> UsageView {
        UsageView { target: self.target@, kind: self.kind@, line: self.line }
    }
}

// ---------------------------------------------------------------------------
// Modules
// ---------------------------------------------------------------------------

/// Where an imported name comes from.
#[derive(Debug)]
pub struct ImportSource {
    /// Path of the source module; `None` if it could not be resolved.
    pub path: Option<String>,
    /// The imported name; `default` and `*` stand for default and namespace imports.
    pub name: String,
}

#[verifier::ext_equal]
pub struct ImportView {
    pub path: Option<Seq<char>>,
    pub name: Seq<char>,
}

impl View for ImportSource {
    type V = ImportView;

    open spec fn view(&self) -> ImportView {
        ImportView { path: opt_view(self.path), name: self.name@ }
    }
}

/// `export { name as exported } from path`.
#[derive(Debug)]
pub struct ReExport {
    pub exported: String,
    pub source: ImportSource,
}

#[verifier::ext_equal]
pub struct ReExportView {
    pub exported: Seq<char>,
    pub source: ImportView,
}

impl View for ReExport {
    type V = ReExportView;

    open spec fn view(&self) -> ReExportView {
        ReExportView { exported: self.exported@, source: self.source@ }
    }
}

/// Enum member names in declaration order.
#[derive(Debug)]
pub struct EnumMembers {
    pub members: Vec<String>,
}

impl View for EnumMembers {
    type V = Seq<Seq<char>>;

    open spec fn view(&self) -> Seq<Seq<char>> {
        views(self.members@)
    }
}

pub struct ModuleInfo {
    pub path: String,
    /// Path relative to the analyzed root, forward slashes.
    pub rel: String,
    pub decls: Vec<FnDecl>,
    pub type_aliases: StringHashMap<TypeExpr>,
    pub enums: StringHashMap<EnumMembers>,
    /// Local binding name to the place it is imported from.
    pub imports: StringHashMap<ImportSource>,
    pub reexports_named: Vec<ReExport>,
    /// `export * from path`, in source order; `None` if the path could not be resolved.
    pub reexports_star: Vec<Option<String>>,
    /// Local name of the default export.
    pub default_export: Option<String>,
    pub usages: Vec<Usage>,
    pub parse_errors: usize,
}

#[verifier::ext_equal]
pub struct ModuleView {
    pub path: Seq<char>,
    pub rel: Seq<char>,
    pub decls: Seq<DeclView>,
    pub type_aliases: Map<Seq<char>, TypeExprView>,
    pub enums: Map<Seq<char>, Seq<Seq<char>>>,
    pub imports: Map<Seq<char>, ImportView>,
    pub reexports_named: Seq<ReExportView>,
    pub reexports_star: Seq<Option<Seq<char>>>,
    pub default_export: Option<Seq<char>>,
    pub usages: Seq<UsageView>,
    pub parse_errors: nat,
}

pub open spec fn opt_views<T: View>(s: Seq<Option<T>>) -> Seq<Option<T::V>> {
    Seq::new(s.len(), |i: int| opt_view(s[i]))
}

impl View for ModuleInfo {
    type V = ModuleView;

    open spec fn view(&self) -> ModuleView {
        ModuleView {
            path: self.path@,
            rel: self.rel@,
            decls: views(self.decls@),
            type_aliases: map_view(self.type_aliases@),
            enums: map_view(self.enums@),
            imports: map_view(self.imports@),
            reexports_named: views(self.reexports_named@),
            reexports_star: opt_views(self.reexports_star@),
            default_export: opt_view(self.default_export),
            usages: views(self.usages@),
            parse_errors: self.parse_errors as nat,
        }
    }
}

/// The facts about a module of which nothing has been read yet.
pub open spec fn blank_module(path: Seq<char>, rel: Seq<char>, parse_errors: nat) -> ModuleView {
    ModuleView {
        path,
        rel,
        decls: Seq::empty(),
        type_aliases: Map::empty(),
        enums: Map::empty(),
        imports: Map::empty(),
        reexports_named: Seq::empty(),
        reexports_star: Seq::empty(),
        default_export: None,
        usages: Seq::empty(),
        parse_errors,
    }
}

impl ModuleInfo {
    pub fn blank(path: &str, rel: &str, parse_errors: usize) -> (r: Self)
        ensures
            r@ == blank_module(path@, rel@, parse_errors as nat),
    {
        let r = ModuleInfo {
            path: path.to_owned(),
            rel: rel.to_owned(),
            decls: Vec::new(),
            type_aliases: StringHashMap::new(),
            enums: StringHashMap::new(),
            imports: StringHashMap::new(),
            reexports_named: Vec::new(),
            reexports_star: Vec::new(),
            default_export: None,
            usages: Vec::new(),
            parse_errors,
        };
        assert(r@ =~= blank_module(path@, rel@, parse_errors as nat));
        r
    }
}

// ---------------------------------------------------------------------------
// Results
// ---------------------------------------------------------------------------

/// A parameter (or a property of it) declared wider than any call uses.
#[derive(Debug)]
pub struct Finding {
    pub file: String,
    pub line: u32,
    pub function_name: String,
    pub param: String,
    pub path: String,
    pub declared: String,
    pub unused: Vec<String>,
    pub call_count: usize,
    /// Up to three example call sites, as `file:line`.
    pub sites: Vec<String>,
}

#[verifier::ext_equal]
pub struct FindingView {
    pub file: Seq<char>,
    pub line: u32,
    pub function_name: Seq<char>,
    pub param: Seq<char>,
    pub path: Seq<char>,
    pub declared: Seq<char>,
    pub unused: Seq<Seq<char>>,
    pub call_count: nat,
    pub sites: Seq<Seq<char>>,
}

impl View for Finding {
    type V = FindingView;

    open spec fn view(&self) -> FindingView {
        FindingView {
            file: self.file@,
            line: self.line,
            function_name: self.function_name@,
            param: self.param@,
            path: self.path@,
            declared: self.declared@,
            unused: views(self.unused@),
            call_count: self.call_count as nat,
            sites: views(self.sites@),
        }
    }
}

#[derive(Debug)]
pub struct Options {
    pub diff_base: Option<String>,
    pub json: bool,
    pub respect_exports: bool,
    pub max_depth: usize,
    pub timing: bool,
    pub fail_on_findings: bool,
    pub quiet: bool,
}

impl Default for Options {
    fn default() -> (r: Self)
        ensures
            r.diff_base is None,
            !r.json,
            !r.respect_exports,
            r.max_depth == 6,
            !r.timing,
            !r.fail_on_findings,
            !r.quiet,
    {
        Options {
            diff_base: None,
            json: false,
            respect_exports: false,
            max_depth: 6,
            timing: false,
            fail_on_findings: false,
            quiet: false,
        }
    }
}

} // verus!

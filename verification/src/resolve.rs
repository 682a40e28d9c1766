//! Resolution of extracted annotations and arguments into semantic types,
//! following aliases, interfaces, enums, imports and re-exports across modules.

use vstd::hash_map::StringHashMap;
use vstd::prelude::*;

use crate::model::{
    opt_view, opt_views, views, DeclView, FnDecl, ImportSource, ImportView, ModuleId, ModuleInfo,
    ModuleView, ObjPropView, Observed, ObservedView, Owner, OwnerView, ReExport, ReExportView,
    TypeExpr, TypeExprView,
};
use crate::text::same_text;
use crate::ty::{
    add_undefined, contains_ty, find_prop, prop_index, split_parts, with_undefined, RPropView,
    TyView,
};

pub use crate::ty::{print_ty, RProp, Ty};

verus! {

broadcast use {crate::ty::group_ty_views, crate::model::group_model_views};

/// Longest chain of aliases that is expanded.
pub const CHAIN_LIMIT: usize = 64;

/// What a name is looked up as.
#[derive(Debug, Clone, Copy, PartialEq, Eq, Structural)]
pub enum NameKind {
    /// An enum, alias or interface.
    Type,
    /// A function, or a class or object with methods.
    Value,
}

// ---------------------------------------------------------------------------
// Where a name is declared
// ---------------------------------------------------------------------------

/// The module-level name that a declaration belongs to: a function's own name,
/// or that of the class or object it is a member of.
pub open spec fn home_name(d: DeclView) -> Seq<char> {
    match d.owner {
        OwnerView::Free => d.name,
        OwnerView::Class(c) => c,
        OwnerView::ObjectConst(c) => c,
    }
}

pub open spec fn defines(m: ModuleView, name: Seq<char>, kind: NameKind) -> bool {
    match kind {
        NameKind::Type => m.enums.contains_key(name) || m.type_aliases.contains_key(name),
        NameKind::Value => exists|i: int|
            0 <= i < m.decls.len() && home_name(#[trigger] m.decls[i]) == name,
    }
}

/// The source of the last re-export under the given name.
pub open spec fn find_reexport(list: Seq<ReExportView>, name: Seq<char>) -> Option<ImportView>
    decreases list.len(),
{
    if list.len() == 0 {
        None
    } else if list.last().exported == name {
        Some(list.last().source)
    } else {
        find_reexport(list.drop_last(), name)
    }
}

/// Modules and their positions by path, and the number of steps after which a
/// lookup ends.
#[verifier::ext_equal]
pub struct ProjectView {
    pub modules: Seq<ModuleView>,
    pub by_path: Map<Seq<char>, usize>,
    pub limit: nat,
}

/// The number of names that modules hand on: default exports, imports and
/// named re-exports.
pub open spec fn handed_on(ms: Seq<ModuleView>) -> nat
    decreases ms.len(),
{
    if ms.len() == 0 {
        0
    } else {
        handed_on(ms.drop_last()) + 1 + ms.last().imports.len() + ms.last().reexports_named.len()
    }
}

/// A number of steps that no lookup exceeds without repeating one: a step is a
/// module with the name that is sought, or one that is handed on.
pub open spec fn all_steps(ms: Seq<ModuleView>) -> nat {
    ms.len() * (1 + handed_on(ms))
}

/// The number of steps as far as it can be counted.
pub open spec fn step_limit(ms: Seq<ModuleView>) -> nat {
    if all_steps(ms) > usize::MAX {
        usize::MAX as nat
    } else {
        all_steps(ms)
    }
}

pub type Key = (usize, Seq<char>);

/// The module and the name in it that declare what module `mid` offers as
/// `name`: declared there, or reached through the default export, an import, a
/// named re-export or, in order, the star re-exports. `seen` holds the steps
/// taken so far; a repeated step leads nowhere.
pub open spec fn find_definition(
    p: ProjectView,
    mid: usize,
    name: Seq<char>,
    kind: NameKind,
    seen: Seq<Key>,
) -> Option<Key>
    decreases p.limit - seen.len(), 0int,
{
    if mid >= p.modules.len() || seen.len() >= p.limit || seen.contains((mid, name)) {
        None
    } else {
        let m = p.modules[mid as int];
        let seen2 = seen.push((mid, name));
        if defines(m, name, kind) {
            Some((mid, name))
        } else if name == "default"@ && m.default_export is Some {
            find_definition(p, mid, m.default_export->0, kind, seen2)
        } else if m.imports.contains_key(name) {
            let source = m.imports[name];
            if source.path is Some && p.by_path.contains_key(source.path->0) {
                find_definition(p, p.by_path[source.path->0], source.name, kind, seen2)
            } else {
                None
            }
        } else if find_reexport(m.reexports_named, name) is Some {
            let source = find_reexport(m.reexports_named, name)->0;
            if source.path is Some && p.by_path.contains_key(source.path->0) {
                find_definition(p, p.by_path[source.path->0], source.name, kind, seen2)
            } else {
                None
            }
        } else if name == "default"@ {
            None
        } else {
            find_in_stars(p, m.reexports_star, name, kind, seen2)
        }
    }
}

/// The first definition that the star re-exports lead to.
pub open spec fn find_in_stars(
    p: ProjectView,
    stars: Seq<Option<Seq<char>>>,
    name: Seq<char>,
    kind: NameKind,
    seen: Seq<Key>,
) -> Option<Key>
    decreases p.limit - seen.len(), 1 + stars.len(),
{
    if stars.len() == 0 {
        None
    } else {
        let before = find_in_stars(p, stars.drop_last(), name, kind, seen);
        if before is Some {
            before
        } else if stars.last() is Some && p.by_path.contains_key(stars.last()->0) {
            find_definition(p, p.by_path[stars.last()->0], name, kind, seen)
        } else {
            None
        }
    }
}

/// The module that an import of module `mid` reads from.
pub open spec fn import_module(p: ProjectView, mid: usize, local: Seq<char>) -> Option<usize> {
    if mid < p.modules.len() && p.modules[mid as int].imports.contains_key(local) {
        let source = p.modules[mid as int].imports[local];
        if source.path is Some && p.by_path.contains_key(source.path->0) {
            Some(p.by_path[source.path->0])
        } else {
            None
        }
    } else {
        None
    }
}

/// The declaration behind an imported name.
pub open spec fn imported_definition(
    p: ProjectView,
    mid: usize,
    local: Seq<char>,
    kind: NameKind,
) -> Option<Key> {
    match import_module(p, mid, local) {
        Some(m2) => find_definition(
            p,
            m2,
            p.modules[mid as int].imports[local].name,
            kind,
            Seq::empty(),
        ),
        None => None,
    }
}

/// Where an import or re-export leads.
pub open spec fn source_step(p: ProjectView, source: ImportView) -> Option<Key> {
    if source.path is Some && p.by_path.contains_key(source.path->0) {
        Some((p.by_path[source.path->0], source.name))
    } else {
        None
    }
}

/// The module of the first star re-export that leads to a type.
pub open spec fn star_module(
    p: ProjectView,
    stars: Seq<Option<Seq<char>>>,
    name: Seq<char>,
    seen: Seq<Key>,
) -> Option<usize>
    decreases stars.len(),
{
    if stars.len() == 0 {
        None
    } else {
        let before = star_module(p, stars.drop_last(), name, seen);
        if before is Some {
            before
        } else if stars.last() is Some && p.by_path.contains_key(stars.last()->0)
            && find_definition(
            p,
            p.by_path[stars.last()->0],
            name,
            NameKind::Type,
            seen,
        ) is Some {
            Some(p.by_path[stars.last()->0])
        } else {
            None
        }
    }
}

/// Where the lookup of a type goes on from a module that does not declare it.
pub open spec fn next_step(p: ProjectView, mid: usize, name: Seq<char>, seen: Seq<Key>) -> Option<
    Key,
> {
    let m = p.modules[mid as int];
    if name == "default"@ && m.default_export is Some {
        Some((mid, m.default_export->0))
    } else if m.imports.contains_key(name) {
        source_step(p, m.imports[name])
    } else if find_reexport(m.reexports_named, name) is Some {
        source_step(p, find_reexport(m.reexports_named, name)->0)
    } else if name == "default"@ {
        None
    } else {
        match star_module(p, m.reexports_star, name, seen) {
            Some(m2) => Some((m2, name)),
            None => None,
        }
    }
}

/// The steps in which module `mid` looks up the type that it offers as `name`,
/// up to its declaration or to where nothing leads on.
pub open spec fn route(p: ProjectView, mid: usize, name: Seq<char>, seen: Seq<Key>) -> Seq<Key>
    decreases p.limit - seen.len(),
{
    let here = seq![(mid, name)];
    if mid >= p.modules.len() || seen.len() >= p.limit || seen.contains((mid, name)) || defines(
        p.modules[mid as int],
        name,
        NameKind::Type,
    ) {
        here
    } else {
        let seen2 = seen.push((mid, name));
        match next_step(p, mid, name, seen2) {
            Some((m2, n2)) => here + route(p, m2, n2, seen2),
            None => here,
        }
    }
}

/// The steps from a mention of a type in the code of module `mid`: the mention
/// itself, and the lookup behind it where the type is imported.
pub open spec fn mention_steps(p: ProjectView, mid: usize, name: Seq<char>) -> Seq<Key> {
    let here = seq![(mid, name)];
    if mid < p.modules.len() && defines(p.modules[mid as int], name, NameKind::Type) {
        here
    } else {
        match import_module(p, mid, name) {
            Some(m2) => here + route(
                p,
                m2,
                p.modules[mid as int].imports[name].name,
                Seq::empty(),
            ),
            None => here,
        }
    }
}

/// The name of the first step that was taken before, on the stack or earlier
/// among the steps.
pub open spec fn first_repeated(stack: Seq<Key>, steps: Seq<Key>) -> Option<Seq<char>>
    decreases steps.len(),
{
    if steps.len() == 0 {
        None
    } else if stack.contains(steps[0]) {
        Some(steps[0].1)
    } else {
        first_repeated(stack.push(steps[0]), steps.drop_first())
    }
}

/// What `name` means to the code of module `mid`: declared there, or imported.
pub open spec fn find_local(
    p: ProjectView,
    mid: usize,
    name: Seq<char>,
    kind: NameKind,
) -> Option<Key> {
    if mid >= p.modules.len() {
        None
    } else if defines(p.modules[mid as int], name, kind) {
        Some((mid, name))
    } else {
        imported_definition(p, mid, name, kind)
    }
}

pub proof fn lemma_imported_in_range(p: ProjectView, mid: usize, local: Seq<char>, kind: NameKind)
    ensures
        (match imported_definition(p, mid, local, kind) {
            Some((m2, n2)) => m2 < p.modules.len() && defines(p.modules[m2 as int], n2, kind),
            None => true,
        }),
{
    if let Some(m2) = import_module(p, mid, local) {
        lemma_definition_in_range(
            p,
            m2,
            p.modules[mid as int].imports[local].name,
            kind,
            Seq::empty(),
        );
    }
}

pub proof fn lemma_local_in_range(p: ProjectView, mid: usize, name: Seq<char>, kind: NameKind)
    ensures
        (match find_local(p, mid, name, kind) {
            Some((m2, n2)) => m2 < p.modules.len() && defines(p.modules[m2 as int], n2, kind),
            None => true,
        }),
{
    lemma_imported_in_range(p, mid, name, kind);
}

pub proof fn lemma_definition_in_range(
    p: ProjectView,
    mid: usize,
    name: Seq<char>,
    kind: NameKind,
    seen: Seq<Key>,
)
    ensures
        (match find_definition(p, mid, name, kind, seen) {
            Some((m2, n2)) => m2 < p.modules.len() && defines(p.modules[m2 as int], n2, kind),
            None => true,
        }),
    decreases p.limit - seen.len(), 0int,
{
    if !(mid >= p.modules.len() || seen.len() >= p.limit || seen.contains((mid, name))) {
        let m = p.modules[mid as int];
        let seen2 = seen.push((mid, name));
        if defines(m, name, kind) {
        } else if name == "default"@ && m.default_export is Some {
            lemma_definition_in_range(p, mid, m.default_export->0, kind, seen2);
        } else if m.imports.contains_key(name) {
            let source = m.imports[name];
            if source.path is Some && p.by_path.contains_key(source.path->0) {
                lemma_definition_in_range(
                    p,
                    p.by_path[source.path->0],
                    source.name,
                    kind,
                    seen2,
                );
            }
        } else if find_reexport(m.reexports_named, name) is Some {
            let source = find_reexport(m.reexports_named, name)->0;
            if source.path is Some && p.by_path.contains_key(source.path->0) {
                lemma_definition_in_range(
                    p,
                    p.by_path[source.path->0],
                    source.name,
                    kind,
                    seen2,
                );
            }
        } else if name != "default"@ {
            lemma_star_definition_in_range(p, m.reexports_star, name, kind, seen2);
        }
    }
}

proof fn lemma_star_definition_in_range(
    p: ProjectView,
    stars: Seq<Option<Seq<char>>>,
    name: Seq<char>,
    kind: NameKind,
    seen: Seq<Key>,
)
    ensures
        (match find_in_stars(p, stars, name, kind, seen) {
            Some((m2, n2)) => m2 < p.modules.len() && defines(p.modules[m2 as int], n2, kind),
            None => true,
        }),
    decreases p.limit - seen.len(), 1 + stars.len(),
{
    if stars.len() > 0 {
        lemma_star_definition_in_range(p, stars.drop_last(), name, kind, seen);
        if stars.last() is Some && p.by_path.contains_key(stars.last()->0) {
            lemma_definition_in_range(p, p.by_path[stars.last()->0], name, kind, seen);
        }
    }
}

proof fn lemma_star_module(
    p: ProjectView,
    stars: Seq<Option<Seq<char>>>,
    name: Seq<char>,
    seen: Seq<Key>,
)
    ensures
        find_in_stars(p, stars, name, NameKind::Type, seen) == (match star_module(
            p,
            stars,
            name,
            seen,
        ) {
            Some(m2) => find_definition(p, m2, name, NameKind::Type, seen),
            None => None,
        }),
        star_module(p, stars, name, seen) is Some ==> find_in_stars(
            p,
            stars,
            name,
            NameKind::Type,
            seen,
        ) is Some,
    decreases stars.len(),
{
    if stars.len() > 0 {
        lemma_star_module(p, stars.drop_last(), name, seen);
    }
}

proof fn lemma_route_ends(p: ProjectView, mid: usize, name: Seq<char>, seen: Seq<Key>)
    ensures
        route(p, mid, name, seen).len() > 0,
        (match find_definition(p, mid, name, NameKind::Type, seen) {
            Some(found) => route(p, mid, name, seen).last() == found,
            None => true,
        }),
    decreases p.limit - seen.len(),
{
    if !(mid >= p.modules.len() || seen.len() >= p.limit || seen.contains((mid, name))
        || defines(p.modules[mid as int], name, NameKind::Type)) {
        let seen2 = seen.push((mid, name));
        lemma_star_module(p, p.modules[mid as int].reexports_star, name, seen2);
        if let Some((m2, n2)) = next_step(p, mid, name, seen2) {
            lemma_route_ends(p, m2, n2, seen2);
        }
    }
}

/// The steps from a mention end at the declaration that the mention means,
/// where there is one.
pub proof fn law_steps_end_at_the_declaration(p: ProjectView, mid: usize, name: Seq<char>)
    ensures
        mention_steps(p, mid, name).len() > 0,
        mention_steps(p, mid, name).first() == (mid, name),
        (match find_local(p, mid, name, NameKind::Type) {
            Some(found) => mention_steps(p, mid, name).last() == found,
            None => true,
        }),
{
    if let Some(m2) = import_module(p, mid, name) {
        lemma_route_ends(p, m2, p.modules[mid as int].imports[name].name, Seq::empty());
    }
}

// ---------------------------------------------------------------------------
// Annotations
// ---------------------------------------------------------------------------

/// The elements without repetitions, each at its first occurrence.
pub open spec fn deduped(s: Seq<TyView>) -> Seq<TyView>
    decreases s.len(),
{
    if s.len() == 0 {
        s
    } else {
        let before = deduped(s.drop_last());
        if before.contains(s.last()) {
            before
        } else {
            before.push(s.last())
        }
    }
}

/// The type of the property `key` of a value of type `t`.
pub open spec fn projected(t: TyView, key: Seq<char>) -> TyView
    decreases t,
{
    match t {
        TyView::Object(props) => match find_prop(props, key) {
            Some(x) => if x.optional {
                with_undefined(x.ty)
            } else {
                x.ty
            },
            None => TyView::AnyLike,
        },
        TyView::Union(parts) => TyView::Union(deduped(projected_parts(parts, key))),
        _ => TyView::AnyLike,
    }
}

pub open spec fn projected_parts(parts: Seq<TyView>, key: Seq<char>) -> Seq<TyView>
    decreases parts,
{
    if parts.len() == 0 {
        Seq::empty()
    } else {
        projected_parts(parts.drop_last(), key) + split_parts(
            projected(parts[parts.len() - 1], key),
        )
    }
}

/// The members of an enum, as literal types.
pub open spec fn enum_literals(name: Seq<char>, members: Seq<Seq<char>>) -> Seq<TyView> {
    Seq::new(
        members.len(),
        |i: int| TyView::EnumLit { enum_name: name, member: members[i] },
    )
}

/// What an annotation written in module `mid` means. `stack` holds the steps
/// of the mentions being expanded, and `depth` is their number: a mention that
/// comes back to one of these steps stays opaque under the name it has there.
pub open spec fn resolved(
    p: ProjectView,
    te: TypeExprView,
    mid: usize,
    stack: Seq<Key>,
    depth: nat,
) -> TyView
    decreases CHAIN_LIMIT - depth, te,
{
    match te {
        TypeExprView::Ref(name) => {
            let steps = mention_steps(p, mid, name);
            let (m2, n2) = steps.last();
            match first_repeated(stack, steps) {
                Some(n) => TyView::Opaque(n),
                None => if m2 >= p.modules.len() {
                    TyView::Opaque(n2)
                } else {
                    let m = p.modules[m2 as int];
                    if m.enums.contains_key(n2) {
                        TyView::Union(enum_literals(n2, m.enums[n2]))
                    } else if m.type_aliases.contains_key(n2) && depth < CHAIN_LIMIT {
                        resolved(p, m.type_aliases[n2], m2, stack + steps, depth + 1)
                    } else {
                        TyView::Opaque(n2)
                    }
                },
            }
        },
        TypeExprView::Union(parts) => TyView::Union(deduped(resolved_parts(p, parts, mid, stack, depth))),
        TypeExprView::ObjectLit(props) => TyView::Object(resolved_props(p, props, mid, stack, depth)),
        TypeExprView::Proj(base, key) => projected(resolved(p, *base, mid, stack, depth), key),
        TypeExprView::StrLit(s) => TyView::StrLit(s),
        TypeExprView::NumLit(n) => TyView::NumLit(n),
        TypeExprView::BoolLit(b) => TyView::BoolLit(b),
        TypeExprView::Str => TyView::Str,
        TypeExprView::Num => TyView::Num,
        TypeExprView::Bool => TyView::Bool,
        TypeExprView::Undefined => TyView::Undefined,
        TypeExprView::Null => TyView::Null,
        TypeExprView::Any => TyView::AnyLike,
        TypeExprView::Unknown => TyView::AnyLike,
        TypeExprView::Opaque(s) => TyView::Opaque(s),
    }
}

/// The constituents of a written union, nested unions flattened.
pub open spec fn resolved_parts(
    p: ProjectView,
    parts: Seq<TypeExprView>,
    mid: usize,
    stack: Seq<Key>,
    depth: nat,
) -> Seq<TyView>
    decreases CHAIN_LIMIT - depth, parts,
{
    if parts.len() == 0 {
        Seq::empty()
    } else {
        resolved_parts(p, parts.drop_last(), mid, stack, depth) + split_parts(
            resolved(p, parts[parts.len() - 1], mid, stack, depth),
        )
    }
}

pub open spec fn resolved_props(
    p: ProjectView,
    props: Seq<ObjPropView>,
    mid: usize,
    stack: Seq<Key>,
    depth: nat,
) -> Seq<RPropView>
    decreases CHAIN_LIMIT - depth, props,
{
    if props.len() == 0 {
        Seq::empty()
    } else {
        let last = props[props.len() - 1];
        resolved_props(p, props.drop_last(), mid, stack, depth).push(
            RPropView {
                name: last.name,
                ty: resolved(p, last.ty, mid, stack, depth),
                optional: last.optional,
            },
        )
    }
}

/// What an argument observed in module `mid` means.
pub open spec fn resolved_observed(p: ProjectView, obs: ObservedView, mid: usize) -> TyView
    decreases obs,
{
    match obs {
        ObservedView::StrLit(s) => TyView::StrLit(s),
        ObservedView::NumLit(n) => TyView::NumLit(n),
        ObservedView::BoolLit(b) => TyView::BoolLit(b),
        ObservedView::Undefined => TyView::Undefined,
        ObservedView::Null => TyView::Null,
        ObservedView::Typed(te) => resolved(p, te, mid, Seq::empty(), 0),
        ObservedView::EnumMember { enum_name, member } => match find_local(
            p,
            mid,
            enum_name,
            NameKind::Type,
        ) {
            Some((m2, n2)) => {
                let m = p.modules[m2 as int];
                if m.enums.contains_key(n2) && m.enums[n2].contains(member) {
                    TyView::EnumLit { enum_name: n2, member }
                } else {
                    TyView::AnyLike
                }
            },
            None => TyView::AnyLike,
        },
        ObservedView::Object(props) => TyView::Object(resolved_object(p, props, mid)),
        ObservedView::Opaque => TyView::AnyLike,
    }
}

pub open spec fn resolved_object(
    p: ProjectView,
    props: Seq<(Seq<char>, ObservedView)>,
    mid: usize,
) -> Seq<RPropView>
    decreases props,
{
    if props.len() == 0 {
        Seq::empty()
    } else {
        let last = props[props.len() - 1];
        resolved_object(p, props.drop_last(), mid).push(
            RPropView { name: last.0, ty: resolved_observed(p, last.1, mid), optional: false },
        )
    }
}

/// Leaving repetitions out loses nothing and leaves no two equal elements.
pub proof fn law_deduped(s: Seq<TyView>)
    ensures
        deduped(s).no_duplicates(),
        forall|t: TyView| #[trigger] deduped(s).contains(t) <==> s.contains(t),
    decreases s.len(),
{
    if s.len() > 0 {
        law_deduped(s.drop_last());
        let before = deduped(s.drop_last());
        let last = s.last();
        assert forall|t: TyView| #[trigger] deduped(s).contains(t) <==> s.contains(t) by {
            if s.contains(t) {
                let i = choose|i: int| 0 <= i < s.len() && s[i] == t;
                if i < s.len() - 1 {
                    assert(s.drop_last()[i] == t);
                    assert(before.contains(t));
                }
                if !before.contains(last) {
                    if before.contains(t) {
                        let j = choose|j: int| 0 <= j < before.len() && before[j] == t;
                        assert(before.push(last)[j] == t);
                    } else {
                        assert(before.push(last)[before.len() as int] == t);
                    }
                }
            }
            if deduped(s).contains(t) {
                let j = choose|j: int| 0 <= j < deduped(s).len() && deduped(s)[j] == t;
                if j < before.len() {
                    assert(before[j] == t);
                    assert(before.contains(t));
                    let i = choose|i: int| 0 <= i < s.len() - 1 && s.drop_last()[i] == t;
                    assert(s[i] == t);
                } else {
                    assert(s[s.len() - 1] == t);
                }
            }
        }
    }
}

/// Whether no union in a type, at any depth, has a union among its constituents.
pub open spec fn flat(t: TyView) -> bool
    decreases t,
{
    match t {
        TyView::Union(parts) => forall|i: int|
            0 <= i < parts.len() ==> (#[trigger] parts[i]) !is Union && flat(parts[i]),
        TyView::Object(props) => forall|i: int|
            0 <= i < props.len() ==> flat((#[trigger] props[i]).ty),
        _ => true,
    }
}

/// Whether all are flat, and none a union.
pub open spec fn flat_parts(s: Seq<TyView>) -> bool {
    forall|i: int| 0 <= i < s.len() ==> (#[trigger] s[i]) !is Union && flat(s[i])
}

pub open spec fn flat_props(s: Seq<RPropView>) -> bool {
    forall|i: int| 0 <= i < s.len() ==> flat((#[trigger] s[i]).ty)
}

proof fn lemma_flat_prop(props: Seq<RPropView>, name: Seq<char>)
    requires
        flat_props(props),
    ensures
        find_prop(props, name) is Some ==> flat(find_prop(props, name)->0.ty),
    decreases props.len(),
{
    if props.len() > 0 && props[0].name != name {
        assert forall|i: int| 0 <= i < props.drop_first().len() implies flat(
            (#[trigger] props.drop_first()[i]).ty,
        ) by {
            assert(props.drop_first()[i] == props[i + 1]);
        }
        lemma_flat_prop(props.drop_first(), name);
    }
}

proof fn lemma_flat_union(s: Seq<TyView>)
    requires
        flat_parts(s),
    ensures
        flat(TyView::Union(deduped(s))),
{
    law_deduped(s);
    let t = TyView::Union(deduped(s));
    assert forall|i: int| 0 <= i < deduped(s).len() implies (#[trigger] deduped(s)[i]) !is Union
        && flat(deduped(s)[i]) by {
        assert(deduped(s).contains(deduped(s)[i]));
        assert(s.contains(deduped(s)[i]));
        let j = choose|j: int| 0 <= j < s.len() && s[j] == deduped(s)[i];
        assert(s[j] !is Union && flat(s[j]));
    }
    assert(t->Union_0 == deduped(s));
}

proof fn lemma_flat_split(t: TyView)
    requires
        flat(t),
    ensures
        flat_parts(split_parts(t)),
{
}

proof fn lemma_flat_undefined(t: TyView)
    requires
        flat(t),
    ensures
        flat(with_undefined(t)),
{
    reveal_with_fuel(flat, 2);
}

proof fn lemma_projected_flat(t: TyView, key: Seq<char>)
    requires
        flat(t),
    ensures
        flat(projected(t, key)),
    decreases t,
{
    match t {
        TyView::Object(props) => {
            assert(flat_props(props));
            lemma_flat_prop(props, key);
            if let Some(x) = find_prop(props, key) {
                lemma_flat_undefined(x.ty);
            }
        },
        TyView::Union(parts) => {
            assert(flat_parts(parts));
            lemma_projected_parts_flat(parts, key);
            lemma_flat_union(projected_parts(parts, key));
        },
        _ => {},
    }
}

proof fn lemma_projected_parts_flat(parts: Seq<TyView>, key: Seq<char>)
    requires
        flat_parts(parts),
    ensures
        flat_parts(projected_parts(parts, key)),
    decreases parts,
{
    if parts.len() > 0 {
        lemma_projected_parts_flat(parts.drop_last(), key);
        lemma_projected_flat(parts[parts.len() - 1], key);
        lemma_flat_split(projected(parts[parts.len() - 1], key));
    }
}

/// A mention whose module and name are already being expanded is opaque under
/// that name.
pub proof fn law_expanding_names_are_opaque(
    p: ProjectView,
    name: Seq<char>,
    mid: usize,
    stack: Seq<Key>,
    depth: nat,
)
    requires
        stack.contains((mid, name)),
    ensures
        resolved(p, TypeExprView::Ref(name), mid, stack, depth) == TyView::Opaque(name),
{
    law_steps_end_at_the_declaration(p, mid, name);
}

/// Annotations resolve to types in which unions are flattened throughout.
pub proof fn law_unions_are_flat(
    p: ProjectView,
    te: TypeExprView,
    mid: usize,
    stack: Seq<Key>,
    depth: nat,
)
    ensures
        flat(resolved(p, te, mid, stack, depth)),
    decreases CHAIN_LIMIT - depth, te,
{
    match te {
        TypeExprView::Ref(name) => {
            let steps = mention_steps(p, mid, name);
            let (m2, n2) = steps.last();
            let m = p.modules[m2 as int];
            reveal_with_fuel(flat, 2);
            if first_repeated(stack, steps) is None && m2 < p.modules.len()
                && !m.enums.contains_key(n2) && m.type_aliases.contains_key(n2) && depth
                < CHAIN_LIMIT {
                law_unions_are_flat(p, m.type_aliases[n2], m2, stack + steps, depth + 1);
            }
        },
        TypeExprView::Union(parts) => {
            lemma_parts_flat(p, parts, mid, stack, depth);
            lemma_flat_union(resolved_parts(p, parts, mid, stack, depth));
        },
        TypeExprView::ObjectLit(props) => lemma_props_flat(p, props, mid, stack, depth),
        TypeExprView::Proj(base, key) => {
            law_unions_are_flat(p, *base, mid, stack, depth);
            lemma_projected_flat(resolved(p, *base, mid, stack, depth), key);
        },
        _ => {},
    }
}

proof fn lemma_parts_flat(
    p: ProjectView,
    parts: Seq<TypeExprView>,
    mid: usize,
    stack: Seq<Key>,
    depth: nat,
)
    ensures
        flat_parts(resolved_parts(p, parts, mid, stack, depth)),
    decreases CHAIN_LIMIT - depth, parts,
{
    if parts.len() > 0 {
        lemma_parts_flat(p, parts.drop_last(), mid, stack, depth);
        law_unions_are_flat(p, parts[parts.len() - 1], mid, stack, depth);
        lemma_flat_split(resolved(p, parts[parts.len() - 1], mid, stack, depth));
    }
}

proof fn lemma_props_flat(
    p: ProjectView,
    props: Seq<ObjPropView>,
    mid: usize,
    stack: Seq<Key>,
    depth: nat,
)
    ensures
        flat_props(resolved_props(p, props, mid, stack, depth)),
    decreases CHAIN_LIMIT - depth, props,
{
    if props.len() > 0 {
        lemma_props_flat(p, props.drop_last(), mid, stack, depth);
        law_unions_are_flat(p, props[props.len() - 1].ty, mid, stack, depth);
    }
}

// ---------------------------------------------------------------------------
// Execution
// ---------------------------------------------------------------------------

/// The modules of a project, with their positions by path.
pub struct Resolver<'m> {
    pub modules: &'m Vec<ModuleInfo>,
    pub by_path: &'m StringHashMap<usize>,
    /// The number of steps after which a lookup ends.
    pub limit: usize,
}

impl View for Resolver<'_> {
    type V = ProjectView;

    open spec fn view(&self) -> ProjectView {
        ProjectView {
            modules: views(self.modules@),
            by_path: self.by_path@,
            limit: self.limit as nat,
        }
    }
}

pub open spec fn opt_key(k: Option<(usize, String)>) -> Option<Key> {
    match k {
        Some((m, n)) => Some((m, n@)),
        None => None,
    }
}

fn contains_key(list: &Vec<(usize, String)>, mid: usize, name: &String) -> (r: bool)
    ensures
        r == views(list@).contains((mid, name@)),
{
    let mut i: usize = 0;
    while i < list.len()
        invariant
            i <= list@.len(),
            forall|j: int| 0 <= j < i ==> list@[j]@ != (mid, name@),
        decreases list@.len() - i,
    {
        if list[i].0 == mid && list[i].1 == *name {
            assert(views(list@)[i as int] == (mid, name@));
            return true;
        }
        i += 1;
    }
    assert forall|j: int| 0 <= j < list@.len() implies views(list@)[j] != (mid, name@) by {}
    false
}

/// The number of names that modules hand on, where it can be counted.
fn count_handed_on(modules: &Vec<ModuleInfo>) -> (r: Option<usize>)
    ensures
        (match r {
            Some(n) => n == handed_on(views(modules@)),
            None => handed_on(views(modules@)) > usize::MAX,
        }),
{
    let ghost all = views(modules@);
    let mut sum: usize = 0;
    let mut i: usize = 0;
    while i < modules.len()
        invariant
            all == views(modules@),
            i <= modules@.len(),
            sum == handed_on(all.take(i as int)),
        decreases modules@.len() - i,
    {
        let m = &modules[i];
        let imports: usize = m.imports.len();
        let named: usize = m.reexports_named.len();
        proof {
            assert(all.take(i + 1).drop_last() =~= all.take(i as int));
            assert(all.take(i + 1).last() == m@);
            assert(m@.imports.dom() =~= m.imports@.dom());
            lemma_handed_on_grows(all, i + 1);
        }
        let next: Option<usize> = match sum.checked_add(1) {
            Some(a) => match a.checked_add(imports) {
                Some(b) => b.checked_add(named),
                None => None,
            },
            None => None,
        };
        match next {
            Some(n) => {
                sum = n;
            },
            None => return None,
        }
        i += 1;
    }
    assert(all.take(i as int) =~= all);
    Some(sum)
}

proof fn lemma_handed_on_grows(ms: Seq<ModuleView>, k: int)
    requires
        0 <= k <= ms.len(),
    ensures
        handed_on(ms.take(k)) <= handed_on(ms),
    decreases ms.len() - k,
{
    if k == ms.len() {
        assert(ms.take(k) =~= ms);
    } else {
        lemma_handed_on_grows(ms, k + 1);
        assert(ms.take(k + 1).drop_last() =~= ms.take(k));
    }
}

/// A number of steps that no lookup exceeds without repeating one.
pub fn count_steps(modules: &Vec<ModuleInfo>) -> (r: usize)
    ensures
        r == step_limit(views(modules@)),
{
    let ghost all = views(modules@);
    let n: usize = modules.len();
    if n == 0 {
        assert(all_steps(all) == 0) by (nonlinear_arith)
            requires
                all_steps(all) == all.len() * (1 + handed_on(all)),
                all.len() == 0,
        ;
        return 0;
    }
    let names: Option<usize> = match count_handed_on(modules) {
        Some(h) => h.checked_add(1),
        None => None,
    };
    match names {
        None => {
            assert(all.len() * (1 + handed_on(all)) > usize::MAX) by (nonlinear_arith)
                requires
                    all.len() >= 1,
                    1 + handed_on(all) > usize::MAX,
            ;
            usize::MAX
        },
        Some(k) => match n.checked_mul(k) {
            Some(r) => r,
            None => usize::MAX,
        },
    }
}

/// The module-level name that a declaration belongs to.
pub fn home_of(d: &FnDecl) -> (r: &String)
    ensures
        r@ == home_name(d@),
{
    match &d.owner {
        Owner::Free => &d.name,
        Owner::Class(c) => c,
        Owner::ObjectConst(c) => c,
    }
}

pub fn module_defines(m: &ModuleInfo, name: &String, kind: NameKind) -> (r: bool)
    ensures
        r == defines(m@, name@, kind),
{
    match kind {
        NameKind::Type => m.enums.contains_key(name.as_str()) || m.type_aliases.contains_key(
            name.as_str(),
        ),
        NameKind::Value => {
            let mut i: usize = 0;
            while i < m.decls.len()
                invariant
                    kind == NameKind::Value,
                    i <= m.decls@.len(),
                    forall|j: int| 0 <= j < i ==> home_name(#[trigger] m@.decls[j]) != name@,
                decreases m.decls@.len() - i,
            {
                assert(m@.decls[i as int] == m.decls@[i as int]@);
                if *home_of(&m.decls[i]) == *name {
                    assert(home_name(m@.decls[i as int]) == name@);
                    return true;
                }
                i += 1;
            }
            false
        },
    }
}

/// The position of the last re-export under the given name.
fn reexport_index(list: &Vec<ReExport>, name: &String) -> (r: Option<usize>)
    ensures
        (match r {
            Some(i) => i < list@.len() && find_reexport(views(list@), name@) == Some(
                list@[i as int].source@,
            ),
            None => find_reexport(views(list@), name@) is None,
        }),
{
    let ghost all = views(list@);
    let mut i: usize = list.len();
    proof {
        assert(all.take(all.len() as int) =~= all);
    }
    while i > 0
        invariant
            i <= list@.len(),
            all == views(list@),
            find_reexport(all, name@) == find_reexport(all.take(i as int), name@),
        decreases i,
    {
        proof {
            assert(all.take(i as int).drop_last() =~= all.take(i - 1));
            assert(all.take(i as int).last() == list@[i - 1]@);
        }
        if list[i - 1].exported == *name {
            return Some(i - 1);
        }
        i -= 1;
    }
    None
}

impl<'m> Resolver<'m> {
    fn definition(
        &self,
        mid: usize,
        name: &String,
        kind: NameKind,
        seen: &mut Vec<(usize, String)>,
    ) -> (r: Option<(usize, String)>)
        ensures
            views(final(seen)@) == views(old(seen)@),
            opt_key(r) == find_definition(self@, mid, name@, kind, views(old(seen)@)),
        decreases self.limit - old(seen)@.len(), 0int,
    {
        if mid >= self.modules.len() || seen.len() >= self.limit || contains_key(seen, mid, name) {
            return None;
        }
        let m = &self.modules[mid];
        assert(self@.modules[mid as int] == m@);
        if module_defines(m, name, kind) {
            return Some((mid, name.clone()));
        }
        let ghost before = views(seen@);
        seen.push((mid, name.clone()));
        assert(views(seen@) =~= before.push((mid, name@)));
        let is_default = same_text(name.as_str(), "default");
        let r = if is_default && m.default_export.is_some() {
            match &m.default_export {
                Some(local) => self.definition(mid, local, kind, seen),
                None => None,
            }
        } else if let Some(source) = m.imports.get(name.as_str()) {
            assert(m@.imports[name@] == source@);
            self.follow(source, kind, seen)
        } else if let Some(i) = reexport_index(&m.reexports_named, name) {
            self.follow(&m.reexports_named[i].source, kind, seen)
        } else if is_default {
            None
        } else {
            self.in_stars(&m.reexports_star, name, kind, seen)
        };
        let ghost pushed = seen@;
        let _ = seen.pop();
        proof {
            assert(views(pushed) == before.push((mid, name@)));
            assert forall|i: int| 0 <= i < before.len() implies views(seen@)[i] == before[i] by {
                assert(views(pushed)[i] == before[i]);
            }
            assert(views(seen@) =~= before);
        }
        r
    }

    fn follow(
        &self,
        source: &ImportSource,
        kind: NameKind,
        seen: &mut Vec<(usize, String)>,
    ) -> (r: Option<(usize, String)>)
        ensures
            views(final(seen)@) == views(old(seen)@),
            opt_key(r) == (if source@.path is Some && self@.by_path.contains_key(source@.path->0) {
                find_definition(
                    self@,
                    self@.by_path[source@.path->0],
                    source@.name,
                    kind,
                    views(old(seen)@),
                )
            } else {
                None
            }),
        decreases self.limit - old(seen)@.len(), 1int,
    {
        match &source.path {
            Some(path) => match self.by_path.get(path.as_str()) {
                Some(m2) => self.definition(*m2, &source.name, kind, seen),
                None => None,
            },
            None => None,
        }
    }

    fn in_stars(
        &self,
        stars: &Vec<Option<String>>,
        name: &String,
        kind: NameKind,
        seen: &mut Vec<(usize, String)>,
    ) -> (r: Option<(usize, String)>)
        ensures
            views(final(seen)@) == views(old(seen)@),
            opt_key(r) == find_in_stars(
                self@,
                opt_views(stars@),
                name@,
                kind,
                views(old(seen)@),
            ),
        decreases self.limit - old(seen)@.len(), 1int,
    {
        let ghost all = opt_views(stars@);
        let ghost start = views(seen@);
        let mut i: usize = 0;
        while i < stars.len()
            invariant
                i <= stars@.len(),
                all == opt_views(stars@),
                start == views(old(seen)@),
                views(seen@) == start,
                seen@.len() == old(seen)@.len(),
                find_in_stars(self@, all.take(i as int), name@, kind, start) is None,
            decreases stars@.len() - i,
        {
            proof {
                assert(all.take(i + 1).drop_last() =~= all.take(i as int));
                assert(all.take(i + 1).last() == opt_view(stars@[i as int]));
                assert(views(seen@).len() == seen@.len());
            }
            if let Some(path) = &stars[i] {
                if let Some(m2) = self.by_path.get(path.as_str()) {
                    let found = self.definition(*m2, name, kind, seen);
                    assert(views(seen@).len() == seen@.len());
                    if found.is_some() {
                        proof {
                            lemma_first_star(self@, all, name@, kind, start, i + 1);
                        }
                        return found;
                    }
                }
            }
            i += 1;
        }
        assert(all.take(i as int) =~= all);
        None
    }

    /// The module that an import of module `mid` reads from.
    pub fn imported_module(&self, mid: usize, local: &String) -> (r: Option<usize>)
        ensures
            r == import_module(self@, mid, local@),
    {
        if mid >= self.modules.len() {
            return None;
        }
        let m = &self.modules[mid];
        assert(self@.modules[mid as int] == m@);
        match m.imports.get(local.as_str()) {
            Some(source) => {
                assert(m@.imports[local@] == source@);
                match &source.path {
                    Some(path) => match self.by_path.get(path.as_str()) {
                        Some(m2) => Some(*m2),
                        None => None,
                    },
                    None => None,
                }
            },
            None => None,
        }
    }

    /// The declaration behind an imported name.
    pub fn imported(&self, mid: usize, local: &String, kind: NameKind) -> (r: Option<
        (usize, String),
    >)
        ensures
            opt_key(r) == imported_definition(self@, mid, local@, kind),
    {
        match self.imported_module(mid, local) {
            Some(m2) => {
                let m = &self.modules[mid];
                assert(self@.modules[mid as int] == m@);
                match m.imports.get(local.as_str()) {
                    Some(source) => {
                        assert(m@.imports[local@] == source@);
                        self.offered(m2, &source.name, kind)
                    },
                    None => None,
                }
            },
            None => None,
        }
    }

    /// The declaration that module `mid` offers under `name`.
    pub fn offered(&self, mid: usize, name: &String, kind: NameKind) -> (r: Option<(usize, String)>)
        ensures
            opt_key(r) == find_definition(self@, mid, name@, kind, Seq::empty()),
    {
        let mut seen: Vec<(usize, String)> = Vec::new();
        assert(views(seen@) =~= Seq::empty());
        self.definition(mid, name, kind, &mut seen)
    }

    fn step_to(&self, source: &ImportSource) -> (r: Option<(usize, String)>)
        ensures
            opt_key(r) == source_step(self@, source@),
    {
        match &source.path {
            Some(path) => match self.by_path.get(path.as_str()) {
                Some(m2) => Some((*m2, source.name.clone())),
                None => None,
            },
            None => None,
        }
    }

    fn star_target(
        &self,
        stars: &Vec<Option<String>>,
        name: &String,
        seen: &mut Vec<(usize, String)>,
    ) -> (r: Option<usize>)
        ensures
            views(final(seen)@) == views(old(seen)@),
            r == star_module(self@, opt_views(stars@), name@, views(old(seen)@)),
    {
        let ghost all = opt_views(stars@);
        let ghost start = views(seen@);
        let mut i: usize = 0;
        while i < stars.len()
            invariant
                i <= stars@.len(),
                all == opt_views(stars@),
                start == views(old(seen)@),
                views(seen@) == start,
                star_module(self@, all.take(i as int), name@, start) is None,
            decreases stars@.len() - i,
        {
            proof {
                assert(all.take(i + 1).drop_last() =~= all.take(i as int));
                assert(all.take(i + 1).last() == opt_view(stars@[i as int]));
            }
            if let Some(path) = &stars[i] {
                if let Some(m2) = self.by_path.get(path.as_str()) {
                    if self.definition(*m2, name, NameKind::Type, seen).is_some() {
                        proof {
                            lemma_first_star_module(self@, all, name@, start, i + 1);
                        }
                        return Some(*m2);
                    }
                }
            }
            i += 1;
        }
        assert(all.take(i as int) =~= all);
        None
    }

    fn next(&self, mid: usize, name: &String, seen: &mut Vec<(usize, String)>) -> (r: Option<
        (usize, String),
    >)
        requires
            mid < self@.modules.len(),
        ensures
            views(final(seen)@) == views(old(seen)@),
            opt_key(r) == next_step(self@, mid, name@, views(old(seen)@)),
    {
        let m = &self.modules[mid];
        assert(self@.modules[mid as int] == m@);
        let is_default = same_text(name.as_str(), "default");
        if is_default {
            if let Some(local) = &m.default_export {
                return Some((mid, local.clone()));
            }
        }
        match m.imports.get(name.as_str()) {
            Some(source) => {
                assert(m@.imports[name@] == source@);
                self.step_to(source)
            },
            None => match reexport_index(&m.reexports_named, name) {
                Some(i) => self.step_to(&m.reexports_named[i].source),
                None => {
                    if is_default {
                        return None;
                    }
                    match self.star_target(&m.reexports_star, name, seen) {
                        Some(m2) => Some((m2, name.clone())),
                        None => None,
                    }
                },
            },
        }
    }

    /// The steps in which a module looks up a type that it offers.
    fn steps_from(&self, mid: usize, name: &String) -> (r: Vec<(usize, String)>)
        ensures
            views(r@) == route(self@, mid, name@, Seq::empty()),
    {
        let mut at: usize = mid;
        let mut current: String = name.clone();
        let mut seen: Vec<(usize, String)> = Vec::new();
        let ghost whole = route(self@, mid, name@, Seq::empty());
        proof {
            assert(views(seen@) =~= Seq::empty());
            assert(Seq::<Key>::empty() + whole =~= whole);
        }
        while at < self.modules.len() && seen.len() < self.limit && !contains_key(
            &seen,
            at,
            &current,
        ) && !module_defines(&self.modules[at], &current, NameKind::Type)
            invariant
                whole == route(self@, mid, name@, Seq::empty()),
                whole == views(seen@) + route(self@, at, current@, views(seen@)),
                views(seen@).len() == seen@.len(),
            ensures
                whole == views(seen@).push((at, current@)),
            decreases self.limit - seen@.len(),
        {
            assert(self@.modules[at as int] == self.modules@[at as int]@);
            let ghost before = views(seen@);
            let ghost here = (at, current@);
            seen.push((at, current.clone()));
            assert(views(seen@) =~= before.push(here));
            match self.next(at, &current, &mut seen) {
                None => {
                    assert(whole =~= views(seen@));
                    return seen;
                },
                Some((m2, n2)) => {
                    proof {
                        assert(before.push(here) + route(self@, m2, n2@, before.push(here)) =~= before
                            + (seq![here] + route(self@, m2, n2@, before.push(here))));
                        assert(views(seen@).len() == seen@.len());
                    }
                    at = m2;
                    current = n2;
                },
            }
        }
        let ghost before = views(seen@);
        let last = (at, current);
        seen.push(last);
        assert(views(seen@) =~= before.push(last@));
        seen
    }

    /// The steps from a mention of a type in the code of module `mid`.
    fn steps_of(&self, mid: usize, name: &String) -> (r: Vec<(usize, String)>)
        ensures
            views(r@) == mention_steps(self@, mid, name@),
    {
        let mut out: Vec<(usize, String)> = Vec::new();
        let here = (mid, name.clone());
        out.push(here);
        assert(views(out@) =~= seq![here@]);
        if mid < self.modules.len() {
            assert(self@.modules[mid as int] == self.modules@[mid as int]@);
            if module_defines(&self.modules[mid], name, NameKind::Type) {
                return out;
            }
        }
        match self.imported_module(mid, name) {
            Some(m2) => {
                let m = &self.modules[mid];
                assert(self@.modules[mid as int] == m@);
                match m.imports.get(name.as_str()) {
                    Some(source) => {
                        assert(m@.imports[name@] == source@);
                        let mut rest = self.steps_from(m2, &source.name);
                        let ghost first = views(out@);
                        let ghost behind = views(rest@);
                        out.append(&mut rest);
                        assert(views(out@) =~= first + behind);
                        out
                    },
                    None => out,
                }
            },
            None => out,
        }
    }

    /// What `name` means to the code of module `mid`.
    pub fn local(&self, mid: usize, name: &String, kind: NameKind) -> (r: Option<(usize, String)>)
        ensures
            opt_key(r) == find_local(self@, mid, name@, kind),
    {
        if mid >= self.modules.len() {
            return None;
        }
        assert(self@.modules[mid as int] == self.modules@[mid as int]@);
        if module_defines(&self.modules[mid], name, kind) {
            return Some((mid, name.clone()));
        }
        self.imported(mid, name, kind)
    }
}

/// Once some star leads to a definition, later stars do not matter.
proof fn lemma_first_star(
    p: ProjectView,
    stars: Seq<Option<Seq<char>>>,
    name: Seq<char>,
    kind: NameKind,
    seen: Seq<Key>,
    k: int,
)
    requires
        0 <= k <= stars.len(),
        find_in_stars(p, stars.take(k), name, kind, seen) is Some,
    ensures
        find_in_stars(p, stars, name, kind, seen) == find_in_stars(
            p,
            stars.take(k),
            name,
            kind,
            seen,
        ),
    decreases stars.len() - k,
{
    if k == stars.len() {
        assert(stars.take(k) =~= stars);
    } else {
        assert(stars.take(k + 1).drop_last() =~= stars.take(k));
        lemma_first_star(p, stars, name, kind, seen, k + 1);
    }
}

/// Once some star leads to a type, later stars do not matter.
proof fn lemma_first_star_module(
    p: ProjectView,
    stars: Seq<Option<Seq<char>>>,
    name: Seq<char>,
    seen: Seq<Key>,
    k: int,
)
    requires
        0 <= k <= stars.len(),
        star_module(p, stars.take(k), name, seen) is Some,
    ensures
        star_module(p, stars, name, seen) == star_module(p, stars.take(k), name, seen),
    decreases stars.len() - k,
{
    if k == stars.len() {
        assert(stars.take(k) =~= stars);
    } else {
        assert(stars.take(k + 1).drop_last() =~= stars.take(k));
        lemma_first_star_module(p, stars, name, seen, k + 1);
    }
}

/// Pushes the steps onto the stack as long as none repeats, and gives the name
/// of the first that does.
fn push_steps(stack: &mut Vec<(usize, String)>, steps: &Vec<(usize, String)>) -> (r: Option<String>)
    ensures
        opt_view(r) == first_repeated(views(old(stack)@), views(steps@)),
        r is None ==> views(final(stack)@) == views(old(stack)@) + views(steps@),
        final(stack)@.len() >= old(stack)@.len(),
        views(final(stack)@).take(old(stack)@.len() as int) == views(old(stack)@),
{
    let ghost start = views(stack@);
    let ghost all = views(steps@);
    proof {
        assert(all.skip(0) =~= all);
        assert(start + all.take(0) =~= start);
    }
    let mut i: usize = 0;
    while i < steps.len()
        invariant
            i <= steps@.len(),
            start == views(old(stack)@),
            all == views(steps@),
            stack@.len() == start.len() + i,
            views(stack@) == start + all.take(i as int),
            first_repeated(start, all) == first_repeated(views(stack@), all.skip(i as int)),
        decreases steps@.len() - i,
    {
        proof {
            assert(all.skip(i as int)[0] == steps@[i as int]@);
            assert(all.skip(i as int).drop_first() =~= all.skip(i + 1));
            assert(views(stack@).take(start.len() as int) =~= start);
        }
        if contains_key(stack, steps[i].0, &steps[i].1) {
            return Some(steps[i].1.clone());
        }
        let ghost before = views(stack@);
        let key = (steps[i].0, steps[i].1.clone());
        stack.push(key);
        proof {
            assert(views(stack@) =~= before.push(key@));
            assert(views(stack@) =~= start + all.take(i + 1));
        }
        i += 1;
    }
    proof {
        assert(all.take(i as int) =~= all);
        assert(views(stack@).take(start.len() as int) =~= start);
    }
    None
}

/// Removes repetitions, keeping first occurrences.
fn dedupe(v: Vec<Ty>) -> (r: Vec<Ty>)
    ensures
        views(r@) == deduped(views(v@)),
{
    let ghost all = views(v@);
    let ghost items = v@;
    let mut out: Vec<Ty> = Vec::new();
    assert(views(out@) =~= deduped(all.take(0)));
    for t in it: v
        invariant
            it.seq() == items,
            all == views(items),
            views(out@) == deduped(all.take(it.index())),
    {
        proof {
            assert(all.take(it.index() + 1).drop_last() =~= all.take(it.index()));
            assert(all.take(it.index() + 1).last() == t@);
        }
        if !contains_ty(&out, &t) {
            let ghost before = views(out@);
            out.push(t);
            assert(views(out@) =~= before.push(t@));
        }
    }
    assert(all.take(all.len() as int) =~= all);
    out
}

/// Appends the constituents of a type.
fn extend_parts(out: &mut Vec<Ty>, t: Ty)
    ensures
        views(final(out)@) == views(old(out)@) + split_parts(t@),
{
    let ghost before = views(out@);
    match t {
        Ty::Union(parts) => {
            let ghost all = views(parts@);
            let ghost items = parts@;
            assert(views(out@) =~= before + all.take(0));
            for p in it: parts
                invariant
                    it.seq() == items,
                    all == views(items),
                    views(out@) == before + all.take(it.index()),
            {
                let ghost so_far = views(out@);
                out.push(p);
                assert(views(out@) =~= so_far.push(p@));
                assert(views(out@) =~= before + all.take(it.index() + 1));
            }
            assert(all.take(all.len() as int) =~= all);
        },
        other => {
            out.push(other);
            assert(views(out@) =~= before + seq![other@]);
        },
    }
}

/// The type of a property of a value.
fn project(t: &Ty, key: &String) -> (r: Ty)
    ensures
        r@ == projected(t@, key@),
    decreases t,
{
    match t {
        Ty::Object(props) => match prop_index(props, key) {
            Some(i) => if props[i].optional {
                add_undefined(&props[i].ty)
            } else {
                props[i].ty.copy()
            },
            None => Ty::AnyLike,
        },
        Ty::Union(parts) => {
            let ghost all = views(parts@);
            let mut out: Vec<Ty> = Vec::new();
            assert(views(out@) =~= projected_parts(all.take(0), key@));
            let mut i: usize = 0;
            while i < parts.len()
                invariant
                    i <= parts@.len(),
                    *t == Ty::Union(*parts),
                    all == views(parts@),
                    views(out@) == projected_parts(all.take(i as int), key@),
                decreases parts@.len() - i,
            {
                proof {
                    assert(decreases_to!(*t => t->Union_0));
                    assert(decreases_to!(t->Union_0 => parts@));
                    assert(decreases_to!(parts@ => parts@[i as int]));
                    assert(all.take(i + 1).drop_last() =~= all.take(i as int));
                }
                extend_parts(&mut out, project(&parts[i], key));
                i += 1;
            }
            assert(all.take(i as int) =~= all);
            Ty::Union(dedupe(out))
        },
        _ => Ty::AnyLike,
    }
}

/// The members of an enum as literal types.
fn enum_members(name: &String, members: &Vec<String>) -> (r: Vec<Ty>)
    ensures
        views(r@) == enum_literals(name@, views(members@)),
{
    let mut out: Vec<Ty> = Vec::new();
    let mut i: usize = 0;
    while i < members.len()
        invariant
            i <= members@.len(),
            out@.len() == i,
            forall|j: int|
                0 <= j < i ==> out@[j]@ == (TyView::EnumLit {
                    enum_name: name@,
                    member: members@[j]@,
                }),
        decreases members@.len() - i,
    {
        out.push(Ty::EnumLit { enum_name: name.clone(), member: members[i].clone() });
        i += 1;
    }
    assert(views(out@) =~= enum_literals(name@, views(members@)));
    out
}

fn contains_name(list: &Vec<String>, name: &String) -> (r: bool)
    ensures
        r == views(list@).contains(name@),
{
    let mut i: usize = 0;
    while i < list.len()
        invariant
            i <= list@.len(),
            forall|j: int| 0 <= j < i ==> list@[j]@ != name@,
        decreases list@.len() - i,
    {
        if list[i] == *name {
            assert(views(list@)[i as int] == name@);
            return true;
        }
        i += 1;
    }
    false
}

impl<'m> Resolver<'m> {
    /// What an annotation written in module `mid` means.
    pub fn resolve_expr(&self, te: &TypeExpr, mid: ModuleId) -> (r: Ty)
        ensures
            r@ == resolved(self@, te@, mid, Seq::empty(), 0),
    {
        let mut stack: Vec<(usize, String)> = Vec::new();
        assert(views(stack@) =~= Seq::empty());
        self.resolve_inner(te, mid, &mut stack, 0)
    }

    fn resolve_inner(
        &self,
        te: &TypeExpr,
        mid: ModuleId,
        stack: &mut Vec<(usize, String)>,
        depth: usize,
    ) -> (r: Ty)
        ensures
            views(final(stack)@) == views(old(stack)@),
            r@ == resolved(self@, te@, mid, views(old(stack)@), depth as nat),
        decreases CHAIN_LIMIT - depth, te, 1int,
    {
        match te {
            TypeExpr::Ref(name) => self.resolve_name(te, name, mid, stack, depth),
            TypeExpr::Union(parts) => {
                let ghost all = views(parts@);
                let ghost start = views(stack@);
                let mut out: Vec<Ty> = Vec::new();
                assert(views(out@) =~= resolved_parts(self@, all.take(0), mid, start, depth as nat));
                let mut i: usize = 0;
                while i < parts.len()
                    invariant
                        i <= parts@.len(),
                        *te == TypeExpr::Union(*parts),
                        all == views(parts@),
                        start == views(old(stack)@),
                        views(stack@) == start,
                        stack@.len() == old(stack)@.len(),
                        views(out@) == resolved_parts(self@, all.take(i as int), mid, start, depth as nat),
                    decreases parts@.len() - i,
                {
                    proof {
                        assert(decreases_to!(*te => te->Union_0));
                        assert(decreases_to!(te->Union_0 => parts@));
                        assert(decreases_to!(parts@ => parts@[i as int]));
                        assert(all.take(i + 1).drop_last() =~= all.take(i as int));
                    }
                    let t = self.resolve_inner(&parts[i], mid, stack, depth);
                    assert(views(stack@).len() == stack@.len());
                    extend_parts(&mut out, t);
                    i += 1;
                }
                assert(all.take(i as int) =~= all);
                Ty::Union(dedupe(out))
            },
            TypeExpr::ObjectLit(props) => {
                let ghost all = views(props@);
                let ghost start = views(stack@);
                let mut out: Vec<RProp> = Vec::new();
                assert(views(out@) =~= resolved_props(self@, all.take(0), mid, start, depth as nat));
                let mut i: usize = 0;
                while i < props.len()
                    invariant
                        i <= props@.len(),
                        *te == TypeExpr::ObjectLit(*props),
                        all == views(props@),
                        start == views(old(stack)@),
                        views(stack@) == start,
                        stack@.len() == old(stack)@.len(),
                        views(out@) == resolved_props(self@, all.take(i as int), mid, start, depth as nat),
                    decreases props@.len() - i,
                {
                    let p = &props[i];
                    proof {
                        assert(decreases_to!(*te => te->ObjectLit_0));
                        assert(decreases_to!(te->ObjectLit_0 => props@));
                        assert(decreases_to!(props@ => props@[i as int]));
                        assert(decreases_to!(props@[i as int] => props@[i as int].ty));
                        assert(all.take(i + 1).drop_last() =~= all.take(i as int));
                    }
                    let ty = self.resolve_inner(&p.ty, mid, stack, depth);
                    assert(views(stack@).len() == stack@.len());
                    let q = RProp { name: p.name.clone(), ty, optional: p.optional };
                    let ghost before = views(out@);
                    out.push(q);
                    assert(views(out@) =~= before.push(q@));
                    i += 1;
                }
                assert(all.take(i as int) =~= all);
                Ty::Object(out)
            },
            TypeExpr::Proj(base, key) => {
                let t = self.resolve_inner(base, mid, stack, depth);
                project(&t, key)
            },
            TypeExpr::StrLit(s) => Ty::StrLit(s.clone()),
            TypeExpr::NumLit(n) => Ty::NumLit(n.clone()),
            TypeExpr::BoolLit(b) => Ty::BoolLit(*b),
            TypeExpr::Str => Ty::Str,
            TypeExpr::Num => Ty::Num,
            TypeExpr::Bool => Ty::Bool,
            TypeExpr::Undefined => Ty::Undefined,
            TypeExpr::Null => Ty::Null,
            TypeExpr::Any => Ty::AnyLike,
            TypeExpr::Unknown => Ty::AnyLike,
            TypeExpr::Opaque(s) => Ty::Opaque(s.clone()),
        }
    }

    fn resolve_name(
        &self,
        te: &TypeExpr,
        name: &String,
        mid: ModuleId,
        stack: &mut Vec<(usize, String)>,
        depth: usize,
    ) -> (r: Ty)
        requires
            *te == TypeExpr::Ref(*name),
        ensures
            views(final(stack)@) == views(old(stack)@),
            r@ == resolved(self@, te@, mid, views(old(stack)@), depth as nat),
        decreases CHAIN_LIMIT - depth, te, 0int,
    {
        let steps = self.steps_of(mid, name);
        let ghost start = views(stack@);
        let held: usize = stack.len();
        proof {
            law_steps_end_at_the_declaration(self@, mid, name@);
            assert(views(steps@).len() == steps@.len());
            assert(views(steps@).last() == steps@.last()@);
            assert(start.len() == held);
        }
        let repeated: Option<String> = push_steps(stack, &steps);
        let ghost pushed = stack@;
        let r = match repeated {
            Some(n) => Ty::Opaque(n),
            None => {
                let last = &steps[steps.len() - 1];
                if last.0 >= self.modules.len() {
                    Ty::Opaque(last.1.clone())
                } else {
                    let m = &self.modules[last.0];
                    assert(self@.modules[last.0 as int] == m@);
                    match (m.enums.get(last.1.as_str()), m.type_aliases.get(last.1.as_str())) {
                        (Some(e), _) => {
                            assert(m@.enums[last.1@] == e@);
                            Ty::Union(enum_members(&last.1, &e.members))
                        },
                        (None, Some(alias)) => if depth < CHAIN_LIMIT {
                            assert(m@.type_aliases[last.1@] == alias@);
                            self.resolve_inner(alias, last.0, stack, depth + 1)
                        } else {
                            Ty::Opaque(last.1.clone())
                        },
                        (None, None) => Ty::Opaque(last.1.clone()),
                    }
                }
            },
        };
        stack.truncate(held);
        assert(views(stack@) =~= start);
        r
    }

    /// What an argument means in the module where the call stands.
    pub fn resolve_observed(&self, obs: &Observed, mid: ModuleId) -> (r: Ty)
        ensures
            r@ == resolved_observed(self@, obs@, mid),
        decreases obs,
    {
        match obs {
            Observed::StrLit(s) => Ty::StrLit(s.clone()),
            Observed::NumLit(n) => Ty::NumLit(n.clone()),
            Observed::BoolLit(b) => Ty::BoolLit(*b),
            Observed::Undefined => Ty::Undefined,
            Observed::Null => Ty::Null,
            Observed::Typed(te) => self.resolve_expr(te, mid),
            Observed::EnumMember { enum_name, member } => {
                match self.local(mid, enum_name, NameKind::Type) {
                    None => Ty::AnyLike,
                    Some((m2, n2)) => {
                        proof {
                            lemma_local_in_range(self@, mid, enum_name@, NameKind::Type);
                        }
                        let m = &self.modules[m2];
                        assert(self@.modules[m2 as int] == m@);
                        match m.enums.get(n2.as_str()) {
                            Some(e) => {
                                assert(m@.enums[n2@] == e@);
                                if contains_name(&e.members, member) {
                                    Ty::EnumLit { enum_name: n2, member: member.clone() }
                                } else {
                                    Ty::AnyLike
                                }
                            },
                            None => Ty::AnyLike,
                        }
                    },
                }
            },
            Observed::Object(props) => {
                let ghost all = views(props@);
                let mut out: Vec<RProp> = Vec::new();
                assert(views(out@) =~= resolved_object(self@, all.take(0), mid));
                let mut i: usize = 0;
                while i < props.len()
                    invariant
                        i <= props@.len(),
                        *obs == Observed::Object(*props),
                        all == views(props@),
                        views(out@) == resolved_object(self@, all.take(i as int), mid),
                    decreases props@.len() - i,
                {
                    let p = &props[i];
                    proof {
                        assert(decreases_to!(*obs => obs->Object_0));
                        assert(decreases_to!(obs->Object_0 => props@));
                        assert(decreases_to!(props@ => props@[i as int]));
                        assert(decreases_to!(props@[i as int] => props@[i as int].1));
                        assert(all.take(i + 1).drop_last() =~= all.take(i as int));
                    }
                    let q = RProp {
                        name: p.0.clone(),
                        ty: self.resolve_observed(&p.1, mid),
                        optional: false,
                    };
                    let ghost before = views(out@);
                    out.push(q);
                    assert(views(out@) =~= before.push(q@));
                    i += 1;
                }
                assert(all.take(i as int) =~= all);
                Ty::Object(out)
            },
            Observed::Opaque => Ty::AnyLike,
        }
    }
}

} // verus!

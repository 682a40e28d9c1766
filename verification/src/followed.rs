//! What names lead to, across modules, and what is said of what they name.

use vstd::prelude::*;

use crate::model::{
    DeclView, ImportView, ModuleView, ObjPropView, ObservedView, OwnerView, ReExportView,
    TargetView, TypeExprView,
};
use crate::resolve::{
    defines, find_definition, find_in_stars, find_local, find_reexport, first_repeated, home_name,
    law_deduped, mention_steps, resolved, resolved_object, resolved_observed, resolved_parts,
    resolved_props, route, Key, NameKind, ProjectView,
};
use crate::taint::{
    attributed, covered, covers_decl, escaped, is_star_path, last_decl, lets_escape, offers,
    reexport_target, reexports, star_edge, star_leads, star_reaches, usage_taints, TaintView,
};
use crate::ty::{split_parts, RPropView, TyView};

verus! {

// ---------------------------------------------------------------------------
// Declarations
// ---------------------------------------------------------------------------

/// Whether a declaration of a module makes `name` stand for something: a
/// function of that name, or a member of a class or object of that name.
pub open spec fn brings(d: DeclView, name: Seq<char>) -> bool {
    ||| d.owner is Free && d.name == name
    ||| d.owner == OwnerView::Class(name)
    ||| d.owner == OwnerView::ObjectConst(name)
}

/// Whether a module declares a value of the given name.
pub open spec fn holds_value(m: ModuleView, name: Seq<char>) -> bool {
    exists|i: int| 0 <= i < m.decls.len() && brings(#[trigger] m.decls[i], name)
}

/// Whether a module declares a type of the given name.
pub open spec fn holds_type(m: ModuleView, name: Seq<char>) -> bool {
    m.enums.contains_key(name) || m.type_aliases.contains_key(name)
}

/// Whether a module declares `name` itself, as a type or as a value.
pub open spec fn holds(m: ModuleView, name: Seq<char>, kind: NameKind) -> bool {
    match kind {
        NameKind::Type => holds_type(m, name),
        NameKind::Value => holds_value(m, name),
    }
}

proof fn lemma_holds(m: ModuleView, name: Seq<char>, kind: NameKind)
    ensures
        defines(m, name, kind) == holds(m, name, kind),
{
    if kind == NameKind::Value {
        if holds_value(m, name) {
            let i = choose|i: int| 0 <= i < m.decls.len() && brings(#[trigger] m.decls[i], name);
            assert(home_name(m.decls[i]) == name);
        }
        if defines(m, name, kind) {
            let i = choose|i: int|
                0 <= i < m.decls.len() && home_name(#[trigger] m.decls[i]) == name;
            assert(brings(m.decls[i], name));
        }
    }
}

/// A name that a module declares is found there, whatever it imports or hands
/// on.
pub proof fn law_declared_names_are_found(
    p: ProjectView,
    mid: usize,
    name: Seq<char>,
    kind: NameKind,
)
    requires
        mid < p.modules.len(),
        p.limit > 0,
        holds(p.modules[mid as int], name, kind),
    ensures
        find_definition(p, mid, name, kind, Seq::empty()) == Some((mid, name)),
        find_local(p, mid, name, kind) == Some((mid, name)),
{
    lemma_holds(p.modules[mid as int], name, kind);
}

/// Whether an import or re-export takes `name` from module `m`.
pub open spec fn comes_from(p: ProjectView, source: ImportView, m: usize, name: Seq<char>) -> bool {
    &&& source.path is Some
    &&& p.by_path.contains_key(source.path->0)
    &&& p.by_path[source.path->0] == m
    &&& source.name == name
}

proof fn lemma_found_next(
    p: ProjectView,
    mid: usize,
    name: Seq<char>,
    m2: usize,
    n2: Seq<char>,
    kind: NameKind,
)
    requires
        mid < p.modules.len(),
        m2 < p.modules.len(),
        p.limit >= 2,
        !holds(p.modules[mid as int], name, kind),
        holds(p.modules[m2 as int], n2, kind),
    ensures
        find_definition(p, m2, n2, kind, Seq::<Key>::empty().push((mid, name))) == Some((m2, n2)),
{
    lemma_holds(p.modules[mid as int], name, kind);
    lemma_holds(p.modules[m2 as int], n2, kind);
    let seen = Seq::<Key>::empty().push((mid, name));
    if seen.contains((m2, n2)) {
        let i = choose|i: int| 0 <= i < seen.len() && seen[i] == (m2, n2);
        assert(seen[i] == (mid, name));
    }
}

/// An imported name leads to what the other module declares under the name it
/// was imported by, both where it is used and where it is handed on.
pub proof fn law_imports_lead_on(
    p: ProjectView,
    mid: usize,
    name: Seq<char>,
    m2: usize,
    n2: Seq<char>,
    kind: NameKind,
)
    requires
        mid < p.modules.len(),
        m2 < p.modules.len(),
        p.limit >= 2,
        !holds(p.modules[mid as int], name, kind),
        p.modules[mid as int].imports.contains_key(name),
        comes_from(p, p.modules[mid as int].imports[name], m2, n2),
        holds(p.modules[m2 as int], n2, kind),
    ensures
        find_local(p, mid, name, kind) == Some((m2, n2)),
        name != "default"@ ==> find_definition(p, mid, name, kind, Seq::empty()) == Some((m2, n2)),
{
    lemma_holds(p.modules[mid as int], name, kind);
    lemma_found_next(p, mid, name, m2, n2, kind);
    law_declared_names_are_found(p, m2, n2, kind);
    reveal_with_fuel(find_definition, 2);
}

/// Whether the last re-export under the given name is the one at position `r`.
pub open spec fn hands_on(list: Seq<ReExportView>, r: int, name: Seq<char>) -> bool {
    &&& 0 <= r < list.len()
    &&& list[r].exported == name
    &&& forall|j: int| r < j < list.len() ==> (#[trigger] list[j]).exported != name
}

proof fn lemma_reexport_found(list: Seq<ReExportView>, r: int, name: Seq<char>)
    requires
        hands_on(list, r, name),
    ensures
        find_reexport(list, name) == Some(list[r].source),
    decreases list.len(),
{
    if r < list.len() - 1 {
        assert(list[list.len() - 1].exported != name);
        let front = list.drop_last();
        assert forall|j: int| r < j < front.len() implies (#[trigger] front[j]).exported
            != name by {
            assert(list[j] == front[j]);
        }
        lemma_reexport_found(front, r, name);
    }
}

proof fn lemma_no_reexport(list: Seq<ReExportView>, name: Seq<char>)
    requires
        forall|j: int| 0 <= j < list.len() ==> (#[trigger] list[j]).exported != name,
    ensures
        find_reexport(list, name) is None,
    decreases list.len(),
{
    if list.len() > 0 {
        assert(list[list.len() - 1].exported != name);
        let front = list.drop_last();
        assert forall|j: int| 0 <= j < front.len() implies (#[trigger] front[j]).exported
            != name by {
            assert(list[j] == front[j]);
        }
        lemma_no_reexport(front, name);
    }
}

/// A name that is re-exported leads importers to what the other module
/// declares under the name it is taken by.
pub proof fn law_reexports_lead_on(
    p: ProjectView,
    mid: usize,
    name: Seq<char>,
    r: int,
    m2: usize,
    n2: Seq<char>,
    kind: NameKind,
)
    requires
        mid < p.modules.len(),
        m2 < p.modules.len(),
        p.limit >= 2,
        name == "default"@ ==> p.modules[mid as int].default_export is None,
        !holds(p.modules[mid as int], name, kind),
        !p.modules[mid as int].imports.contains_key(name),
        hands_on(p.modules[mid as int].reexports_named, r, name),
        comes_from(p, p.modules[mid as int].reexports_named[r].source, m2, n2),
        holds(p.modules[m2 as int], n2, kind),
    ensures
        find_definition(p, mid, name, kind, Seq::empty()) == Some((m2, n2)),
        find_local(p, mid, name, kind) is None,
{
    lemma_holds(p.modules[mid as int], name, kind);
    lemma_found_next(p, mid, name, m2, n2, kind);
    lemma_reexport_found(p.modules[mid as int].reexports_named, r, name);
    reveal_with_fuel(find_definition, 2);
}

/// The default export of a module leads to what it names.
pub proof fn law_default_export_leads_on(
    p: ProjectView,
    mid: usize,
    name: Seq<char>,
    kind: NameKind,
)
    requires
        mid < p.modules.len(),
        p.limit >= 2,
        p.modules[mid as int].default_export == Some(name),
        holds(p.modules[mid as int], name, kind),
        !holds(p.modules[mid as int], "default"@, kind),
    ensures
        find_definition(p, mid, "default"@, kind, Seq::empty()) == Some((mid, name)),
{
    lemma_holds(p.modules[mid as int], "default"@, kind);
    lemma_found_next(p, mid, "default"@, mid, name, kind);
    reveal_with_fuel(find_definition, 2);
}

/// Whether nothing but star re-exports can lead on from a module.
pub open spec fn only_stars(m: ModuleView, name: Seq<char>, kind: NameKind) -> bool {
    &&& !holds(m, name, kind)
    &&& !m.imports.contains_key(name)
    &&& forall|j: int|
        0 <= j < m.reexports_named.len() ==> (#[trigger] m.reexports_named[j]).exported != name
}

/// Whether a star re-export leads to no module of the project.
pub open spec fn leads_out(p: ProjectView, star: Option<Seq<char>>) -> bool {
    star is None || !p.by_path.contains_key(star->0)
}

proof fn lemma_star_found(
    p: ProjectView,
    stars: Seq<Option<Seq<char>>>,
    s: int,
    m2: usize,
    name: Seq<char>,
    kind: NameKind,
    seen: Seq<Key>,
)
    requires
        0 <= s < stars.len(),
        stars[s] is Some,
        p.by_path.contains_key(stars[s]->0),
        p.by_path[stars[s]->0] == m2,
        find_definition(p, m2, name, kind, seen) is Some,
        forall|j: int| 0 <= j < s ==> leads_out(p, #[trigger] stars[j]),
    ensures
        find_in_stars(p, stars, name, kind, seen) == find_definition(p, m2, name, kind, seen),
    decreases stars.len(),
{
    let front = stars.drop_last();
    if s < stars.len() - 1 {
        assert(front[s] == stars[s]);
        assert forall|j: int| 0 <= j < s implies leads_out(p, #[trigger] front[j]) by {
            assert(stars[j] == front[j]);
        }
        lemma_star_found(p, front, s, m2, name, kind, seen);
    } else {
        assert forall|j: int| 0 <= j < front.len() implies leads_out(p, #[trigger] front[j]) by {
            assert(stars[j] == front[j]);
        }
        lemma_stars_lead_out(p, front, name, kind, seen);
    }
}

proof fn lemma_stars_lead_out(
    p: ProjectView,
    stars: Seq<Option<Seq<char>>>,
    name: Seq<char>,
    kind: NameKind,
    seen: Seq<Key>,
)
    requires
        forall|j: int| 0 <= j < stars.len() ==> leads_out(p, #[trigger] stars[j]),
    ensures
        find_in_stars(p, stars, name, kind, seen) is None,
    decreases stars.len(),
{
    if stars.len() > 0 {
        assert(leads_out(p, stars[stars.len() - 1]));
        let front = stars.drop_last();
        assert forall|j: int| 0 <= j < front.len() implies leads_out(p, #[trigger] front[j]) by {
            assert(stars[j] == front[j]);
        }
        lemma_stars_lead_out(p, front, name, kind, seen);
    }
}

/// What a module re-exports as a whole is found there: its importers reach the
/// names that the other module declares.
pub proof fn law_star_reexports_lead_on(
    p: ProjectView,
    mid: usize,
    name: Seq<char>,
    s: int,
    m2: usize,
    kind: NameKind,
)
    requires
        mid < p.modules.len(),
        m2 < p.modules.len(),
        p.limit >= 2,
        name != "default"@,
        only_stars(p.modules[mid as int], name, kind),
        0 <= s < p.modules[mid as int].reexports_star.len(),
        p.modules[mid as int].reexports_star[s] is Some,
        p.by_path.contains_key(p.modules[mid as int].reexports_star[s]->0),
        p.by_path[p.modules[mid as int].reexports_star[s]->0] == m2,
        forall|j: int|
            0 <= j < s ==> leads_out(p, #[trigger] p.modules[mid as int].reexports_star[j]),
        holds(p.modules[m2 as int], name, kind),
    ensures
        find_definition(p, mid, name, kind, Seq::empty()) == Some((m2, name)),
{
    let m = p.modules[mid as int];
    lemma_holds(m, name, kind);
    lemma_found_next(p, mid, name, m2, name, kind);
    lemma_no_reexport(m.reexports_named, name);
    let seen = Seq::<Key>::empty().push((mid, name));
    lemma_star_found(p, m.reexports_star, s, m2, name, kind, seen);
}

/// What a module neither declares nor imports nor hands on is not found; a
/// re-export of everything hands no default export on, and to the code of the
/// module itself re-exports mean nothing.
pub proof fn law_other_names_are_not_found(
    p: ProjectView,
    mid: usize,
    name: Seq<char>,
    kind: NameKind,
)
    requires
        mid < p.modules.len(),
        only_stars(p.modules[mid as int], name, kind),
    ensures
        find_local(p, mid, name, kind) is None,
        name == "default"@ && p.modules[mid as int].default_export is None ==> find_definition(
            p,
            mid,
            name,
            kind,
            Seq::empty(),
        ) is None,
        name != "default"@ && (forall|j: int|
            0 <= j < p.modules[mid as int].reexports_star.len() ==> leads_out(
                p,
                #[trigger] p.modules[mid as int].reexports_star[j],
            )) ==> find_definition(p, mid, name, kind, Seq::empty()) is None,
{
    let m = p.modules[mid as int];
    lemma_holds(m, name, kind);
    lemma_no_reexport(m.reexports_named, name);
    let seen = Seq::<Key>::empty().push((mid, name));
    if forall|j: int| 0 <= j < m.reexports_star.len() ==> leads_out(p, #[trigger] m.reexports_star[j]) {
        lemma_stars_lead_out(p, m.reexports_star, name, kind, seen);
    }
}

/// An import from a module that is not part of the project leads nowhere.
pub proof fn law_outside_imports_lead_nowhere(
    p: ProjectView,
    mid: usize,
    name: Seq<char>,
    kind: NameKind,
)
    requires
        mid < p.modules.len(),
        !holds(p.modules[mid as int], name, kind),
        p.modules[mid as int].imports.contains_key(name),
        leads_out(p, p.modules[mid as int].imports[name].path),
    ensures
        find_local(p, mid, name, kind) is None,
        name != "default"@ ==> find_definition(p, mid, name, kind, Seq::empty()) is None,
{
    lemma_holds(p.modules[mid as int], name, kind);
}

// ---------------------------------------------------------------------------
// Annotations
// ---------------------------------------------------------------------------

/// Keywords and literals mean themselves, in every module.
pub proof fn law_plain_annotations(
    p: ProjectView,
    mid: usize,
    stack: Seq<Key>,
    depth: nat,
    text: Seq<char>,
    b: bool,
)
    ensures
        resolved(p, TypeExprView::Str, mid, stack, depth) == TyView::Str,
        resolved(p, TypeExprView::Num, mid, stack, depth) == TyView::Num,
        resolved(p, TypeExprView::Bool, mid, stack, depth) == TyView::Bool,
        resolved(p, TypeExprView::Undefined, mid, stack, depth) == TyView::Undefined,
        resolved(p, TypeExprView::Null, mid, stack, depth) == TyView::Null,
        resolved(p, TypeExprView::Any, mid, stack, depth) == TyView::AnyLike,
        resolved(p, TypeExprView::Unknown, mid, stack, depth) == TyView::AnyLike,
        resolved(p, TypeExprView::StrLit(text), mid, stack, depth) == TyView::StrLit(text),
        resolved(p, TypeExprView::BoolLit(b), mid, stack, depth) == TyView::BoolLit(b),
        resolved(p, TypeExprView::Opaque(text), mid, stack, depth) == TyView::Opaque(text),
{
}

/// Number literals mean themselves.
pub proof fn law_number_annotations(
    p: ProjectView,
    mid: usize,
    stack: Seq<Key>,
    depth: nat,
    te: TypeExprView,
    o: ObservedView,
)
    requires
        te is NumLit,
        o is NumLit,
    ensures
        resolved(p, te, mid, stack, depth) == TyView::NumLit(te->NumLit_0),
        resolved_observed(p, o, mid) == TyView::NumLit(o->NumLit_0),
{
}

/// Whether an annotation names no other type.
pub open spec fn names_nothing(te: TypeExprView) -> bool
    decreases te,
{
    match te {
        TypeExprView::Ref(_) => false,
        TypeExprView::Union(parts) => forall|i: int|
            0 <= i < parts.len() ==> names_nothing(#[trigger] parts[i]),
        TypeExprView::ObjectLit(props) => forall|i: int|
            0 <= i < props.len() ==> names_nothing((#[trigger] props[i]).ty),
        TypeExprView::Proj(base, _) => names_nothing(*base),
        _ => true,
    }
}

/// An annotation that names no other type means the same wherever it is
/// written, and however many names led to it.
pub proof fn law_closed_annotations(
    p: ProjectView,
    te: TypeExprView,
    m1: usize,
    s1: Seq<Key>,
    d1: nat,
    m2: usize,
    s2: Seq<Key>,
    d2: nat,
)
    requires
        names_nothing(te),
    ensures
        resolved(p, te, m1, s1, d1) == resolved(p, te, m2, s2, d2),
    decreases te, 0int,
{
    match te {
        TypeExprView::Union(parts) => {
            let u = TypeExprView::Union(parts);
            assert forall|i: int| 0 <= i < parts.len() implies names_nothing(#[trigger] parts[i]) by {
                assert(names_nothing(u->Union_0[i]));
            }
            lemma_closed_parts(p, parts, m1, s1, d1, m2, s2, d2);
        },
        TypeExprView::ObjectLit(props) => {
            let u = TypeExprView::ObjectLit(props);
            assert forall|i: int| 0 <= i < props.len() implies names_nothing(
                (#[trigger] props[i]).ty,
            ) by {
                assert(names_nothing(u->ObjectLit_0[i].ty));
            }
            lemma_closed_props(p, props, m1, s1, d1, m2, s2, d2);
        },
        TypeExprView::Proj(base, _) => {
            law_closed_annotations(p, *base, m1, s1, d1, m2, s2, d2);
        },
        _ => {},
    }
}

proof fn lemma_closed_parts(
    p: ProjectView,
    parts: Seq<TypeExprView>,
    m1: usize,
    s1: Seq<Key>,
    d1: nat,
    m2: usize,
    s2: Seq<Key>,
    d2: nat,
)
    requires
        forall|i: int| 0 <= i < parts.len() ==> names_nothing(#[trigger] parts[i]),
    ensures
        resolved_parts(p, parts, m1, s1, d1) == resolved_parts(p, parts, m2, s2, d2),
    decreases parts, 1int,
{
    if parts.len() > 0 {
        let front = parts.drop_last();
        assert forall|i: int| 0 <= i < front.len() implies names_nothing(#[trigger] front[i]) by {
            assert(parts[i] == front[i]);
        }
        lemma_closed_parts(p, front, m1, s1, d1, m2, s2, d2);
        law_closed_annotations(p, parts[parts.len() - 1], m1, s1, d1, m2, s2, d2);
    }
}

proof fn lemma_closed_props(
    p: ProjectView,
    props: Seq<ObjPropView>,
    m1: usize,
    s1: Seq<Key>,
    d1: nat,
    m2: usize,
    s2: Seq<Key>,
    d2: nat,
)
    requires
        forall|i: int| 0 <= i < props.len() ==> names_nothing((#[trigger] props[i]).ty),
    ensures
        resolved_props(p, props, m1, s1, d1) == resolved_props(p, props, m2, s2, d2),
    decreases props, 1int,
{
    if props.len() > 0 {
        let front = props.drop_last();
        assert forall|i: int| 0 <= i < front.len() implies names_nothing(
            (#[trigger] front[i]).ty,
        ) by {
            assert(props[i] == front[i]);
        }
        lemma_closed_props(p, front, m1, s1, d1, m2, s2, d2);
        law_closed_annotations(p, props[props.len() - 1].ty, m1, s1, d1, m2, s2, d2);
    }
}

proof fn lemma_one_step(mid: usize, name: Seq<char>)
    ensures
        first_repeated(Seq::<Key>::empty(), seq![(mid, name)]) is None,
{
    reveal_with_fuel(first_repeated, 2);
    let steps: Seq<Key> = seq![(mid, name)];
    assert(steps.drop_first() =~= Seq::<Key>::empty());
}

proof fn lemma_two_steps(a: Key, b: Key)
    requires
        a != b,
    ensures
        first_repeated(Seq::<Key>::empty(), seq![a, b]) is None,
{
    reveal_with_fuel(first_repeated, 3);
    let steps: Seq<Key> = seq![a, b];
    assert(steps.drop_first() =~= seq![b]);
    let stack = Seq::<Key>::empty().push(a);
    if stack.contains(b) {
        let i = choose|i: int| 0 <= i < stack.len() && stack[i] == b;
        assert(stack[i] == a);
    }
    assert(steps.drop_first().drop_first() =~= Seq::<Key>::empty());
}

/// A name that a module gives to a type means that type; one that it gives to
/// an enum means the union of its members.
pub proof fn law_named_types(p: ProjectView, mid: usize, name: Seq<char>)
    requires
        mid < p.modules.len(),
        holds_type(p.modules[mid as int], name),
    ensures
        ({
            let m = p.modules[mid as int];
            let t = resolved(p, TypeExprView::Ref(name), mid, Seq::empty(), 0);
            if m.enums.contains_key(name) {
                &&& t is Union
                &&& t->Union_0.len() == m.enums[name].len()
                &&& forall|i: int|
                    0 <= i < m.enums[name].len() ==> #[trigger] t->Union_0[i] == (TyView::EnumLit {
                        enum_name: name,
                        member: m.enums[name][i],
                    })
            } else {
                names_nothing(m.type_aliases[name]) ==> t == resolved(
                    p,
                    m.type_aliases[name],
                    mid,
                    Seq::empty(),
                    0,
                )
            }
        }),
{
    let m = p.modules[mid as int];
    let here: Seq<Key> = seq![(mid, name)];
    lemma_one_step(mid, name);
    assert(mention_steps(p, mid, name) == here);
    assert(here.last() == (mid, name));
    if !m.enums.contains_key(name) && names_nothing(m.type_aliases[name]) {
        law_closed_annotations(
            p,
            m.type_aliases[name],
            mid,
            Seq::<Key>::empty() + here,
            1,
            mid,
            Seq::empty(),
            0,
        );
    }
}

/// Whether a module imports a type that another module declares.
pub open spec fn takes_type(
    p: ProjectView,
    mid: usize,
    name: Seq<char>,
    m2: usize,
    n2: Seq<char>,
) -> bool {
    &&& mid < p.modules.len()
    &&& m2 < p.modules.len()
    &&& p.limit > 0
    &&& !holds_type(p.modules[mid as int], name)
    &&& p.modules[mid as int].imports.contains_key(name)
    &&& comes_from(p, p.modules[mid as int].imports[name], m2, n2)
    &&& holds_type(p.modules[m2 as int], n2)
}

/// An imported name of a type means what it means in its own module; the
/// members of an enum go by the name that it is declared under.
pub proof fn law_imported_types(
    p: ProjectView,
    mid: usize,
    name: Seq<char>,
    m2: usize,
    n2: Seq<char>,
)
    requires
        takes_type(p, mid, name, m2, n2),
    ensures
        ({
            let m = p.modules[m2 as int];
            let t = resolved(p, TypeExprView::Ref(name), mid, Seq::empty(), 0);
            if m.enums.contains_key(n2) {
                &&& t is Union
                &&& t->Union_0.len() == m.enums[n2].len()
                &&& forall|i: int|
                    0 <= i < m.enums[n2].len() ==> #[trigger] t->Union_0[i] == (TyView::EnumLit {
                        enum_name: n2,
                        member: m.enums[n2][i],
                    })
            } else {
                names_nothing(m.type_aliases[n2]) ==> t == resolved(
                    p,
                    m.type_aliases[n2],
                    m2,
                    Seq::empty(),
                    0,
                )
            }
        }),
{
    let m = p.modules[m2 as int];
    let steps: Seq<Key> = seq![(mid, name), (m2, n2)];
    assert(route(p, m2, n2, Seq::empty()) =~= seq![(m2, n2)]);
    assert(mention_steps(p, mid, name) =~= steps);
    lemma_two_steps((mid, name), (m2, n2));
    assert(steps.last() == (m2, n2));
    if !m.enums.contains_key(n2) && names_nothing(m.type_aliases[n2]) {
        law_closed_annotations(
            p,
            m.type_aliases[n2],
            m2,
            Seq::<Key>::empty() + steps,
            1,
            m2,
            Seq::empty(),
            0,
        );
    }
}

proof fn lemma_third_step(a: Key, b: Key, c: Key)
    requires
        c != a,
        c != b,
    ensures
        first_repeated(Seq::<Key>::empty() + seq![a, b], seq![c]) is None,
{
    reveal_with_fuel(first_repeated, 2);
    let stack = Seq::<Key>::empty() + seq![a, b];
    let steps: Seq<Key> = seq![c];
    if stack.contains(c) {
        let i = choose|i: int| 0 <= i < stack.len() && stack[i] == c;
        assert(stack[i] == a || stack[i] == b);
    }
    assert(steps.drop_first() =~= Seq::<Key>::empty());
}

/// The names in a type are read in the module that declares it, not in the one
/// that imports it.
pub proof fn law_types_are_read_where_declared(
    p: ProjectView,
    mid: usize,
    name: Seq<char>,
    m2: usize,
    n2: Seq<char>,
    inner: Seq<char>,
)
    requires
        takes_type(p, mid, name, m2, n2),
        !p.modules[m2 as int].enums.contains_key(n2),
        p.modules[m2 as int].type_aliases[n2] == TypeExprView::Ref(inner),
        inner != n2,
        (m2, inner) != (mid, name),
        !p.modules[m2 as int].enums.contains_key(inner),
        p.modules[m2 as int].type_aliases.contains_key(inner),
        names_nothing(p.modules[m2 as int].type_aliases[inner]),
    ensures
        resolved(p, TypeExprView::Ref(name), mid, Seq::empty(), 0) == resolved(
            p,
            p.modules[m2 as int].type_aliases[inner],
            m2,
            Seq::empty(),
            0,
        ),
{
    let m = p.modules[m2 as int];
    let steps: Seq<Key> = seq![(mid, name), (m2, n2)];
    assert(route(p, m2, n2, Seq::empty()) =~= seq![(m2, n2)]);
    assert(mention_steps(p, mid, name) =~= steps);
    lemma_two_steps((mid, name), (m2, n2));
    assert(steps.last() == (m2, n2));
    let stack = Seq::<Key>::empty() + steps;
    let last: Seq<Key> = seq![(m2, inner)];
    assert(mention_steps(p, m2, inner) == last);
    assert(last.last() == (m2, inner));
    lemma_third_step((mid, name), (m2, n2), (m2, inner));
    reveal_with_fuel(resolved, 3);
    law_closed_annotations(
        p,
        m.type_aliases[inner],
        m2,
        stack + last,
        2,
        m2,
        Seq::empty(),
        0,
    );
}

/// A name of a type that is nowhere declared stays opaque, under that name.
pub proof fn law_unknown_types_are_opaque(p: ProjectView, mid: usize, name: Seq<char>)
    requires
        mid < p.modules.len(),
        !holds_type(p.modules[mid as int], name),
        !p.modules[mid as int].imports.contains_key(name) || leads_out(
            p,
            p.modules[mid as int].imports[name].path,
        ),
    ensures
        resolved(p, TypeExprView::Ref(name), mid, Seq::empty(), 0) == TyView::Opaque(name),
{
    let here: Seq<Key> = seq![(mid, name)];
    lemma_one_step(mid, name);
    assert(mention_steps(p, mid, name) == here);
    assert(here.last() == (mid, name));
}

/// Whether a type is one of those that a type says a value may have.
pub open spec fn is_choice(t: TyView, of: TyView) -> bool {
    if of is Union {
        of->Union_0.contains(t)
    } else {
        t == of
    }
}

proof fn lemma_part_choices(
    p: ProjectView,
    parts: Seq<TypeExprView>,
    mid: usize,
    stack: Seq<Key>,
    depth: nat,
    t: TyView,
)
    ensures
        resolved_parts(p, parts, mid, stack, depth).contains(t) <==> exists|i: int|
            0 <= i < parts.len() && is_choice(t, resolved(p, #[trigger] parts[i], mid, stack, depth)),
    decreases parts.len(),
{
    let all = resolved_parts(p, parts, mid, stack, depth);
    if parts.len() > 0 {
        let front = parts.drop_last();
        let n = parts.len() - 1;
        let before = resolved_parts(p, front, mid, stack, depth);
        let last = resolved(p, parts[n], mid, stack, depth);
        let here = split_parts(last);
        lemma_part_choices(p, front, mid, stack, depth, t);
        assert(all == before + here);
        if all.contains(t) {
            let k = choose|k: int| 0 <= k < all.len() && all[k] == t;
            if k < before.len() {
                assert(before[k] == t);
                let i = choose|i: int|
                    0 <= i < front.len() && is_choice(
                        t,
                        resolved(p, #[trigger] front[i], mid, stack, depth),
                    );
                assert(parts[i] == front[i]);
            } else {
                assert(here[k - before.len()] == t);
                assert(is_choice(t, resolved(p, parts[n], mid, stack, depth)));
            }
        }
        if exists|i: int|
            0 <= i < parts.len() && is_choice(
                t,
                resolved(p, #[trigger] parts[i], mid, stack, depth),
            ) {
            let i = choose|i: int|
                0 <= i < parts.len() && is_choice(
                    t,
                    resolved(p, #[trigger] parts[i], mid, stack, depth),
                );
            if i < n {
                assert(front[i] == parts[i]);
                let k = choose|k: int| 0 <= k < before.len() && before[k] == t;
                assert(all[k] == t);
            } else if last is Union {
                let k = choose|k: int| 0 <= k < last->Union_0.len() && last->Union_0[k] == t;
                assert(all[before.len() + k] == t);
            } else {
                assert(here[0] == t);
                assert(all[before.len() as int] == t);
            }
        }
    }
}

/// A written union has just the constituents that its parts have, each once.
pub proof fn law_written_unions(
    p: ProjectView,
    parts: Seq<TypeExprView>,
    mid: usize,
    stack: Seq<Key>,
    depth: nat,
    t: TyView,
)
    ensures
        ({
            let u = resolved(p, TypeExprView::Union(parts), mid, stack, depth);
            &&& u is Union
            &&& u->Union_0.no_duplicates()
            &&& u->Union_0.contains(t) <==> exists|i: int|
                0 <= i < parts.len() && is_choice(
                    t,
                    resolved(p, #[trigger] parts[i], mid, stack, depth),
                )
        }),
{
    law_deduped(resolved_parts(p, parts, mid, stack, depth));
    lemma_part_choices(p, parts, mid, stack, depth, t);
}

/// A written object type has just the properties that are written, each with
/// its name, its type and whether it may be left out.
pub proof fn law_written_objects(
    p: ProjectView,
    props: Seq<ObjPropView>,
    mid: usize,
    stack: Seq<Key>,
    depth: nat,
)
    ensures
        ({
            let o = resolved(p, TypeExprView::ObjectLit(props), mid, stack, depth);
            &&& o is Object
            &&& o->Object_0.len() == props.len()
            &&& forall|i: int|
                0 <= i < props.len() ==> (#[trigger] o->Object_0[i]).name == props[i].name
                    && o->Object_0[i].optional == props[i].optional && o->Object_0[i].ty
                    == resolved(p, props[i].ty, mid, stack, depth)
        }),
{
    lemma_written_props(p, props, mid, stack, depth);
}

proof fn lemma_written_props(
    p: ProjectView,
    props: Seq<ObjPropView>,
    mid: usize,
    stack: Seq<Key>,
    depth: nat,
)
    ensures
        resolved_props(p, props, mid, stack, depth).len() == props.len(),
        forall|i: int|
            0 <= i < props.len() ==> #[trigger] resolved_props(p, props, mid, stack, depth)[i] == (
            RPropView {
                name: props[i].name,
                ty: resolved(p, props[i].ty, mid, stack, depth),
                optional: props[i].optional,
            }),
    decreases props.len(),
{
    if props.len() > 0 {
        let front = props.drop_last();
        lemma_written_props(p, front, mid, stack, depth);
        let before = resolved_props(p, front, mid, stack, depth);
        let all = resolved_props(p, props, mid, stack, depth);
        assert forall|i: int| 0 <= i < props.len() implies #[trigger] all[i] == (RPropView {
            name: props[i].name,
            ty: resolved(p, props[i].ty, mid, stack, depth),
            optional: props[i].optional,
        }) by {
            if i < front.len() {
                assert(all[i] == before[i]);
                assert(front[i] == props[i]);
            }
        }
    }
}

// ---------------------------------------------------------------------------
// Arguments
// ---------------------------------------------------------------------------

/// Literal arguments are of their literal types; of one that is not known
/// nothing is known; one with an annotation has the annotated type.
pub proof fn law_plain_arguments(p: ProjectView, mid: usize, text: Seq<char>, b: bool, te: TypeExprView)
    ensures
        resolved_observed(p, ObservedView::StrLit(text), mid) == TyView::StrLit(text),
        resolved_observed(p, ObservedView::BoolLit(b), mid) == TyView::BoolLit(b),
        resolved_observed(p, ObservedView::Undefined, mid) == TyView::Undefined,
        resolved_observed(p, ObservedView::Null, mid) == TyView::Null,
        resolved_observed(p, ObservedView::Opaque, mid) == TyView::AnyLike,
        resolved_observed(p, ObservedView::Typed(te), mid) == resolved(p, te, mid, Seq::empty(), 0),
{
}

/// An enum member that is passed is one of the constituents of its enum, by
/// whatever name either is imported.
pub proof fn law_enum_members_belong_to_their_enum(
    p: ProjectView,
    mid: usize,
    name: Seq<char>,
    m2: usize,
    n2: Seq<char>,
    member: Seq<char>,
)
    requires
        takes_type(p, mid, name, m2, n2) || (holds_type(p.modules[mid as int], name) && mid
            < p.modules.len() && (m2, n2) == (mid, name)),
        p.modules[m2 as int].enums.contains_key(n2),
    ensures
        ({
            let passed = resolved_observed(
                p,
                ObservedView::EnumMember { enum_name: name, member },
                mid,
            );
            let declared = resolved(p, TypeExprView::Ref(name), mid, Seq::empty(), 0);
            if p.modules[m2 as int].enums[n2].contains(member) {
                passed == (TyView::EnumLit { enum_name: n2, member })
                    && declared->Union_0.contains(passed)
            } else {
                passed == TyView::AnyLike
            }
        }),
{
    lemma_holds(p.modules[mid as int], name, NameKind::Type);
    lemma_holds(p.modules[m2 as int], n2, NameKind::Type);
    let members = p.modules[m2 as int].enums[n2];
    if takes_type(p, mid, name, m2, n2) {
        law_imported_types(p, mid, name, m2, n2);
        assert(find_local(p, mid, name, NameKind::Type) == Some((m2, n2)));
    } else {
        law_named_types(p, mid, name);
        assert(find_local(p, mid, name, NameKind::Type) == Some((m2, n2)));
    }
    let declared = resolved(p, TypeExprView::Ref(name), mid, Seq::empty(), 0);
    if members.contains(member) {
        let i = choose|i: int| 0 <= i < members.len() && members[i] == member;
        assert(declared->Union_0[i] == (TyView::EnumLit { enum_name: n2, member }));
    }
}

/// An object that is passed has just the properties that are written, none of
/// which may be left out.
pub proof fn law_object_arguments(
    p: ProjectView,
    mid: usize,
    props: Seq<(Seq<char>, ObservedView)>,
)
    ensures
        ({
            let o = resolved_observed(p, ObservedView::Object(props), mid);
            &&& o is Object
            &&& o->Object_0.len() == props.len()
            &&& forall|i: int|
                0 <= i < props.len() ==> (#[trigger] o->Object_0[i]).name == props[i].0
                    && !o->Object_0[i].optional && o->Object_0[i].ty == resolved_observed(
                    p,
                    props[i].1,
                    mid,
                )
        }),
{
    lemma_object_arguments(p, mid, props);
}

proof fn lemma_object_arguments(
    p: ProjectView,
    mid: usize,
    props: Seq<(Seq<char>, ObservedView)>,
)
    ensures
        resolved_object(p, props, mid).len() == props.len(),
        forall|i: int|
            0 <= i < props.len() ==> #[trigger] resolved_object(p, props, mid)[i] == (RPropView {
                name: props[i].0,
                ty: resolved_observed(p, props[i].1, mid),
                optional: false,
            }),
    decreases props.len(),
{
    if props.len() > 0 {
        let front = props.drop_last();
        lemma_object_arguments(p, mid, front);
        let before = resolved_object(p, front, mid);
        let all = resolved_object(p, props, mid);
        assert forall|i: int| 0 <= i < props.len() implies #[trigger] all[i] == (RPropView {
            name: props[i].0,
            ty: resolved_observed(p, props[i].1, mid),
            optional: false,
        }) by {
            if i < front.len() {
                assert(all[i] == before[i]);
                assert(front[i] == props[i]);
            }
        }
    }
}

// ---------------------------------------------------------------------------
// Usages
// ---------------------------------------------------------------------------

/// Whether a declaration is the last of its owner and name in a module.
pub open spec fn last_of(m: ModuleView, d: int, owner: OwnerView, name: Seq<char>) -> bool {
    &&& 0 <= d < m.decls.len()
    &&& m.decls[d].owner == owner
    &&& m.decls[d].name == name
    &&& forall|j: int|
        d < j < m.decls.len() ==> !((#[trigger] m.decls[j]).owner == owner && m.decls[j].name
            == name)
}

/// Whether no declaration of a module has the given owner and name.
pub open spec fn none_of(m: ModuleView, owner: OwnerView, name: Seq<char>) -> bool {
    forall|j: int|
        0 <= j < m.decls.len() ==> !((#[trigger] m.decls[j]).owner == owner && m.decls[j].name
            == name)
}

proof fn lemma_last_decl(decls: Seq<DeclView>, d: int, owner: OwnerView, name: Seq<char>)
    requires
        0 <= d < decls.len(),
        decls[d].owner == owner,
        decls[d].name == name,
        forall|j: int|
            d < j < decls.len() ==> !((#[trigger] decls[j]).owner == owner && decls[j].name
                == name),
    ensures
        last_decl(decls, owner, name) == Some(d),
    decreases decls.len(),
{
    if d < decls.len() - 1 {
        let front = decls.drop_last();
        assert(!(decls[decls.len() - 1].owner == owner && decls[decls.len() - 1].name == name));
        assert forall|j: int| d < j < front.len() implies !((#[trigger] front[j]).owner == owner
            && front[j].name == name) by {
            assert(decls[j] == front[j]);
        }
        lemma_last_decl(front, d, owner, name);
    }
}

proof fn lemma_no_decl(decls: Seq<DeclView>, owner: OwnerView, name: Seq<char>)
    requires
        forall|j: int|
            0 <= j < decls.len() ==> !((#[trigger] decls[j]).owner == owner && decls[j].name
                == name),
    ensures
        last_decl(decls, owner, name) is None,
    decreases decls.len(),
{
    if decls.len() > 0 {
        let front = decls.drop_last();
        assert(!(decls[decls.len() - 1].owner == owner && decls[decls.len() - 1].name == name));
        assert forall|j: int| 0 <= j < front.len() implies !((#[trigger] front[j]).owner == owner
            && front[j].name == name) by {
            assert(decls[j] == front[j]);
        }
        lemma_no_decl(front, owner, name);
    }
}

/// A use of a name of its own module means the declaration there.
pub proof fn law_local_uses(p: ProjectView, mid: usize, d: int, owner: OwnerView, name: Seq<char>)
    requires
        mid < p.modules.len(),
        last_of(p.modules[mid as int], d, owner, name),
    ensures
        attributed(p, mid, TargetView::Local { owner, name }) == Some((mid as int, d)),
{
    lemma_last_decl(p.modules[mid as int].decls, d, owner, name);
}

/// A use of a function or object member that its module does not declare means
/// nothing in particular.
pub proof fn law_unknown_local_uses(p: ProjectView, mid: usize, owner: OwnerView, name: Seq<char>)
    requires
        mid < p.modules.len(),
        none_of(p.modules[mid as int], owner, name),
        owner !is Class,
    ensures
        attributed(p, mid, TargetView::Local { owner, name }) is None,
{
    lemma_no_decl(p.modules[mid as int].decls, owner, name);
}

/// A use of an imported name means the function that the other module declares
/// under the name it was imported by.
pub proof fn law_imported_uses(
    p: ProjectView,
    mid: usize,
    local: Seq<char>,
    m2: usize,
    n2: Seq<char>,
    d: int,
)
    requires
        mid < p.modules.len(),
        m2 < p.modules.len(),
        p.limit > 0,
        p.modules[mid as int].imports.contains_key(local),
        comes_from(p, p.modules[mid as int].imports[local], m2, n2),
        last_of(p.modules[m2 as int], d, OwnerView::Free, n2),
    ensures
        attributed(p, mid, TargetView::Imported { local }) == Some((m2 as int, d)),
{
    let m = p.modules[m2 as int];
    assert(brings(m.decls[d], n2));
    law_declared_names_are_found(p, m2, n2, NameKind::Value);
    lemma_last_decl(m.decls, d, OwnerView::Free, n2);
}

/// A use of a method of an imported class means the method of the class that
/// the other module declares.
pub proof fn law_imported_class_uses(
    p: ProjectView,
    mid: usize,
    local: Seq<char>,
    m2: usize,
    class: Seq<char>,
    name: Seq<char>,
    d: int,
)
    requires
        mid < p.modules.len(),
        m2 < p.modules.len(),
        p.limit > 0,
        none_of(p.modules[mid as int], OwnerView::Class(local), name),
        p.modules[mid as int].imports.contains_key(local),
        comes_from(p, p.modules[mid as int].imports[local], m2, class),
        last_of(p.modules[m2 as int], d, OwnerView::Class(class), name),
    ensures
        attributed(p, mid, TargetView::Local { owner: OwnerView::Class(local), name }) == Some(
            (m2 as int, d),
        ),
{
    let m = p.modules[m2 as int];
    assert(brings(m.decls[d], class));
    law_declared_names_are_found(p, m2, class, NameKind::Value);
    lemma_last_decl(m.decls, d, OwnerView::Class(class), name);
    lemma_no_decl(p.modules[mid as int].decls, OwnerView::Class(local), name);
}

/// A use of a member of a namespace means the function of that name in the
/// module that the namespace stands for.
pub proof fn law_namespace_uses(
    p: ProjectView,
    mid: usize,
    ns: Seq<char>,
    m2: usize,
    whole: Seq<char>,
    name: Seq<char>,
    d: int,
)
    requires
        mid < p.modules.len(),
        m2 < p.modules.len(),
        p.limit > 0,
        p.modules[mid as int].imports.contains_key(ns),
        comes_from(p, p.modules[mid as int].imports[ns], m2, whole),
        last_of(p.modules[m2 as int], d, OwnerView::Free, name),
    ensures
        attributed(p, mid, TargetView::NamespaceMember { ns_local: ns, name }) == Some(
            (m2 as int, d),
        ),
{
    let m = p.modules[m2 as int];
    assert(brings(m.decls[d], name));
    law_declared_names_are_found(p, m2, name, NameKind::Value);
    lemma_last_decl(m.decls, d, OwnerView::Free, name);
}

// ---------------------------------------------------------------------------
// Escapes
// ---------------------------------------------------------------------------

/// What a usage lets escape: a call of a known function, nothing; another
/// reference to one, just that function; a use of a name that nothing binds,
/// or of a member of something unknown, just the functions or the methods of
/// that name.
pub proof fn law_what_escapes(p: ProjectView, mid: int, k: int, m: int, d: int)
    requires
        0 <= mid < p.modules.len() <= usize::MAX,
    ensures
        ({
            let u = p.modules[mid].usages[k];
            let decl = p.modules[m].decls[d];
            let known = attributed(p, mid as usize, u.target);
            &&& known is Some && u.kind is Call ==> !lets_escape(p, mid, k, m, d)
            &&& known is Some && u.kind is Escape ==> (lets_escape(p, mid, k, m, d) <==> known
                == Some((m, d)))
            &&& u.target matches TargetView::AnyFreeNamed(name) ==> (lets_escape(p, mid, k, m, d)
                <==> decl.owner is Free && decl.name == name)
            &&& u.target matches TargetView::AnyMethodNamed(name) ==> (lets_escape(
                p,
                mid,
                k,
                m,
                d,
            ) <==> decl.owner !is Free && decl.name == name)
        }),
{
    let u = p.modules[mid].usages[k];
    let taints = usage_taints(p, mid as usize, u);
    if taints.len() == 1 {
        assert(covered(p, taints, m, d) <==> covers_decl(p, taints[0], m, d)) by {
            if covered(p, taints, m, d) {
                let j = choose|j: int|
                    0 <= j < taints.len() && covers_decl(p, #[trigger] taints[j], m, d);
                assert(taints[j] == taints[0]);
            }
        }
    }
}

/// A class or object of the module that is used as a value lets just its own
/// members escape.
pub proof fn law_what_escapes_with_a_class(
    p: ProjectView,
    mid: int,
    k: int,
    c: Seq<char>,
    m: int,
    d: int,
)
    requires
        0 <= mid < p.modules.len() <= usize::MAX,
        p.limit > 0,
        p.modules[mid].usages[k].target == TargetView::AllMembersOf(OwnerView::Class(c))
            || p.modules[mid].usages[k].target == TargetView::AllMembersOf(
            OwnerView::ObjectConst(c),
        ),
        holds_value(p.modules[mid], c),
    ensures
        lets_escape(p, mid, k, m, d) <==> m == mid && brings(p.modules[m].decls[d], c),
{
    let u = p.modules[mid].usages[k];
    law_declared_names_are_found(p, mid as usize, c, NameKind::Value);
    let taints = usage_taints(p, mid as usize, u);
    assert(taints.len() == 1);
    let decl = p.modules[m].decls[d];
    assert(home_name(decl) == c <==> brings(decl, c));
    assert(covered(p, taints, m, d) <==> covers_decl(p, taints[0], m, d)) by {
        if covered(p, taints, m, d) {
            let j = choose|j: int|
                0 <= j < taints.len() && covers_decl(p, #[trigger] taints[j], m, d);
            assert(taints[j] == taints[0]);
        }
    }
}

// ---------------------------------------------------------------------------
// What modules offer
// ---------------------------------------------------------------------------

/// A module offers what it declares.
pub proof fn law_modules_offer_their_own(p: ProjectView, m: int, home: Seq<char>)
    ensures
        offers(p, m, m, home),
{
    let path = seq![m];
    assert(is_star_path(p, path));
    assert(path[0] == m && path.last() == m);
    assert(star_reaches(p, m, m));
}

proof fn lemma_star_step(p: ProjectView, a: int, b: int, c: int)
    requires
        star_edge(p, a, b),
        star_reaches(p, b, c),
    ensures
        star_reaches(p, a, c),
{
    let path = choose|path: Seq<int>| #[trigger]
        is_star_path(p, path) && path[0] == b && path.last() == c;
    let longer = seq![a] + path;
    assert forall|i: int| 0 <= i < longer.len() - 1 implies star_edge(
        p,
        #[trigger] longer[i],
        longer[i + 1],
    ) by {
        if i > 0 {
            assert(longer[i] == path[i - 1]);
            assert(longer[i + 1] == path[i]);
        } else {
            assert(longer[1] == path[0]);
        }
    }
    assert(is_star_path(p, longer));
    assert(longer[0] == a && longer.last() == c);
}

/// A module offers all that a module offers which it re-exports as a whole.
pub proof fn law_star_reexports_offer(
    p: ProjectView,
    a: int,
    s: int,
    b: int,
    m: int,
    home: Seq<char>,
)
    requires
        0 <= a < p.modules.len(),
        0 <= b < p.modules.len(),
        0 <= s < p.modules[a].reexports_star.len(),
        p.modules[a].reexports_star[s] is Some,
        p.by_path.contains_key(p.modules[a].reexports_star[s]->0),
        p.by_path[p.modules[a].reexports_star[s]->0] == b,
        offers(p, b, m, home),
    ensures
        offers(p, a, m, home),
{
    assert(star_leads(p, a, s, b));
    assert(star_edge(p, a, b));
    if star_reaches(p, b, m) {
        lemma_star_step(p, a, b, m);
    } else {
        let k = choose|k: int|
            0 <= k < p.modules.len() && #[trigger] star_reaches(p, b, k) && reexports(
                p,
                k,
                (m as usize, home),
            );
        lemma_star_step(p, a, b, k);
    }
}

/// A module offers what it re-exports by name from the module that declares
/// it.
pub proof fn law_named_reexports_offer(
    p: ProjectView,
    a: int,
    r: int,
    m: usize,
    home: Seq<char>,
)
    requires
        0 <= a < p.modules.len(),
        m < p.modules.len(),
        p.limit > 0,
        0 <= r < p.modules[a].reexports_named.len(),
        comes_from(p, p.modules[a].reexports_named[r].source, m, home),
        holds_value(p.modules[m as int], home),
    ensures
        offers(p, a, m as int, home),
{
    law_declared_names_are_found(p, m, home, NameKind::Value);
    law_modules_offer_their_own(p, a, home);
    let path = seq![a];
    assert(is_star_path(p, path));
    assert(path[0] == a && path.last() == a);
    assert(star_reaches(p, a, a));
    assert(reexport_target(p, a, r) == Some((m, home)));
    assert(reexports(p, a, (m, home)));
}

/// A module that re-exports nothing offers nothing of other modules.
pub proof fn law_modules_offer_nothing_else(p: ProjectView, a: int, m: int, home: Seq<char>)
    requires
        p.modules[a].reexports_star.len() == 0,
        p.modules[a].reexports_named.len() == 0,
        offers(p, a, m, home),
    ensures
        m == a,
{
    if star_reaches(p, a, m) {
        lemma_no_stars(p, a, m);
    } else {
        let k = choose|k: int|
            0 <= k < p.modules.len() && #[trigger] star_reaches(p, a, k) && reexports(
                p,
                k,
                (m as usize, home),
            );
        lemma_no_stars(p, a, k);
    }
}

proof fn lemma_no_stars(p: ProjectView, a: int, b: int)
    requires
        p.modules[a].reexports_star.len() == 0,
        star_reaches(p, a, b),
    ensures
        a == b,
{
    let path = choose|path: Seq<int>| #[trigger]
        is_star_path(p, path) && path[0] == a && path.last() == b;
    if path.len() > 1 {
        assert(star_edge(p, path[0], path[1]));
        let s = choose|s: int| #[trigger] star_leads(p, a, s, path[1]);
        assert(star_leads(p, a, s, path[1]));
    }
}

proof fn lemma_two_taints(p: ProjectView, taints: Seq<TaintView>, m: int, d: int)
    requires
        0 < taints.len() <= 2,
    ensures
        covered(p, taints, m, d) <==> covers_decl(p, taints[0], m, d) || (taints.len() == 2
            && covers_decl(p, taints[1], m, d)),
{
    if covered(p, taints, m, d) {
        let j = choose|j: int|
            0 <= j < taints.len() && covers_decl(p, #[trigger] taints[j], m, d);
        assert(j == 0 || j == 1);
    }
}

/// What escapes through an import that leads nowhere: what has the local name,
/// and what has the name that it is imported by. A namespace that leads nowhere
/// takes nothing with it; a member of one may be anything of its name.
pub proof fn law_what_escapes_through_unknown_modules(
    p: ProjectView,
    mid: int,
    k: int,
    m: int,
    d: int,
    local: Seq<char>,
    name: Seq<char>,
)
    requires
        0 <= mid < p.modules.len() <= usize::MAX,
        p.modules[mid].imports.contains_key(local),
        leads_out(p, p.modules[mid].imports[local].path),
    ensures
        ({
            let t = p.modules[mid].usages[k].target;
            let decl = p.modules[m].decls[d];
            let by = p.modules[mid].imports[local].name;
            let named = by != seq!['*'] && by != seq!['d', 'e', 'f', 'a', 'u', 'l', 't'];
            &&& t == (TargetView::Imported { local }) ==> (lets_escape(p, mid, k, m, d) <==> brings(
                decl,
                local,
            ) || (named && brings(decl, by)))
            &&& t == (TargetView::AllExportsOfModule { ns_local: local }) ==> !lets_escape(
                p,
                mid,
                k,
                m,
                d,
            )
            &&& t == (TargetView::NamespaceMember { ns_local: local, name }) ==> (lets_escape(
                p,
                mid,
                k,
                m,
                d,
            ) <==> decl.name == name)
        }),
{
    reveal_strlit("default");
    reveal_strlit("*");
    assert("default"@ =~= seq!['d', 'e', 'f', 'a', 'u', 'l', 't']);
    assert("*"@ =~= seq!['*']);
    let u = p.modules[mid].usages[k];
    let decl = p.modules[m].decls[d];
    let by = p.modules[mid].imports[local].name;
    assert(home_name(decl) == local <==> brings(decl, local));
    assert(home_name(decl) == by <==> brings(decl, by));
    let taints = usage_taints(p, mid as usize, u);
    if 0 < taints.len() <= 2 {
        lemma_two_taints(p, taints, m, d);
    }
    if u.target == (TargetView::AllExportsOfModule { ns_local: local }) {
        assert(taints.len() == 0);
    }
}

/// A class or object that is used as a value and is not known: one that is
/// imported from outside lets everything of its names escape, one that nothing
/// binds nothing.
pub proof fn law_what_escapes_with_an_unknown_class(
    p: ProjectView,
    mid: int,
    k: int,
    c: Seq<char>,
    m: int,
    d: int,
)
    requires
        0 <= mid < p.modules.len() <= usize::MAX,
        p.modules[mid].usages[k].target == TargetView::AllMembersOf(OwnerView::Class(c))
            || p.modules[mid].usages[k].target == TargetView::AllMembersOf(
            OwnerView::ObjectConst(c),
        ),
        !holds_value(p.modules[mid], c),
    ensures
        !p.modules[mid].imports.contains_key(c) ==> !lets_escape(p, mid, k, m, d),
        p.modules[mid].imports.contains_key(c) && leads_out(p, p.modules[mid].imports[c].path)
            && brings(p.modules[m].decls[d], c) ==> lets_escape(p, mid, k, m, d),
{
    lemma_holds(p.modules[mid], c, NameKind::Value);
    let u = p.modules[mid].usages[k];
    let decl = p.modules[m].decls[d];
    assert(home_name(decl) == c <==> brings(decl, c));
    let taints = usage_taints(p, mid as usize, u);
    if 0 < taints.len() <= 2 {
        lemma_two_taints(p, taints, m, d);
    }
    if !p.modules[mid].imports.contains_key(c) {
        assert(taints.len() == 0);
    }
}

/// A function that is only called, and by names that lead to it alone, does
/// not escape.
pub proof fn law_called_functions_do_not_escape(p: ProjectView, m: int, d: int)
    requires
        p.modules.len() <= usize::MAX,
        forall|mid: int, k: int|
            0 <= mid < p.modules.len() && 0 <= k < p.modules[mid].usages.len() ==> ({
                let u = #[trigger] p.modules[mid].usages[k];
                let known = attributed(p, mid as usize, u.target);
                known is Some && (u.kind is Call || known != Some((m, d)))
            }),
    ensures
        !escaped(p, m, d),
{
    if escaped(p, m, d) {
        let (mid, k) = choose|mid: int, k: int|
            0 <= mid < p.modules.len() && 0 <= k < p.modules[mid].usages.len()
                && #[trigger] lets_escape(p, mid, k, m, d);
        let u = p.modules[mid].usages[k];
        law_what_escapes(p, mid, k, m, d);
        assert(u.kind is Call || u.kind is Escape);
    }
}

} // verus!

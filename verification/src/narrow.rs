//! The narrowing core: given a declared type and the resolved types of every
//! observed argument, report union constituents no call can produce.
//!
//! Conservative by construction: a constituent is reported only when every
//! observed argument provably excludes it. Anything uncertain marks all
//! constituents as used.

use vstd::prelude::*;
use vstd::string::*;

use crate::model::views;
use crate::text::concat;
use crate::ty::{
    add_undefined, find_prop, print_ty, printed, prop_index, split_parts, with_undefined, RProp,
    RPropView, Ty, TyView,
};

verus! {

broadcast use crate::ty::group_ty_views;

/// The unused constituents of one declared union, at a property path of a parameter.
#[derive(Debug)]
pub struct PathReport {
    pub path: String,
    pub declared: String,
    pub unused: Vec<String>,
}

#[verifier::ext_equal]
pub struct ReportView {
    pub path: Seq<char>,
    pub declared: Seq<char>,
    pub unused: Seq<Seq<char>>,
}

impl View for PathReport {
    type V = ReportView;

    open spec fn view(&self) -> ReportView {
        ReportView { path: self.path@, declared: self.declared@, unused: views(self.unused@) }
    }
}

// ---------------------------------------------------------------------------
// Assignability
// ---------------------------------------------------------------------------

/// Nesting beyond which assignability is taken for granted.
pub const ASSIGNABLE_DEPTH_LIMIT: u32 = 64;

/// Structural, conservative `a` is a subtype of `b`; `depth` counts the nesting so far.
pub open spec fn assignable_from(a: TyView, b: TyView, depth: int) -> bool
    decreases ASSIGNABLE_DEPTH_LIMIT + 1 - depth,
{
    if depth > ASSIGNABLE_DEPTH_LIMIT {
        true
    } else {
        match (a, b) {
            (TyView::AnyLike, _) => true,
            (_, TyView::AnyLike) => true,
            (TyView::Union(parts), _) => forall|i: int|
                0 <= i < parts.len() ==> assignable_from(#[trigger] parts[i], b, depth + 1),
            (_, TyView::Union(parts)) => exists|i: int|
                0 <= i < parts.len() && assignable_from(a, #[trigger] parts[i], depth + 1),
            (TyView::StrLit(x), TyView::StrLit(y)) => x == y,
            (TyView::StrLit(_), TyView::Str) => true,
            (TyView::NumLit(x), TyView::NumLit(y)) => x == y,
            (TyView::NumLit(_), TyView::Num) => true,
            (TyView::BoolLit(x), TyView::BoolLit(y)) => x == y,
            (TyView::BoolLit(_), TyView::Bool) => true,
            (TyView::Str, TyView::Str) => true,
            (TyView::Num, TyView::Num) => true,
            (TyView::Bool, TyView::Bool) => true,
            (TyView::Undefined, TyView::Undefined) => true,
            (TyView::Null, TyView::Null) => true,
            (
                TyView::EnumLit { enum_name: e1, member: m1 },
                TyView::EnumLit { enum_name: e2, member: m2 },
            ) => e1 == e2 && m1 == m2,
            (TyView::Object(ap), TyView::Object(bp)) => forall|i: int|
                0 <= i < bp.len() ==> match find_prop(ap, (#[trigger] bp[i]).name) {
                    Some(have) => assignable_from(have.ty, bp[i].ty, depth + 1),
                    None => bp[i].optional,
                },
            _ => false,
        }
    }
}

/// Nearer to the nesting limit the answer only moves towards `true`, and
/// beyond the limit it is `true`.
pub proof fn law_depth_only_permits(a: TyView, b: TyView, d1: int, d2: int)
    requires
        d1 <= d2,
    ensures
        assignable_from(a, b, d1) ==> assignable_from(a, b, d2),
        d2 > ASSIGNABLE_DEPTH_LIMIT ==> assignable_from(a, b, d2),
    decreases ASSIGNABLE_DEPTH_LIMIT + 1 - d1,
{
    if d2 <= ASSIGNABLE_DEPTH_LIMIT && assignable_from(a, b, d1) {
        match (a, b) {
            (TyView::AnyLike, _) => {},
            (_, TyView::AnyLike) => {},
            (TyView::Union(parts), _) => {
                assert forall|i: int| 0 <= i < parts.len() implies assignable_from(
                    #[trigger] parts[i],
                    b,
                    d2 + 1,
                ) by {
                    assert(assignable_from(parts[i], b, d1 + 1));
                    law_depth_only_permits(parts[i], b, d1 + 1, d2 + 1);
                }
            },
            (_, TyView::Union(parts)) => {
                let i = choose|i: int|
                    0 <= i < parts.len() && assignable_from(a, #[trigger] parts[i], d1 + 1);
                law_depth_only_permits(a, parts[i], d1 + 1, d2 + 1);
                assert(assignable_from(a, parts[i], d2 + 1));
            },
            (TyView::Object(ap), TyView::Object(bp)) => {
                assert forall|i: int| 0 <= i < bp.len() implies match find_prop(
                    ap,
                    (#[trigger] bp[i]).name,
                ) {
                    Some(have) => assignable_from(have.ty, bp[i].ty, d2 + 1),
                    None => bp[i].optional,
                } by {
                    if let Some(have) = find_prop(ap, bp[i].name) {
                        assert(assignable_from(have.ty, bp[i].ty, d1 + 1));
                        law_depth_only_permits(have.ty, bp[i].ty, d1 + 1, d2 + 1);
                    }
                }
            },
            _ => {},
        }
    }
}

/// Whether every value of type `a` may be passed where `b` is declared, as far
/// as the structure shows; beyond the nesting limit it may.
pub open spec fn is_assignable(a: TyView, b: TyView) -> bool {
    assignable_from(a, b, 0)
}

fn assignable_at(a: &Ty, b: &Ty, depth: u32) -> (r: bool)
    ensures
        r == assignable_from(a@, b@, depth as int),
    decreases ASSIGNABLE_DEPTH_LIMIT + 1 - depth,
{
    if depth > ASSIGNABLE_DEPTH_LIMIT {
        return true;
    }
    match (a, b) {
        (Ty::AnyLike, _) => true,
        (_, Ty::AnyLike) => true,
        (Ty::Union(parts), _) => {
            let mut i: usize = 0;
            while i < parts.len()
                invariant
                    i <= parts@.len(),
                    depth <= ASSIGNABLE_DEPTH_LIMIT,
                    a@ == TyView::Union(views(parts@)),
                    b@ !is AnyLike,
                    forall|j: int|
                        0 <= j < i ==> assignable_from(
                            #[trigger] views(parts@)[j],
                            b@,
                            depth + 1,
                        ),
                decreases parts@.len() - i,
            {
                if !assignable_at(&parts[i], b, depth + 1) {
                    proof {
                        assert(!assignable_from(views(parts@)[i as int], b@, depth + 1));
                        assert(a@->Union_0[i as int] == views(parts@)[i as int]);
                        assert(!assignable_from(a@, b@, depth as int));
                    }
                    return false;
                }
                i += 1;
            }
            true
        },
        (_, Ty::Union(parts)) => {
            let mut i: usize = 0;
            while i < parts.len()
                invariant
                    i <= parts@.len(),
                    depth <= ASSIGNABLE_DEPTH_LIMIT,
                    a@ !is AnyLike,
                    a@ !is Union,
                    b@ == TyView::Union(views(parts@)),
                    forall|j: int|
                        0 <= j < i ==> !assignable_from(
                            a@,
                            #[trigger] views(parts@)[j],
                            depth + 1,
                        ),
                decreases parts@.len() - i,
            {
                if assignable_at(a, &parts[i], depth + 1) {
                    proof {
                        assert(assignable_from(a@, views(parts@)[i as int], depth + 1));
                        assert(b@->Union_0[i as int] == views(parts@)[i as int]);
                        assert(assignable_from(a@, b@, depth as int));
                    }
                    return true;
                }
                i += 1;
            }
            false
        },
        (Ty::StrLit(x), Ty::StrLit(y)) => *x == *y,
        (Ty::StrLit(_), Ty::Str) => true,
        (Ty::NumLit(x), Ty::NumLit(y)) => *x == *y,
        (Ty::NumLit(_), Ty::Num) => true,
        (Ty::BoolLit(x), Ty::BoolLit(y)) => *x == *y,
        (Ty::BoolLit(_), Ty::Bool) => true,
        (Ty::Str, Ty::Str) => true,
        (Ty::Num, Ty::Num) => true,
        (Ty::Bool, Ty::Bool) => true,
        (Ty::Undefined, Ty::Undefined) => true,
        (Ty::Null, Ty::Null) => true,
        (
            Ty::EnumLit { enum_name: e1, member: m1 },
            Ty::EnumLit { enum_name: e2, member: m2 },
        ) => *e1 == *e2 && *m1 == *m2,
        (Ty::Object(ap), Ty::Object(bp)) => {
            let mut i: usize = 0;
            while i < bp.len()
                invariant
                    i <= bp@.len(),
                    depth <= ASSIGNABLE_DEPTH_LIMIT,
                    a@ == TyView::Object(views(ap@)),
                    b@ == TyView::Object(views(bp@)),
                    forall|j: int|
                        0 <= j < i ==> match find_prop(
                            views(ap@),
                            (#[trigger] views(bp@)[j]).name,
                        ) {
                            Some(have) => assignable_from(have.ty, views(bp@)[j].ty, depth + 1),
                            None => views(bp@)[j].optional,
                        },
                decreases bp@.len() - i,
            {
                let ok = match prop_index(ap, &bp[i].name) {
                    Some(k) => assignable_at(&ap[k].ty, &bp[i].ty, depth + 1),
                    None => bp[i].optional,
                };
                if !ok {
                    assert(views(bp@)[i as int] == bp@[i as int]@);
                    return false;
                }
                i += 1;
            }
            true
        },
        _ => false,
    }
}

/// Structural, conservative assignability. Callers use the result to mark
/// constituents as used, so beyond the nesting limit it is `true`:
/// over-marking is the safe direction.
pub fn assignable(a: &Ty, b: &Ty) -> (r: bool)
    ensures
        r == is_assignable(a@, b@),
{
    assignable_at(a, b, 0)
}

// ---------------------------------------------------------------------------
// Which constituents an observation uses
// ---------------------------------------------------------------------------

/// Whether an observed constituent can carry a value of the declared
/// constituent `c`: anything can where any value is declared, literals match
/// themselves and their primitive, primitives match themselves and the
/// literals they subsume, everything else is matched structurally both ways.
pub open spec fn covers(oc: TyView, c: TyView) -> bool {
    c is AnyLike || match oc {
        TyView::StrLit(_) => c == oc || c is Str,
        TyView::NumLit(_) => c == oc || c is Num,
        TyView::BoolLit(_) => c == oc || c is Bool,
        TyView::EnumLit { .. } => c == oc,
        TyView::Undefined => c == oc,
        TyView::Null => c == oc,
        TyView::Str => c is Str || c is StrLit,
        TyView::Num => c is Num || c is NumLit,
        TyView::Bool => c is Bool || c is BoolLit,
        _ => is_assignable(oc, c) || is_assignable(c, oc),
    }
}

pub open spec fn covers_some(oc: TyView, constituents: Seq<TyView>) -> bool {
    exists|j: int| 0 <= j < constituents.len() && covers(oc, #[trigger] constituents[j])
}

/// Whether an observed constituent marks `c` as used. One that maps to nothing
/// identifiable proves nothing, so it marks everything.
pub open spec fn marks(oc: TyView, constituents: Seq<TyView>, c: TyView) -> bool {
    oc is AnyLike || covers(oc, c) || !covers_some(oc, constituents)
}

pub open spec fn marked_by(t: TyView, constituents: Seq<TyView>, c: TyView) -> bool {
    exists|k: int|
        0 <= k < split_parts(t).len() && marks(#[trigger] split_parts(t)[k], constituents, c)
}

/// Whether some observed argument may carry a value of the constituent `c`.
pub open spec fn used(observed: Seq<TyView>, constituents: Seq<TyView>, c: TyView) -> bool {
    exists|i: int| 0 <= i < observed.len() && marked_by(#[trigger] observed[i], constituents, c)
}

/// Whether the constituent `c` is reported: unused, and not an `undefined`
/// that mere optionality adds.
pub open spec fn reported(
    observed: Seq<TyView>,
    constituents: Seq<TyView>,
    suppress_undefined: bool,
    c: TyView,
) -> bool {
    !used(observed, constituents, c) && !(suppress_undefined && c is Undefined)
}

/// The texts of the constituents of `list` that are reported, in order.
pub open spec fn unused_texts(
    list: Seq<TyView>,
    observed: Seq<TyView>,
    constituents: Seq<TyView>,
    suppress_undefined: bool,
) -> Seq<Seq<char>>
    decreases list.len(),
{
    if list.len() == 0 {
        Seq::empty()
    } else {
        let before = unused_texts(list.drop_last(), observed, constituents, suppress_undefined);
        if reported(observed, constituents, suppress_undefined, list.last()) {
            before.push(printed(list.last()))
        } else {
            before
        }
    }
}

pub open spec fn union_report(
    constituents: Seq<TyView>,
    shown: Seq<char>,
    observed: Seq<TyView>,
    path: Seq<char>,
    suppress_undefined: bool,
) -> Seq<ReportView> {
    let unused = unused_texts(constituents, observed, constituents, suppress_undefined);
    if unused.len() == 0 {
        Seq::empty()
    } else {
        seq![ReportView { path, declared: shown, unused }]
    }
}

pub open spec fn all_objects(observed: Seq<TyView>) -> bool {
    forall|i: int| 0 <= i < observed.len() ==> (#[trigger] observed[i]) is Object
}

/// What the observed objects pass for a declared property.
pub open spec fn child_observed(observed: Seq<TyView>, prop: RPropView) -> Seq<TyView> {
    Seq::new(
        observed.len(),
        |i: int|
            match find_prop(observed[i]->Object_0, prop.name) {
                Some(x) => x.ty,
                None => if prop.optional {
                    TyView::Undefined
                } else {
                    TyView::AnyLike
                },
            },
    )
}

/// The reports for a declared type at `path`; `budget` is the property depth
/// still allowed. Unions are terminal; objects are walked property by property
/// as long as every observed value is an object.
pub open spec fn walk_reports(
    declared: TyView,
    observed: Seq<TyView>,
    path: Seq<char>,
    suppress_undefined: bool,
    budget: int,
) -> Seq<ReportView>
    decreases declared,
{
    if budget < 0 {
        Seq::empty()
    } else {
        match declared {
            // `boolean` narrows like the union it is (display stays "boolean").
            TyView::Bool => union_report(
                bool_constituents(),
                "boolean"@,
                observed,
                path,
                suppress_undefined,
            ),
            TyView::Union(parts) => union_report(
                parts,
                printed(declared),
                observed,
                path,
                suppress_undefined,
            ),
            TyView::Object(props) => if all_objects(observed) {
                walk_props(props, observed, path, budget)
            } else {
                Seq::empty()
            },
            _ => Seq::empty(),
        }
    }
}

pub open spec fn walk_props(
    props: Seq<RPropView>,
    observed: Seq<TyView>,
    path: Seq<char>,
    budget: int,
) -> Seq<ReportView>
    decreases props,
{
    if props.len() == 0 {
        Seq::empty()
    } else {
        let p = props[props.len() - 1];
        walk_props(props.drop_last(), observed, path, budget) + walk_reports(
            p.ty,
            child_observed(observed, p),
            path + "."@ + p.name,
            p.optional,
            budget - 1,
        )
    }
}

pub open spec fn bool_constituents() -> Seq<TyView> {
    seq![TyView::BoolLit(false), TyView::BoolLit(true)]
}

/// The reports for one parameter.
pub open spec fn param_reports(
    declared: TyView,
    observed: Seq<TyView>,
    optional_param: bool,
    max_depth: nat,
) -> Seq<ReportView> {
    walk_reports(
        if optional_param {
            with_undefined(declared)
        } else {
            declared
        },
        observed,
        Seq::empty(),
        optional_param,
        max_depth as int,
    )
}

fn covers_exec(oc: &Ty, c: &Ty) -> (r: bool)
    ensures
        r == covers(oc@, c@),
{
    if matches!(c, Ty::AnyLike) {
        return true;
    }
    match oc {
        Ty::StrLit(_) => oc.same(c) || matches!(c, Ty::Str),
        Ty::NumLit(_) => oc.same(c) || matches!(c, Ty::Num),
        Ty::BoolLit(_) => oc.same(c) || matches!(c, Ty::Bool),
        Ty::EnumLit { .. } => oc.same(c),
        Ty::Undefined => oc.same(c),
        Ty::Null => oc.same(c),
        Ty::Str => matches!(c, Ty::Str) || matches!(c, Ty::StrLit(_)),
        Ty::Num => matches!(c, Ty::Num) || matches!(c, Ty::NumLit(_)),
        Ty::Bool => matches!(c, Ty::Bool) || matches!(c, Ty::BoolLit(_)),
        _ => assignable(oc, c) || assignable(c, oc),
    }
}

/// Marks in `flags` the constituents that the observed constituent `oc` uses.
fn mark_part(oc: &Ty, constituents: &Vec<Ty>, flags: &mut Vec<bool>)
    requires
        old(flags)@.len() == constituents@.len(),
    ensures
        final(flags)@.len() == constituents@.len(),
        forall|i: int|
            0 <= i < constituents@.len() ==> final(flags)@[i] == (old(flags)@[i] || marks(
                oc@,
                views(constituents@),
                constituents@[i]@,
            )),
{
    let ghost cs = views(constituents@);
    let any_like = matches!(oc, Ty::AnyLike);
    let mut some: bool = false;
    let mut hit: Vec<bool> = Vec::new();
    let mut i: usize = 0;
    while i < constituents.len()
        invariant
            i <= constituents@.len(),
            cs == views(constituents@),
            hit@.len() == i,
            forall|j: int| 0 <= j < i ==> hit@[j] == covers(oc@, #[trigger] cs[j]),
            some == exists|j: int| 0 <= j < i && covers(oc@, #[trigger] cs[j]),
        decreases constituents@.len() - i,
    {
        let h = covers_exec(oc, &constituents[i]);
        proof {
            assert(h == covers(oc@, cs[i as int]));
        }
        hit.push(h);
        if h {
            some = true;
        }
        i += 1;
    }
    let mut k: usize = 0;
    while k < constituents.len()
        invariant
            k <= constituents@.len(),
            cs == views(constituents@),
            hit@.len() == cs.len(),
            flags@.len() == cs.len(),
            old(flags)@.len() == cs.len(),
            any_like == (oc@ is AnyLike),
            forall|j: int| 0 <= j < cs.len() ==> hit@[j] == covers(oc@, #[trigger] cs[j]),
            some == covers_some(oc@, cs),
            forall|j: int| k <= j < cs.len() ==> flags@[j] == old(flags)@[j],
            forall|j: int|
                0 <= j < k ==> flags@[j] == (old(flags)@[j] || marks(oc@, cs, #[trigger] cs[j])),
        decreases constituents@.len() - k,
    {
        let ghost before = flags@;
        if any_like || hit[k] || !some {
            flags.set(k, true);
        }
        proof {
            assert(before[k as int] == old(flags)@[k as int]);
            assert(marks(oc@, cs, cs[k as int]) == (any_like || hit@[k as int] || !some));
            assert forall|j: int| 0 <= j < k + 1 implies flags@[j] == (old(flags)@[j] || marks(
                oc@,
                cs,
                #[trigger] cs[j],
            )) by {
                if j < k {
                    assert(flags@[j] == before[j]);
                }
            }
        }
        k += 1;
    }
    assert forall|i: int| 0 <= i < constituents@.len() implies flags@[i] == (old(flags)@[i]
        || marks(oc@, cs, constituents@[i]@)) by {
        assert(cs[i] == constituents@[i]@);
    }
}

/// Marks in `flags` the constituents that the observed type uses.
fn mark_observed(obs: &Ty, constituents: &Vec<Ty>, flags: &mut Vec<bool>)
    requires
        old(flags)@.len() == constituents@.len(),
    ensures
        final(flags)@.len() == constituents@.len(),
        forall|i: int|
            0 <= i < constituents@.len() ==> final(flags)@[i] == (old(flags)@[i] || marked_by(
                obs@,
                views(constituents@),
                constituents@[i]@,
            )),
{
    let ghost cs = views(constituents@);
    match obs {
        Ty::Union(parts) => {
            let mut k: usize = 0;
            while k < parts.len()
                invariant
                    k <= parts@.len(),
                    cs == views(constituents@),
                    flags@.len() == constituents@.len(),
                    old(flags)@.len() == constituents@.len(),
                    obs@ == TyView::Union(views(parts@)),
                    forall|i: int|
                        0 <= i < constituents@.len() ==> flags@[i] == (old(flags)@[i] || exists|
                            p: int,
                        |
                            0 <= p < k && marks(
                                #[trigger] views(parts@)[p],
                                cs,
                                constituents@[i]@,
                            )),
                decreases parts@.len() - k,
            {
                let ghost before = flags@;
                mark_part(&parts[k], constituents, flags);
                proof {
                    assert forall|i: int| 0 <= i < constituents@.len() implies flags@[i] == (old(
                        flags,
                    )@[i] || exists|p: int|
                        0 <= p < k + 1 && marks(
                            #[trigger] views(parts@)[p],
                            cs,
                            constituents@[i]@,
                        )) by {
                        assert(views(parts@)[k as int] == parts@[k as int]@);
                        assert(flags@[i] == (before[i] || marks(
                            views(parts@)[k as int],
                            cs,
                            constituents@[i]@,
                        )));
                    }
                }
                k += 1;
            }
        },
        _ => {
            mark_part(obs, constituents, flags);
            proof {
                assert forall|i: int| 0 <= i < constituents@.len() implies marks(
                    obs@,
                    cs,
                    constituents@[i]@,
                ) == marked_by(obs@, cs, constituents@[i]@) by {
                    assert(split_parts(obs@)[0] == obs@);
                }
            }
        },
    }
}

proof fn lemma_used_step(os: Seq<TyView>, o: int, cs: Seq<TyView>, c: TyView)
    requires
        0 <= o < os.len(),
    ensures
        used(os.take(o + 1), cs, c) == (used(os.take(o), cs, c) || marked_by(os[o], cs, c)),
{
    if used(os.take(o), cs, c) {
        let i = choose|i: int|
            0 <= i < os.take(o).len() && marked_by(#[trigger] os.take(o)[i], cs, c);
        assert(os.take(o + 1)[i] == os.take(o)[i]);
    }
    if marked_by(os[o], cs, c) {
        assert(os.take(o + 1)[o] == os[o]);
    }
    if used(os.take(o + 1), cs, c) {
        let i = choose|i: int|
            0 <= i < os.take(o + 1).len() && marked_by(#[trigger] os.take(o + 1)[i], cs, c);
        if i < o {
            assert(os.take(o)[i] == os.take(o + 1)[i]);
        }
    }
}

/// Whether the same type occurs before position `i`.
fn seen_before(list: &Vec<Ty>, i: usize) -> (r: bool)
    requires
        i < list@.len(),
    ensures
        r == exists|j: int| 0 <= j < i && (#[trigger] list@[j])@ == list@[i as int]@,
{
    let mut j: usize = 0;
    while j < i
        invariant
            j <= i < list@.len(),
            forall|k: int| 0 <= k < j ==> (#[trigger] list@[k])@ != list@[i as int]@,
        decreases i - j,
    {
        if list[j].same(&list[i]) {
            return true;
        }
        j += 1;
    }
    false
}

fn unused_constituents(
    constituents: &Vec<Ty>,
    observed: &Vec<Ty>,
    suppress_undefined: bool,
) -> (r: Vec<String>)
    ensures
        views(r@) == unused_texts(
            views(constituents@),
            views(observed@),
            views(constituents@),
            suppress_undefined,
        ),
{
    let ghost cs = views(constituents@);
    let ghost os = views(observed@);
    let mut flags: Vec<bool> = Vec::new();
    let mut i: usize = 0;
    while i < constituents.len()
        invariant
            i <= constituents@.len(),
            flags@.len() == i,
            forall|j: int| 0 <= j < i ==> !flags@[j],
        decreases constituents@.len() - i,
    {
        flags.push(false);
        i += 1;
    }
    let mut o: usize = 0;
    while o < observed.len()
        invariant
            o <= observed@.len(),
            cs == views(constituents@),
            os == views(observed@),
            flags@.len() == constituents@.len(),
            forall|j: int|
                0 <= j < cs.len() ==> flags@[j] == used(os.take(o as int), cs, #[trigger] cs[j]),
        decreases observed@.len() - o,
    {
        let ghost before = flags@;
        // Identical observations are common and marking is idempotent: process each once.
        if !seen_before(observed, o) {
            mark_observed(&observed[o], constituents, &mut flags);
            proof {
                assert forall|j: int| 0 <= j < cs.len() implies flags@[j] == used(
                    os.take(o + 1),
                    cs,
                    #[trigger] cs[j],
                ) by {
                    lemma_used_step(os, o as int, cs, cs[j]);
                    assert(flags@[j] == (before[j] || marked_by(os[o as int], cs, cs[j])));
                }
            }
        } else {
            proof {
                let q = choose|q: int|
                    0 <= q < o && (#[trigger] observed@[q])@ == observed@[o as int]@;
                assert(os.take(o as int)[q] == os[o as int]);
                assert forall|j: int| 0 <= j < cs.len() implies flags@[j] == used(
                    os.take(o + 1),
                    cs,
                    #[trigger] cs[j],
                ) by {
                    lemma_used_step(os, o as int, cs, cs[j]);
                }
            }
        }
        o += 1;
    }
    assert(os.take(o as int) =~= os);
    let mut out: Vec<String> = Vec::new();
    let mut k: usize = 0;
    while k < constituents.len()
        invariant
            k <= constituents@.len(),
            cs == views(constituents@),
            os == views(observed@),
            flags@.len() == constituents@.len(),
            forall|j: int| 0 <= j < cs.len() ==> flags@[j] == used(os, cs, #[trigger] cs[j]),
            views(out@) == unused_texts(cs.take(k as int), os, cs, suppress_undefined),
        decreases constituents@.len() - k,
    {
        let c = &constituents[k];
        let ghost before = out@;
        proof {
            assert(cs[k as int] == c@);
            assert(cs.take(k + 1).drop_last() =~= cs.take(k as int));
            assert(cs.take(k + 1).last() == c@);
        }
        if !flags[k] && !(suppress_undefined && matches!(c, Ty::Undefined)) {
            out.push(print_ty(c));
            proof {
                assert(views(out@) =~= views(before).push(printed(c@)));
            }
        }
        k += 1;
    }
    assert(cs.take(k as int) =~= cs);
    out
}

/// What the observed objects pass for a declared property.
fn child_observations(observed: &Vec<Ty>, prop: &RProp) -> (r: Vec<Ty>)
    requires
        all_objects(views(observed@)),
    ensures
        views(r@) == child_observed(views(observed@), prop@),
{
    let ghost os = views(observed@);
    let mut out: Vec<Ty> = Vec::new();
    let mut i: usize = 0;
    while i < observed.len()
        invariant
            i <= observed@.len(),
            os == views(observed@),
            all_objects(os),
            out@.len() == i,
            forall|j: int| 0 <= j < i ==> (#[trigger] out@[j])@ == child_observed(os, prop@)[j],
        decreases observed@.len() - i,
    {
        assert(os[i as int] == observed@[i as int]@);
        match &observed[i] {
            Ty::Object(props) => {
                assert(os[i as int]->Object_0 == views(props@));
                match prop_index(props, &prop.name) {
                    Some(k) => out.push(props[k].ty.copy()),
                    None => out.push(
                        if prop.optional {
                            Ty::Undefined
                        } else {
                            Ty::AnyLike
                        },
                    ),
                }
            },
            _ => {
                assert(false);
            },
        }
        i += 1;
    }
    assert(views(out@) =~= child_observed(os, prop@));
    out
}

fn every_object(observed: &Vec<Ty>) -> (r: bool)
    ensures
        r == all_objects(views(observed@)),
{
    let mut i: usize = 0;
    while i < observed.len()
        invariant
            i <= observed@.len(),
            forall|j: int| 0 <= j < i ==> (#[trigger] views(observed@)[j]) is Object,
        decreases observed@.len() - i,
    {
        if !matches!(&observed[i], Ty::Object(_)) {
            assert(!(views(observed@)[i as int] is Object));
            return false;
        }
        i += 1;
    }
    true
}

/// Appends to `out` the report of a declared union, if there is one.
fn push_union_report(
    constituents: &Vec<Ty>,
    shown: String,
    observed: &Vec<Ty>,
    path: &str,
    suppress_undefined: bool,
    out: &mut Vec<PathReport>,
)
    ensures
        views(final(out)@) == views(old(out)@) + union_report(
            views(constituents@),
            shown@,
            views(observed@),
            path@,
            suppress_undefined,
        ),
{
    let unused = unused_constituents(constituents, observed, suppress_undefined);
    assert(views(unused@).len() == unused@.len());
    let ghost before = out@;
    if unused.len() > 0 {
        let report = PathReport { path: path.to_owned(), declared: shown, unused };
        out.push(report);
        assert(views(out@) =~= views(before) + seq![report@]);
    } else {
        assert(views(out@) =~= views(before) + Seq::<ReportView>::empty());
    }
}

fn walk(
    declared: &Ty,
    observed: &Vec<Ty>,
    path: &str,
    suppress_undefined: bool,
    budget: usize,
    out: &mut Vec<PathReport>,
)
    ensures
        views(final(out)@) == views(old(out)@) + walk_reports(
            declared@,
            views(observed@),
            path@,
            suppress_undefined,
            budget as int,
        ),
    decreases declared,
{
    match declared {
        Ty::Bool => {
            let mut both: Vec<Ty> = Vec::new();
            both.push(Ty::BoolLit(false));
            both.push(Ty::BoolLit(true));
            assert(views(both@) =~= bool_constituents());
            push_union_report(
                &both,
                String::from_str("boolean"),
                observed,
                path,
                suppress_undefined,
                out,
            );
        },
        Ty::Union(parts) => {
            push_union_report(parts, print_ty(declared), observed, path, suppress_undefined, out);
        },
        Ty::Object(props) => {
            let ghost ps = views(props@);
            let ghost os = views(observed@);
            if !every_object(observed) {
                assert(views(out@) =~= views(old(out)@) + Seq::<ReportView>::empty());
                return;
            }
            assert(views(out@) =~= views(old(out)@) + walk_props(
                ps.take(0),
                os,
                path@,
                budget as int,
            ));
            let mut i: usize = 0;
            while i < props.len()
                invariant
                    i <= props@.len(),
                    *declared == Ty::Object(*props),
                    ps == views(props@),
                    os == views(observed@),
                    all_objects(os),
                    views(out@) == views(old(out)@) + walk_props(
                        ps.take(i as int),
                        os,
                        path@,
                        budget as int,
                    ),
                decreases props@.len() - i,
            {
                let prop = &props[i];
                let ghost before = views(out@);
                proof {
                    assert(decreases_to!(*declared => declared->Object_0));
                    assert(decreases_to!(declared->Object_0 => props@));
                    assert(decreases_to!(props@ => props@[i as int]));
                    assert(decreases_to!(props@[i as int] => props@[i as int].ty));
                    assert(ps.take(i + 1).drop_last() =~= ps.take(i as int));
                    assert(ps.take(i + 1)[i as int] == prop@);
                }
                let ghost here = walk_reports(
                    prop@.ty,
                    child_observed(os, prop@),
                    path@ + "."@ + prop@.name,
                    prop@.optional,
                    budget - 1,
                );
                if budget > 0 {
                    let child = child_observations(observed, prop);
                    let dotted = concat(path, ".");
                    let child_path = concat(dotted.as_str(), prop.name.as_str());
                    walk(
                        &prop.ty,
                        &child,
                        child_path.as_str(),
                        prop.optional,
                        budget - 1,
                        out,
                    );
                } else {
                    assert(views(out@) =~= before + here);
                }
                assert(views(out@) == before + here);
                assert(views(out@) =~= views(old(out)@) + walk_props(
                    ps.take(i + 1),
                    os,
                    path@,
                    budget as int,
                ));
                i += 1;
            }
            assert(ps.take(i as int) =~= ps);
        },
        _ => {
            assert(views(out@) =~= views(old(out)@) + Seq::<ReportView>::empty());
        },
    }
}

/// Reports the union constituents of a parameter's declared type that no
/// observed argument can produce. Optionality adds `undefined` to the effective
/// type; omitted calls observe it, and it is never reported (pure noise).
pub fn analyze_param(
    declared: &Ty,
    observed: &Vec<Ty>,
    optional_param: bool,
    max_depth: usize,
) -> (r: Vec<PathReport>)
    ensures
        views(r@) == param_reports(
            declared@,
            views(observed@),
            optional_param,
            max_depth as nat,
        ),
{
    let mut out: Vec<PathReport> = Vec::new();
    assert(views(out@) =~= Seq::<ReportView>::empty());
    if optional_param {
        let effective = add_undefined(declared);
        walk(&effective, observed, "", optional_param, max_depth, &mut out);
    } else {
        walk(declared, observed, "", optional_param, max_depth, &mut out);
    }
    proof {
        reveal_strlit("");
        assert(""@ =~= Seq::<char>::empty());
        assert(views(out@) =~= Seq::<ReportView>::empty() + views(out@));
    }
    out
}

} // verus!

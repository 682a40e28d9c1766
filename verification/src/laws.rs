//! What holds of the analysis as a whole.

use vstd::prelude::*;

use crate::link::{
    all_passed, decl_findings, example_sites, in_scope, module_findings, param_findings,
    params_findings, passed, project_findings, reportable, ScopeView,
};
use crate::model::{ArgsView, FindingView, OwnerView, TargetView, UsageKindView};
use crate::narrow::{
    all_objects, bool_constituents, child_observed, covers, covers_some, marked_by, marks,
    param_reports, reported, union_report, unused_texts, used, walk_props, walk_reports,
    ReportView,
};
use crate::order::{law_sorted, sorted};
use crate::report::{
    all_uncalled, categories, count_of, module_categories, module_uncalled, Category,
};
use crate::resolve::{
    find_local, home_name, import_module, imported_definition, resolved, NameKind, ProjectView,
};
use crate::taint::{
    attributed, calls_before, calls_decl, calls_to, calls_within, covered, covers_decl, escaped,
    lets_escape, offers, target_taints, usage_taints, TaintView,
};
use crate::ty::{printed, split_parts, with_undefined, RPropView, TyView};

verus! {

// ---------------------------------------------------------------------------
// Narrowing
// ---------------------------------------------------------------------------

/// Every text that is reported is that of a constituent that is reported.
proof fn lemma_unused_texts(
    list: Seq<TyView>,
    observed: Seq<TyView>,
    constituents: Seq<TyView>,
    suppress: bool,
    k: int,
)
    requires
        0 <= k < unused_texts(list, observed, constituents, suppress).len(),
    ensures
        exists|j: int|
            0 <= j < list.len() && reported(observed, constituents, suppress, #[trigger] list[j])
                && printed(list[j]) == unused_texts(list, observed, constituents, suppress)[k],
    decreases list.len(),
{
    let before = unused_texts(list.drop_last(), observed, constituents, suppress);
    if k < before.len() {
        lemma_unused_texts(list.drop_last(), observed, constituents, suppress, k);
        let j = choose|j: int|
            0 <= j < list.drop_last().len() && reported(
                observed,
                constituents,
                suppress,
                #[trigger] list.drop_last()[j],
            ) && printed(list.drop_last()[j]) == before[k];
        assert(list[j] == list.drop_last()[j]);
    } else {
        assert(reported(observed, constituents, suppress, list[list.len() - 1]));
    }
}

/// A constituent that is reported is among the texts.
proof fn lemma_reported_is_shown(
    list: Seq<TyView>,
    observed: Seq<TyView>,
    constituents: Seq<TyView>,
    suppress: bool,
    j: int,
)
    requires
        0 <= j < list.len(),
        reported(observed, constituents, suppress, list[j]),
    ensures
        unused_texts(list, observed, constituents, suppress).contains(printed(list[j])),
    decreases list.len(),
{
    let before = unused_texts(list.drop_last(), observed, constituents, suppress);
    let all = unused_texts(list, observed, constituents, suppress);
    if j == list.len() - 1 {
        assert(all[before.len() as int] == printed(list[j]));
    } else {
        lemma_reported_is_shown(list.drop_last(), observed, constituents, suppress, j);
        let k = choose|k: int| 0 <= k < before.len() && before[k] == printed(list[j]);
        assert(all[k] == before[k]);
    }
}

/// A constituent is reported only when every observed argument excludes it:
/// each part of each argument is known, cannot carry the constituent, and can
/// carry some other one.
pub proof fn law_reported_is_excluded(
    observed: Seq<TyView>,
    constituents: Seq<TyView>,
    suppress: bool,
    c: TyView,
    i: int,
    k: int,
)
    requires
        reported(observed, constituents, suppress, c),
        0 <= i < observed.len(),
        0 <= k < split_parts(observed[i]).len(),
    ensures
        ({
            let part = split_parts(observed[i])[k];
            !(part is AnyLike) && !covers(part, c) && covers_some(part, constituents)
        }),
{
    let part = split_parts(observed[i])[k];
    if marks(part, constituents, c) {
        assert(marked_by(observed[i], constituents, c));
        assert(used(observed, constituents, c));
    }
}

/// The reports for a union name constituents of it that every observed
/// argument excludes, and no others.
pub proof fn law_union_report_is_exact(
    constituents: Seq<TyView>,
    shown: Seq<char>,
    observed: Seq<TyView>,
    path: Seq<char>,
    suppress: bool,
    text: Seq<char>,
)
    ensures
        (union_report(constituents, shown, observed, path, suppress).len() == 1 && union_report(
            constituents,
            shown,
            observed,
            path,
            suppress,
        )[0].unused.contains(text)) <==> (exists|j: int|
            0 <= j < constituents.len() && reported(
                observed,
                constituents,
                suppress,
                #[trigger] constituents[j],
            ) && printed(constituents[j]) == text),
{
    let unused = unused_texts(constituents, observed, constituents, suppress);
    if unused.contains(text) {
        let k = choose|k: int| 0 <= k < unused.len() && unused[k] == text;
        lemma_unused_texts(constituents, observed, constituents, suppress, k);
    }
    if exists|j: int|
        0 <= j < constituents.len() && reported(
            observed,
            constituents,
            suppress,
            #[trigger] constituents[j],
        ) && printed(constituents[j]) == text {
        let j = choose|j: int|
            0 <= j < constituents.len() && reported(
                observed,
                constituents,
                suppress,
                #[trigger] constituents[j],
            ) && printed(constituents[j]) == text;
        lemma_reported_is_shown(constituents, observed, constituents, suppress, j);
    }
}

proof fn lemma_any_uses_all(observed: Seq<TyView>, constituents: Seq<TyView>, c: TyView)
    requires
        observed.contains(TyView::AnyLike),
    ensures
        used(observed, constituents, c),
{
    let i = choose|i: int| 0 <= i < observed.len() && observed[i] == TyView::AnyLike;
    assert(split_parts(observed[i])[0] == TyView::AnyLike);
    assert(marks(split_parts(observed[i])[0], constituents, c));
    assert(marked_by(observed[i], constituents, c));
}

proof fn lemma_any_silences_union(
    list: Seq<TyView>,
    observed: Seq<TyView>,
    constituents: Seq<TyView>,
    suppress: bool,
)
    requires
        observed.contains(TyView::AnyLike),
    ensures
        unused_texts(list, observed, constituents, suppress).len() == 0,
    decreases list.len(),
{
    if list.len() > 0 {
        lemma_any_silences_union(list.drop_last(), observed, constituents, suppress);
        lemma_any_uses_all(observed, constituents, list.last());
    }
}

/// A single argument that cannot be proved anything about silences the
/// parameter: nothing is reported for it.
pub proof fn law_unprovable_argument_silences(
    declared: TyView,
    observed: Seq<TyView>,
    optional: bool,
    max_depth: nat,
)
    requires
        observed.contains(TyView::AnyLike),
    ensures
        param_reports(declared, observed, optional, max_depth).len() == 0,
{
    let t = if optional {
        with_undefined(declared)
    } else {
        declared
    };
    match t {
        TyView::Union(parts) => {
            lemma_any_silences_union(parts, observed, parts, optional);
        },
        TyView::Bool => {
            lemma_any_silences_union(
                bool_constituents(),
                observed,
                bool_constituents(),
                optional,
            );
        },
        TyView::Object(props) => {
            let i = choose|i: int| 0 <= i < observed.len() && observed[i] == TyView::AnyLike;
            assert(!(observed[i] is Object));
        },
        _ => {},
    }
}

/// That a parameter is optional is never reported as an unused `undefined`.
pub proof fn law_optional_undefined_is_silent(observed: Seq<TyView>, constituents: Seq<TyView>)
    ensures
        !reported(observed, constituents, true, TyView::Undefined),
{
}

/// `boolean` narrows as the union of `false` and `true`, under its own name.
pub proof fn law_boolean_is_a_union(
    observed: Seq<TyView>,
    path: Seq<char>,
    suppress: bool,
    budget: int,
)
    ensures
        walk_reports(TyView::Bool, observed, path, suppress, budget).len() == walk_reports(
            TyView::Union(bool_constituents()),
            observed,
            path,
            suppress,
            budget,
        ).len(),
        forall|i: int|
            #![trigger walk_reports(TyView::Bool, observed, path, suppress, budget)[i]]
            0 <= i < walk_reports(TyView::Bool, observed, path, suppress, budget).len() ==> {
                let flag = walk_reports(TyView::Bool, observed, path, suppress, budget)[i];
                let union = walk_reports(
                    TyView::Union(bool_constituents()),
                    observed,
                    path,
                    suppress,
                    budget,
                )[i];
                flag.path == union.path && flag.unused == union.unused && flag.declared
                    == "boolean"@
            },
{
}

/// Whether every observation of `fewer` is among `more`.
pub open spec fn includes(more: Seq<TyView>, fewer: Seq<TyView>) -> bool {
    forall|i: int| 0 <= i < fewer.len() ==> more.contains(#[trigger] fewer[i])
}

/// Whether every report of `few` is one of `many` with perhaps fewer texts.
pub open spec fn within(few: Seq<ReportView>, many: Seq<ReportView>) -> bool {
    forall|i: int| 0 <= i < few.len() ==> report_within(#[trigger] few[i], many)
}

pub open spec fn report_within(r: ReportView, many: Seq<ReportView>) -> bool {
    exists|j: int|
        0 <= j < many.len() && (#[trigger] many[j]).path == r.path && many[j].declared == r.declared
            && texts_within(r.unused, many[j].unused)
}

pub open spec fn texts_within(few: Seq<Seq<char>>, many: Seq<Seq<char>>) -> bool {
    forall|i: int| 0 <= i < few.len() ==> many.contains(#[trigger] few[i])
}

proof fn lemma_used_grows(
    more: Seq<TyView>,
    fewer: Seq<TyView>,
    constituents: Seq<TyView>,
    c: TyView,
)
    requires
        includes(more, fewer),
        used(fewer, constituents, c),
    ensures
        used(more, constituents, c),
{
    let i = choose|i: int| 0 <= i < fewer.len() && marked_by(#[trigger] fewer[i], constituents, c);
    let j = choose|j: int| 0 <= j < more.len() && more[j] == fewer[i];
    assert(marked_by(more[j], constituents, c));
}

proof fn lemma_unused_shrinks(
    list: Seq<TyView>,
    more: Seq<TyView>,
    fewer: Seq<TyView>,
    constituents: Seq<TyView>,
    suppress: bool,
)
    requires
        includes(more, fewer),
    ensures
        texts_within(
            unused_texts(list, more, constituents, suppress),
            unused_texts(list, fewer, constituents, suppress),
        ),
{
    let few = unused_texts(list, more, constituents, suppress);
    let many = unused_texts(list, fewer, constituents, suppress);
    assert forall|k: int| 0 <= k < few.len() implies many.contains(#[trigger] few[k]) by {
        lemma_unused_texts(list, more, constituents, suppress, k);
        let j = choose|j: int|
            0 <= j < list.len() && reported(more, constituents, suppress, #[trigger] list[j])
                && printed(list[j]) == few[k];
        if used(fewer, constituents, list[j]) {
            lemma_used_grows(more, fewer, constituents, list[j]);
        }
        lemma_reported_is_shown(list, fewer, constituents, suppress, j);
    }
}

proof fn lemma_union_shrinks(
    constituents: Seq<TyView>,
    shown: Seq<char>,
    more: Seq<TyView>,
    fewer: Seq<TyView>,
    path: Seq<char>,
    suppress: bool,
)
    requires
        includes(more, fewer),
    ensures
        within(
            union_report(constituents, shown, more, path, suppress),
            union_report(constituents, shown, fewer, path, suppress),
        ),
{
    let few = union_report(constituents, shown, more, path, suppress);
    let many = union_report(constituents, shown, fewer, path, suppress);
    lemma_unused_shrinks(constituents, more, fewer, constituents, suppress);
    if few.len() > 0 {
        assert(few[0].unused.len() > 0);
        assert(many.len() == 1) by {
            let a = unused_texts(constituents, more, constituents, suppress);
            let b = unused_texts(constituents, fewer, constituents, suppress);
            assert(b.contains(a[0]));
        }
        assert(many[0].path == few[0].path);
    }
}

proof fn lemma_children_included(more: Seq<TyView>, fewer: Seq<TyView>, prop: RPropView)
    requires
        includes(more, fewer),
    ensures
        includes(child_observed(more, prop), child_observed(fewer, prop)),
{
    let a = child_observed(more, prop);
    let b = child_observed(fewer, prop);
    assert forall|i: int| 0 <= i < b.len() implies a.contains(#[trigger] b[i]) by {
        let j = choose|j: int| 0 <= j < more.len() && more[j] == fewer[i];
        assert(more.contains(fewer[i]));
        assert(a[j] == b[i]);
    }
}

/// More calls never add a report: whatever is reported with them is reported,
/// at the same path, without them.
pub proof fn law_more_calls_report_less(
    declared: TyView,
    more: Seq<TyView>,
    fewer: Seq<TyView>,
    path: Seq<char>,
    suppress: bool,
    budget: int,
)
    requires
        includes(more, fewer),
    ensures
        within(
            walk_reports(declared, more, path, suppress, budget),
            walk_reports(declared, fewer, path, suppress, budget),
        ),
    decreases declared,
{
    if budget >= 0 {
        match declared {
            TyView::Bool => lemma_union_shrinks(
                bool_constituents(),
                "boolean"@,
                more,
                fewer,
                path,
                suppress,
            ),
            TyView::Union(parts) => lemma_union_shrinks(
                parts,
                printed(declared),
                more,
                fewer,
                path,
                suppress,
            ),
            TyView::Object(props) => {
                if all_objects(more) {
                    lemma_objects_included(more, fewer);
                    lemma_props_report_less(props, more, fewer, path, budget);
                }
            },
            _ => {},
        }
    }
}

proof fn lemma_props_report_less(
    props: Seq<RPropView>,
    more: Seq<TyView>,
    fewer: Seq<TyView>,
    path: Seq<char>,
    budget: int,
)
    requires
        includes(more, fewer),
    ensures
        within(
            walk_props(props, more, path, budget),
            walk_props(props, fewer, path, budget),
        ),
    decreases props,
{
    if props.len() > 0 {
        let p = props[props.len() - 1];
        lemma_props_report_less(props.drop_last(), more, fewer, path, budget);
        lemma_children_included(more, fewer, p);
        law_more_calls_report_less(
            p.ty,
            child_observed(more, p),
            child_observed(fewer, p),
            path + "."@ + p.name,
            p.optional,
            budget - 1,
        );
        let few1 = walk_props(props.drop_last(), more, path, budget);
        let many1 = walk_props(props.drop_last(), fewer, path, budget);
        let few2 = walk_reports(
            p.ty,
            child_observed(more, p),
            path + "."@ + p.name,
            p.optional,
            budget - 1,
        );
        let many2 = walk_reports(
            p.ty,
            child_observed(fewer, p),
            path + "."@ + p.name,
            p.optional,
            budget - 1,
        );
        let few = few1 + few2;
        let many = many1 + many2;
        assert forall|i: int| 0 <= i < few.len() implies report_within(#[trigger] few[i], many) by {
            if i < few1.len() {
                assert(few1[i] == few[i]);
                assert(report_within(few1[i], many1));
                let j = choose|j: int|
                    0 <= j < many1.len() && (#[trigger] many1[j]).path == few[i].path
                        && many1[j].declared == few[i].declared && texts_within(
                        few[i].unused,
                        many1[j].unused,
                    );
                assert(many[j] == many1[j]);
            } else {
                assert(few2[i - few1.len()] == few[i]);
                assert(report_within(few2[i - few1.len()], many2));
                let j = choose|j: int|
                    0 <= j < many2.len() && (#[trigger] many2[j]).path == few[i].path
                        && many2[j].declared == few[i].declared && texts_within(
                        few[i].unused,
                        many2[j].unused,
                    );
                assert(many[many1.len() + j] == many2[j]);
            }
        }
    }
}

proof fn lemma_same_texts(
    list: Seq<TyView>,
    a: Seq<TyView>,
    b: Seq<TyView>,
    constituents: Seq<TyView>,
    suppress: bool,
)
    requires
        includes(a, b),
        includes(b, a),
    ensures
        unused_texts(list, a, constituents, suppress) == unused_texts(
            list,
            b,
            constituents,
            suppress,
        ),
    decreases list.len(),
{
    if list.len() > 0 {
        lemma_same_texts(list.drop_last(), a, b, constituents, suppress);
        let c = list.last();
        if used(a, constituents, c) {
            lemma_used_grows(b, a, constituents, c);
        }
        if used(b, constituents, c) {
            lemma_used_grows(a, b, constituents, c);
        }
    }
}

proof fn lemma_objects_included(more: Seq<TyView>, fewer: Seq<TyView>)
    requires
        includes(more, fewer),
        all_objects(more),
    ensures
        all_objects(fewer),
{
    assert forall|i: int| 0 <= i < fewer.len() implies (#[trigger] fewer[i]) is Object by {
        assert(more.contains(fewer[i]));
        let j = choose|j: int| 0 <= j < more.len() && more[j] == fewer[i];
        assert(more[j] is Object);
    }
}

/// The order of the calls and repeated arguments do not matter: the reports
/// are the same for the same arguments.
pub proof fn law_order_does_not_matter(
    declared: TyView,
    a: Seq<TyView>,
    b: Seq<TyView>,
    path: Seq<char>,
    suppress: bool,
    budget: int,
)
    requires
        includes(a, b),
        includes(b, a),
    ensures
        walk_reports(declared, a, path, suppress, budget) == walk_reports(
            declared,
            b,
            path,
            suppress,
            budget,
        ),
    decreases declared,
{
    if budget >= 0 {
        match declared {
            TyView::Bool => lemma_same_texts(
                bool_constituents(),
                a,
                b,
                bool_constituents(),
                suppress,
            ),
            TyView::Union(parts) => lemma_same_texts(parts, a, b, parts, suppress),
            TyView::Object(props) => {
                if all_objects(a) {
                    lemma_objects_included(a, b);
                    lemma_props_same(props, a, b, path, budget);
                } else if all_objects(b) {
                    lemma_objects_included(b, a);
                }
            },
            _ => {},
        }
    }
}

proof fn lemma_props_same(
    props: Seq<RPropView>,
    a: Seq<TyView>,
    b: Seq<TyView>,
    path: Seq<char>,
    budget: int,
)
    requires
        includes(a, b),
        includes(b, a),
    ensures
        walk_props(props, a, path, budget) == walk_props(props, b, path, budget),
    decreases props,
{
    if props.len() > 0 {
        let p = props[props.len() - 1];
        lemma_props_same(props.drop_last(), a, b, path, budget);
        lemma_children_included(a, b, p);
        lemma_children_included(b, a, p);
        law_order_does_not_matter(
            p.ty,
            child_observed(a, p),
            child_observed(b, p),
            path + "."@ + p.name,
            p.optional,
            budget - 1,
        );
    }
}

/// Whether each of `reports` names at least one constituent.
pub open spec fn none_empty(reports: Seq<ReportView>) -> bool {
    forall|i: int| 0 <= i < reports.len() ==> (#[trigger] reports[i]).unused.len() > 0
}

/// Every report names at least one constituent.
pub proof fn law_reports_are_not_empty(
    declared: TyView,
    observed: Seq<TyView>,
    path: Seq<char>,
    suppress: bool,
    budget: int,
)
    ensures
        none_empty(walk_reports(declared, observed, path, suppress, budget)),
    decreases declared,
{
    if budget >= 0 {
        if let TyView::Object(props) = declared {
            if all_objects(observed) {
                lemma_props_not_empty(props, observed, path, budget);
            }
        }
    }
}

proof fn lemma_props_not_empty(
    props: Seq<RPropView>,
    observed: Seq<TyView>,
    path: Seq<char>,
    budget: int,
)
    ensures
        none_empty(walk_props(props, observed, path, budget)),
    decreases props,
{
    if props.len() > 0 {
        let p = props[props.len() - 1];
        lemma_props_not_empty(props.drop_last(), observed, path, budget);
        law_reports_are_not_empty(
            p.ty,
            child_observed(observed, p),
            path + "."@ + p.name,
            p.optional,
            budget - 1,
        );
    }
}

/// A place in a declared type: what is declared there, what the calls pass for
/// it, its property path, and whether it is optional.
#[verifier::ext_equal]
pub struct Spot {
    pub declared: TyView,
    pub observed: Seq<TyView>,
    pub path: Seq<char>,
    pub optional: bool,
}

/// Whether the property at position `i` of a spot is looked into.
pub open spec fn opens(spot: Spot, i: int) -> bool {
    spot.declared is Object && 0 <= i < spot.declared->Object_0.len() && all_objects(spot.observed)
}

/// The property at position `i` of a spot.
pub open spec fn inside(spot: Spot, i: int) -> Spot {
    let p = spot.declared->Object_0[i];
    Spot {
        declared: p.ty,
        observed: child_observed(spot.observed, p),
        path: spot.path + "."@ + p.name,
        optional: p.optional,
    }
}

/// Whether following the given properties leads from one spot to another.
pub open spec fn leads(from: Spot, steps: Seq<int>, to: Spot) -> bool
    decreases steps.len(),
{
    if steps.len() == 0 {
        from == to
    } else {
        opens(from, steps[0]) && leads(inside(from, steps[0]), steps.drop_first(), to)
    }
}

/// The constituents that a declared type chooses from, if it is a union.
pub open spec fn choices(t: TyView) -> Option<Seq<TyView>> {
    match t {
        TyView::Union(parts) => Some(parts),
        TyView::Bool => Some(bool_constituents()),
        _ => None,
    }
}

/// Whether a report states of a spot what holds there: it names just the
/// constituents that every observed argument excludes.
pub open spec fn states(spot: Spot, r: ReportView) -> bool {
    &&& r.path == spot.path
    &&& choices(spot.declared) is Some
    &&& forall|text: Seq<char>| #[trigger]
        r.unused.contains(text) <==> exists|j: int|
            0 <= j < choices(spot.declared)->0.len() && reported(
                spot.observed,
                choices(spot.declared)->0,
                spot.optional,
                #[trigger] choices(spot.declared)->0[j],
            ) && printed(choices(spot.declared)->0[j]) == text
}

/// Whether a report holds of a spot that at most `budget` properties lead to.
pub open spec fn justified(from: Spot, budget: int, r: ReportView) -> bool {
    exists|steps: Seq<int>, to: Spot| #[trigger]
        leads(from, steps, to) && steps.len() <= budget && states(to, r)
}

/// Every report holds of a place in the declared type, no deeper than allowed,
/// and names just the constituents that the arguments exclude there.
pub proof fn law_reports_are_justified(from: Spot, budget: int, k: int)
    requires
        0 <= k < walk_reports(
            from.declared,
            from.observed,
            from.path,
            from.optional,
            budget,
        ).len(),
    ensures
        justified(
            from,
            budget,
            walk_reports(from.declared, from.observed, from.path, from.optional, budget)[k],
        ),
    decreases from.declared, from.declared->Object_0.len() + 1,
{
    let reports = walk_reports(from.declared, from.observed, from.path, from.optional, budget);
    match from.declared {
        TyView::Object(props) => {
            assert(props =~= props.take(props.len() as int));
            lemma_prop_reports_justified(from, props, budget, k);
        },
        _ => {
            let cs = choices(from.declared)->0;
            let shown = if from.declared is Bool {
                "boolean"@
            } else {
                printed(from.declared)
            };
            assert(reports == union_report(cs, shown, from.observed, from.path, from.optional));
            assert forall|text: Seq<char>| #[trigger]
                reports[k].unused.contains(text) <==> exists|j: int|
                    0 <= j < cs.len() && reported(
                        from.observed,
                        cs,
                        from.optional,
                        #[trigger] cs[j],
                    ) && printed(cs[j]) == text by {
                law_union_report_is_exact(
                    cs,
                    shown,
                    from.observed,
                    from.path,
                    from.optional,
                    text,
                );
            }
            assert(leads(from, Seq::empty(), from));
            assert(states(from, reports[k]));
        },
    }
}

/// The reports for the first properties of an object are justified.
proof fn lemma_prop_reports_justified(from: Spot, props: Seq<RPropView>, budget: int, k: int)
    requires
        budget >= 0,
        from.declared is Object,
        all_objects(from.observed),
        props.len() <= from.declared->Object_0.len(),
        props == from.declared->Object_0.take(props.len() as int),
        0 <= k < walk_props(props, from.observed, from.path, budget).len(),
    ensures
        justified(from, budget, walk_props(props, from.observed, from.path, budget)[k]),
    decreases from.declared, props.len(),
{
    let all = from.declared->Object_0;
    let n = props.len() - 1;
    let before = walk_props(props.drop_last(), from.observed, from.path, budget);
    let r = walk_props(props, from.observed, from.path, budget)[k];
    assert(props[n] == all[n]);
    if k < before.len() {
        assert(props.drop_last() =~= all.take(n));
        lemma_prop_reports_justified(from, props.drop_last(), budget, k);
    } else {
        let child = inside(from, n);
        law_reports_are_justified(child, budget - 1, k - before.len());
        let (steps, to) = choose|steps: Seq<int>, to: Spot| #[trigger]
            leads(child, steps, to) && steps.len() <= budget - 1 && states(to, r);
        let longer = seq![n] + steps;
        assert(longer.drop_first() =~= steps);
        assert(leads(from, longer, to));
    }
}

// ---------------------------------------------------------------------------
// Escapes and calls
// ---------------------------------------------------------------------------

proof fn lemma_calls_within(p: ProjectView, mid: int, n: int, k: int, m: int, d: int)
    requires
        0 <= k,
    ensures
        calls_within(p, mid, n, m, d).contains((mid, k)) <==> k < n && calls_decl(
            p,
            mid,
            k,
            m,
            d,
        ),
        forall|i: int|
            0 <= i < calls_within(p, mid, n, m, d).len() ==> (#[trigger] calls_within(
                p,
                mid,
                n,
                m,
                d,
            )[i]).0 == mid,
    decreases n,
{
    if n > 0 {
        lemma_calls_within(p, mid, n - 1, k, m, d);
        let before = calls_within(p, mid, n - 1, m, d);
        let after = calls_within(p, mid, n, m, d);
        if calls_decl(p, mid, n - 1, m, d) {
            assert(after == before.push((mid, n - 1)));
            assert(after[before.len() as int] == (mid, n - 1));
            if before.contains((mid, k)) {
                let i = choose|i: int| 0 <= i < before.len() && before[i] == (mid, k);
                assert(after[i] == (mid, k));
            }
            if after.contains((mid, k)) && k != n - 1 {
                let i = choose|i: int| 0 <= i < after.len() && after[i] == (mid, k);
                assert(before[i] == (mid, k));
            }
            assert forall|i: int| 0 <= i < after.len() implies (#[trigger] after[i]).0 == mid by {
                if i < before.len() {
                    assert(after[i] == before[i]);
                }
            }
        }
    }
}

proof fn lemma_calls_before(p: ProjectView, n: int, mid: int, k: int, m: int, d: int)
    requires
        0 <= mid,
        0 <= k < p.modules[mid].usages.len(),
    ensures
        calls_before(p, n, m, d).contains((mid, k)) <==> mid < n && calls_decl(p, mid, k, m, d),
    decreases n,
{
    if n > 0 {
        lemma_calls_before(p, n - 1, mid, k, m, d);
        let a = calls_before(p, n - 1, m, d);
        let b = calls_within(p, n - 1, p.modules[n - 1].usages.len() as int, m, d);
        lemma_calls_within(p, n - 1, p.modules[n - 1].usages.len() as int, k, m, d);
        let all = a + b;
        if a.contains((mid, k)) {
            let i = choose|i: int| 0 <= i < a.len() && a[i] == (mid, k);
            assert(all[i] == (mid, k));
        }
        if b.contains((mid, k)) {
            let i = choose|i: int| 0 <= i < b.len() && b[i] == (mid, k);
            assert(all[a.len() + i] == (mid, k));
        }
        if all.contains((mid, k)) {
            let i = choose|i: int| 0 <= i < all.len() && all[i] == (mid, k);
            if i < a.len() {
                assert(a[i] == (mid, k));
            } else {
                assert(b[i - a.len()] == (mid, k));
                assert(mid == n - 1);
            }
        }
    }
}

/// The calls of a declaration are just the call usages of the project, in any
/// module, that are attributed to it.
pub proof fn law_calls_span_the_project(p: ProjectView, mid: int, k: int, m: int, d: int)
    requires
        0 <= mid < p.modules.len(),
        0 <= k < p.modules[mid].usages.len(),
    ensures
        calls_to(p, m, d).contains((mid, k)) <==> calls_decl(p, mid, k, m, d),
{
    lemma_calls_before(p, p.modules.len() as int, mid, k, m, d);
}

/// A function that is referenced other than by a call is never reported.
pub proof fn law_reference_silences(
    p: ProjectView,
    mid: int,
    k: int,
    m: int,
    d: int,
    s: ScopeView,
)
    requires
        0 <= mid < p.modules.len(),
        0 <= k < p.modules[mid].usages.len(),
        p.modules[mid].usages[k].kind is Escape,
        attributed(p, mid as usize, p.modules[mid].usages[k].target) == Some((m, d)),
    ensures
        escaped(p, m, d),
        decl_findings(p, m, d, s).len() == 0,
{
    let t = TaintView::Decl((m, d));
    let taints = usage_taints(p, mid as usize, p.modules[mid].usages[k]);
    assert(taints[0] == t);
    assert(covers_decl(p, t, m, d));
    assert(lets_escape(p, mid, k, m, d));
}

/// A usage that names no single declaration lets every declaration escape that
/// it might mean, so that none of them is reported.
pub proof fn law_unattributed_usage_silences(
    p: ProjectView,
    mid: int,
    k: int,
    t: int,
    m: int,
    d: int,
    s: ScopeView,
)
    requires
        0 <= mid < p.modules.len(),
        0 <= k < p.modules[mid].usages.len(),
        attributed(p, mid as usize, p.modules[mid].usages[k].target) is None,
        0 <= t < target_taints(p, mid as usize, p.modules[mid].usages[k].target).len(),
        covers_decl(p, target_taints(p, mid as usize, p.modules[mid].usages[k].target)[t], m, d),
    ensures
        escaped(p, m, d),
        decl_findings(p, m, d, s).len() == 0,
{
    assert(covered(
        p,
        usage_taints(p, mid as usize, p.modules[mid].usages[k]),
        m,
        d,
    ));
    assert(lets_escape(p, mid, k, m, d));
}

/// A use of a name that nothing in its module binds silences every free
/// function of that name; a member used of an unknown receiver silences every
/// method of that name.
pub proof fn law_unknown_receiver_silences(
    p: ProjectView,
    mid: int,
    k: int,
    m: int,
    d: int,
    s: ScopeView,
)
    requires
        0 <= mid < p.modules.len(),
        0 <= k < p.modules[mid].usages.len(),
        (match p.modules[mid].usages[k].target {
            TargetView::AnyFreeNamed(name) => p.modules[m].decls[d].owner is Free
                && p.modules[m].decls[d].name == name,
            TargetView::AnyMethodNamed(name) => p.modules[m].decls[d].owner !is Free
                && p.modules[m].decls[d].name == name,
            _ => false,
        }),
    ensures
        escaped(p, m, d),
        decl_findings(p, m, d, s).len() == 0,
{
    law_unattributed_usage_silences(p, mid, k, 0, m, d, s);
}

/// A use of an import that cannot be resolved silences everything of the name
/// that it binds, in any module, and of the name that it was imported by.
pub proof fn law_unresolved_import_silences(
    p: ProjectView,
    mid: int,
    k: int,
    local: Seq<char>,
    m: int,
    d: int,
    s: ScopeView,
)
    requires
        0 <= mid < p.modules.len() <= usize::MAX,
        0 <= k < p.modules[mid].usages.len(),
        p.modules[mid].usages[k].target == (TargetView::Imported { local }),
        imported_definition(p, mid as usize, local, NameKind::Value) is None,
        ({
            let home = home_name(p.modules[m].decls[d]);
            let imports = p.modules[mid].imports;
            home == local || (imports.contains_key(local) && imports[local].name != "default"@
                && imports[local].name != "*"@ && home == imports[local].name)
        }),
    ensures
        escaped(p, m, d),
        decl_findings(p, m, d, s).len() == 0,
{
    let home = home_name(p.modules[m].decls[d]);
    if home == local {
        law_unattributed_usage_silences(p, mid, k, 0, m, d, s);
    } else {
        law_unattributed_usage_silences(p, mid, k, 1, m, d, s);
    }
}

/// A class or object that is used as a value takes all its members with it.
pub proof fn law_class_as_value_silences(
    p: ProjectView,
    mid: int,
    k: int,
    c: Seq<char>,
    m: int,
    d: int,
    s: ScopeView,
)
    requires
        0 <= mid < p.modules.len(),
        0 <= k < p.modules[mid].usages.len(),
        p.modules[mid].usages[k].target == TargetView::AllMembersOf(OwnerView::Class(c))
            || p.modules[mid].usages[k].target == TargetView::AllMembersOf(
            OwnerView::ObjectConst(c),
        ),
        0 <= m <= usize::MAX,
        find_local(p, mid as usize, c, NameKind::Value) == Some(
            (m as usize, home_name(p.modules[m].decls[d])),
        ),
    ensures
        escaped(p, m, d),
        decl_findings(p, m, d, s).len() == 0,
{
    law_unattributed_usage_silences(p, mid, k, 0, m, d, s);
}

/// A namespace that is used as a value takes everything with it that its
/// module declares, re-exports by name, or reaches by star re-exports.
pub proof fn law_namespace_as_value_silences(
    p: ProjectView,
    mid: int,
    k: int,
    ns: Seq<char>,
    m: int,
    d: int,
    s: ScopeView,
)
    requires
        0 <= mid < p.modules.len(),
        0 <= k < p.modules[mid].usages.len(),
        p.modules[mid].usages[k].target == (TargetView::AllExportsOfModule { ns_local: ns }),
        import_module(p, mid as usize, ns) is Some,
        offers(
            p,
            import_module(p, mid as usize, ns)->0 as int,
            m,
            home_name(p.modules[m].decls[d]),
        ),
    ensures
        escaped(p, m, d),
        decl_findings(p, m, d, s).len() == 0,
{
    law_unattributed_usage_silences(p, mid, k, 0, m, d, s);
}

/// A call whose arguments cannot be told apart, as one with a spread,
/// silences the whole function.
pub proof fn law_unknown_arguments_silence(
    p: ProjectView,
    m: int,
    d: int,
    i: int,
    site: int,
    max_depth: nat,
)
    requires
        0 <= site < calls_to(p, m, d).len(),
        ({
            let call = calls_to(p, m, d)[site];
            !(p.modules[call.0].usages[call.1].kind matches UsageKindView::Call(
                ArgsView::Args(_),
            ))
        }),
    ensures
        param_findings(p, m, d, i, max_depth).len() == 0,
{
    let param = p.modules[m].decls[d].params[i];
    let observed = all_passed(p, m, param, i, calls_to(p, m, d));
    assert(observed[site] == TyView::AnyLike);
    if param.ty is Some {
        law_unprovable_argument_silences(
            resolved(p, param.ty->0, m as usize, Seq::empty(), 0),
            observed,
            param.optional,
            max_depth,
        );
    }
}

/// One argument that nothing is known of silences its parameter.
pub proof fn law_opaque_argument_silences(
    p: ProjectView,
    m: int,
    d: int,
    i: int,
    site: int,
    max_depth: nat,
)
    requires
        0 <= site < calls_to(p, m, d).len(),
        passed(p, m, p.modules[m].decls[d].params[i], i, calls_to(p, m, d)[site]) is AnyLike,
    ensures
        param_findings(p, m, d, i, max_depth).len() == 0,
{
    let param = p.modules[m].decls[d].params[i];
    let observed = all_passed(p, m, param, i, calls_to(p, m, d));
    assert(observed[site] == TyView::AnyLike);
    if param.ty is Some {
        law_unprovable_argument_silences(
            resolved(p, param.ty->0, m as usize, Seq::empty(), 0),
            observed,
            param.optional,
            max_depth,
        );
    }
}

// ---------------------------------------------------------------------------
// Findings
// ---------------------------------------------------------------------------

/// A parameter with what the calls of its function pass for it.
pub open spec fn param_spot(p: ProjectView, m: int, d: int, i: int) -> Spot {
    let param = p.modules[m].decls[d].params[i];
    let declared = resolved(p, param.ty->0, m as usize, Seq::empty(), 0);
    Spot {
        declared: if param.optional {
            with_undefined(declared)
        } else {
            declared
        },
        observed: all_passed(p, m, param, i, calls_to(p, m, d)),
        path: Seq::empty(),
        optional: param.optional,
    }
}

/// Whether a finding states what holds of a parameter: the function may be
/// reported, and at the finding's path every call excludes just the
/// constituents that it names.
pub open spec fn proved(
    p: ProjectView,
    s: ScopeView,
    m: int,
    d: int,
    i: int,
    f: FindingView,
) -> bool {
    let module = p.modules[m];
    &&& 0 <= m < p.modules.len()
    &&& 0 <= d < module.decls.len()
    &&& 0 <= i < module.decls[d].params.len()
    &&& module.decls[d].params[i].ty is Some
    &&& reportable(p, m, d, s)
    &&& f.file == module.rel
    &&& f.line == module.decls[d].line
    &&& f.function_name == module.decls[d].name
    &&& f.param == module.decls[d].params[i].name
    &&& f.unused.len() > 0
    &&& f.call_count == calls_to(p, m, d).len()
    &&& f.call_count > 0
    &&& f.sites == example_sites(p, calls_to(p, m, d))
    &&& f.sites.len() == if f.call_count < 3 {
        f.call_count
    } else {
        3
    }
    &&& justified(
        param_spot(p, m, d, i),
        s.max_depth as int,
        ReportView { path: f.path, declared: f.declared, unused: f.unused },
    )
}

/// Whether a finding is proved of some parameter of the project.
pub open spec fn proved_somewhere(p: ProjectView, s: ScopeView, f: FindingView) -> bool {
    exists|m: int, d: int, i: int| #[trigger] proved(p, s, m, d, i, f)
}

proof fn lemma_params_proved(p: ProjectView, s: ScopeView, m: int, d: int, n: int, k: int)
    requires
        0 <= m < p.modules.len(),
        0 <= d < p.modules[m].decls.len(),
        n <= p.modules[m].decls[d].params.len(),
        reportable(p, m, d, s),
        0 <= k < params_findings(p, m, d, n, s.max_depth).len(),
    ensures
        proved_somewhere(p, s, params_findings(p, m, d, n, s.max_depth)[k]),
    decreases n,
{
    let before = params_findings(p, m, d, n - 1, s.max_depth);
    if k < before.len() {
        lemma_params_proved(p, s, m, d, n - 1, k);
    } else {
        let i = n - 1;
        let f = param_findings(p, m, d, i, s.max_depth)[k - before.len()];
        let spot = param_spot(p, m, d, i);
        law_reports_are_justified(spot, s.max_depth as int, k - before.len());
        law_reports_are_not_empty(
            spot.declared,
            spot.observed,
            spot.path,
            spot.optional,
            s.max_depth as int,
        );
        let reports = walk_reports(
            spot.declared,
            spot.observed,
            spot.path,
            spot.optional,
            s.max_depth as int,
        );
        let r = reports[k - before.len()];
        assert(r == ReportView { path: f.path, declared: f.declared, unused: f.unused });
        assert(proved(p, s, m, d, i, f));
    }
}

proof fn lemma_module_proved(p: ProjectView, s: ScopeView, m: int, n: int, k: int)
    requires
        0 <= m < p.modules.len(),
        n <= p.modules[m].decls.len(),
        0 <= k < module_findings(p, m, n, s).len(),
    ensures
        proved_somewhere(p, s, module_findings(p, m, n, s)[k]),
    decreases n,
{
    let before = module_findings(p, m, n - 1, s);
    if k < before.len() {
        lemma_module_proved(p, s, m, n - 1, k);
    } else {
        lemma_params_proved(
            p,
            s,
            m,
            n - 1,
            p.modules[m].decls[n - 1].params.len() as int,
            k - before.len(),
        );
    }
}

proof fn lemma_project_proved(p: ProjectView, s: ScopeView, n: int, k: int)
    requires
        n <= p.modules.len(),
        0 <= k < project_findings(p, n, s).len(),
    ensures
        proved_somewhere(p, s, project_findings(p, n, s)[k]),
    decreases n,
{
    let before = project_findings(p, n - 1, s);
    if k < before.len() {
        lemma_project_proved(p, s, n - 1, k);
    } else {
        lemma_module_proved(
            p,
            s,
            n - 1,
            p.modules[n - 1].decls.len() as int,
            k - before.len(),
        );
    }
}

/// Nothing is reported that is not proved: each finding is about a parameter
/// of a function that may be reported, names at least one constituent, and
/// every call of the function, wherever it stands, excludes each that it names.
pub proof fn law_findings_are_proved(p: ProjectView, s: ScopeView, k: int)
    requires
        0 <= k < sorted(project_findings(p, p.modules.len() as int, s)).len(),
    ensures
        proved_somewhere(p, s, sorted(project_findings(p, p.modules.len() as int, s))[k]),
{
    broadcast use vstd::seq_lib::group_to_multiset_ensures;

    let found = project_findings(p, p.modules.len() as int, s);
    law_sorted(found);
    let f = sorted(found)[k];
    assert(sorted(found).contains(f));
    assert(sorted(found).to_multiset().contains(f));
    assert(found.to_multiset().contains(f));
    assert(found.contains(f));
    let j = choose|j: int| 0 <= j < found.len() && found[j] == f;
    lemma_project_proved(p, s, p.modules.len() as int, j);
}

/// A function that is reported is seen in full: every usage of the project
/// that is attributed to it is a call that was counted, and no other usage
/// might reach it.
pub proof fn law_reported_function_is_seen(
    p: ProjectView,
    s: ScopeView,
    m: int,
    d: int,
    mid: int,
    k: int,
)
    requires
        reportable(p, m, d, s),
        0 <= mid < p.modules.len(),
        0 <= k < p.modules[mid].usages.len(),
    ensures
        !lets_escape(p, mid, k, m, d),
        attributed(p, mid as usize, p.modules[mid].usages[k].target) == Some((m, d)) ==> calls_to(
            p,
            m,
            d,
        ).contains((mid, k)),
{
    law_calls_span_the_project(p, mid, k, m, d);
    if lets_escape(p, mid, k, m, d) {
        assert(escaped(p, m, d));
    }
    if attributed(p, mid as usize, p.modules[mid].usages[k].target) == Some((m, d))
        && p.modules[mid].usages[k].kind is Escape {
        law_reference_silences(p, mid, k, m, d, s);
    }
}

/// Restricting reports, to changed lines or to functions that are not
/// exported, takes functions out and changes nothing about the others.
pub proof fn law_scope_only_restricts(p: ProjectView, m: int, d: int, s: ScopeView)
    ensures
        ({
            let open = ScopeView { respect_exports: false, changed: None, ..s };
            let decl = p.modules[m].decls[d];
            decl_findings(p, m, d, s) == if in_scope(p.modules[m], decl, s) && !(s.respect_exports
                && decl.exported) {
                decl_findings(p, m, d, open)
            } else {
                Seq::empty()
            }
        }),
{
}

// ---------------------------------------------------------------------------
// Counts
// ---------------------------------------------------------------------------

proof fn lemma_count_joined(a: Seq<Category>, b: Seq<Category>, c: Category)
    ensures
        count_of(a + b, c) == count_of(a, c) + count_of(b, c),
    decreases b.len(),
{
    if b.len() == 0 {
        assert(a + b =~= a);
    } else {
        lemma_count_joined(a, b.drop_last(), c);
        assert((a + b).drop_last() =~= a + b.drop_last());
    }
}

proof fn lemma_module_uncalled(p: ProjectView, m: int, n: int)
    ensures
        module_uncalled(p, m, n).len() == count_of(
            module_categories(p, m, n),
            Category::Uncalled,
        ),
    decreases n,
{
    if n > 0 {
        lemma_module_uncalled(p, m, n - 1);
        assert(module_categories(p, m, n).drop_last() =~= module_categories(p, m, n - 1));
    }
}

/// The uncalled functions that are listed are as many as are counted.
pub proof fn law_uncalled_are_listed(p: ProjectView, n: int)
    ensures
        all_uncalled(p, n).len() == count_of(categories(p, n), Category::Uncalled),
    decreases n,
{
    if n > 0 {
        law_uncalled_are_listed(p, n - 1);
        lemma_module_uncalled(p, n - 1, p.modules[n - 1].decls.len() as int);
        lemma_count_joined(
            categories(p, n - 1),
            module_categories(p, n - 1, p.modules[n - 1].decls.len() as int),
            Category::Uncalled,
        );
    }
}

} // verus!

//! What is reported, counted, asked for and shown.

use vstd::prelude::*;

use crate::cli::{
    commanded, default_gen, default_request, finding_line, gen_requested, number_in, percent,
    exit_status, requested, share, summary_line, uncalled_line, CommandView, GenView, RequestView,
};
use crate::diff::overlaps;
use crate::laws::{choices, leads, param_spot, Spot};
use crate::link::{
    scope_of, decl_findings, finding_for, module_findings, param_findings, params_findings, passed,
    project_findings, reportable, ScopeView,
};
use crate::model::{views, FindingView, Options, ModuleView, SkipReason};
use crate::narrow::{reported, walk_reports, ReportView};
use crate::order::{finding_le, law_sorted, sorted, text_le};
use crate::report::{
    all_uncalled, project_of, reports_on, tallies, Report, Stats, categories, category, count_of, module_categories, module_uncalled, parse_warning,
    parse_warnings, path_index, Category, UncalledView,
};
use crate::resolve::ProjectView;
use crate::taint::{calls_before, calls_to, calls_within, escaped};
use crate::touched::{common_line, within};
use crate::text::{decimal, law_decimal_is_read_back, parsed_decimal, starts_with};
use crate::ty::printed;
use crate::values::law_every_exclusion_is_reported;

verus! {

/// The names of options differ.
pub proof fn lemma_option_names()
    ensures
        "--diff"@ != "--json"@,
        "--diff"@ != "--list-uncalled"@,
        "--diff"@ != "--respect-exports"@,
        "--diff"@ != "--max-depth"@,
        "--diff"@ != "--fail-on-findings"@,
        "--diff"@ != "--quiet"@,
        "--diff"@ != "--timing"@,
        "--json"@ != "--list-uncalled"@,
        "--json"@ != "--respect-exports"@,
        "--json"@ != "--max-depth"@,
        "--json"@ != "--fail-on-findings"@,
        "--json"@ != "--quiet"@,
        "--json"@ != "--timing"@,
        "--list-uncalled"@ != "--respect-exports"@,
        "--list-uncalled"@ != "--max-depth"@,
        "--list-uncalled"@ != "--fail-on-findings"@,
        "--list-uncalled"@ != "--quiet"@,
        "--list-uncalled"@ != "--timing"@,
        "--respect-exports"@ != "--max-depth"@,
        "--respect-exports"@ != "--fail-on-findings"@,
        "--respect-exports"@ != "--quiet"@,
        "--respect-exports"@ != "--timing"@,
        "--max-depth"@ != "--fail-on-findings"@,
        "--max-depth"@ != "--quiet"@,
        "--max-depth"@ != "--timing"@,
        "--fail-on-findings"@ != "--quiet"@,
        "--fail-on-findings"@ != "--timing"@,
        "--quiet"@ != "--timing"@,
        "--diff"@.len() > 0,
        "--json"@.len() > 0,
        "--list-uncalled"@.len() > 0,
        "--respect-exports"@.len() > 0,
        "--max-depth"@.len() > 0,
        "--fail-on-findings"@.len() > 0,
        "--quiet"@.len() > 0,
        "--timing"@.len() > 0,
{
    reveal_strlit("--diff");
    reveal_strlit("--json");
    reveal_strlit("--list-uncalled");
    reveal_strlit("--respect-exports");
    reveal_strlit("--max-depth");
    reveal_strlit("--fail-on-findings");
    reveal_strlit("--quiet");
    reveal_strlit("--timing");
    assert("--diff"@.len() == 6);
    assert("--json"@.len() == 6);
    assert("--list-uncalled"@.len() == 15);
    assert("--respect-exports"@.len() == 17);
    assert("--max-depth"@.len() == 11);
    assert("--fail-on-findings"@.len() == 18);
    assert("--quiet"@.len() == 7);
    assert("--timing"@.len() == 8);
    assert("--diff"@[2] == 'd');
    assert("--json"@[2] == 'j');
}
/// The names of the generator's options differ.
pub proof fn lemma_gen_names()
    ensures
        "--out"@ != "--files"@,
        "--out"@ != "--fns"@,
        "--out"@ != "--seed"@,
        "--files"@ != "--fns"@,
        "--files"@ != "--seed"@,
        "--fns"@ != "--seed"@,
        "--out"@.len() > 0,
        "--files"@.len() > 0,
        "--fns"@.len() > 0,
        "--seed"@.len() > 0,
{
    reveal_strlit("--out");
    reveal_strlit("--files");
    reveal_strlit("--fns");
    reveal_strlit("--seed");
    assert("--out"@.len() == 5);
    assert("--files"@.len() == 7);
    assert("--fns"@.len() == 5);
    assert("--seed"@.len() == 6);
    assert("--out"@[2] == 'o');
    assert("--fns"@[2] == 'f');
}

// ---------------------------------------------------------------------------
// Findings
// ---------------------------------------------------------------------------

/// Whether a function is analyzed and may be reported: nothing says to skip
/// it, it does not escape, something calls it, and it is asked for. With
/// changed lines, a function is asked for that has one of them.
pub open spec fn asked_for(p: ProjectView, m: int, d: int, s: ScopeView) -> bool {
    let decl = p.modules[m].decls[d];
    &&& 0 <= m < p.modules.len()
    &&& 0 <= d < p.modules[m].decls.len()
    &&& decl.eligible
    &&& !escaped(p, m, d)
    &&& calls_to(p, m, d).len() > 0
    &&& !s.respect_exports || !decl.exported
    &&& s.changed is None || (s.changed->0.contains_key(p.modules[m].path) && common_line(
        s.changed->0[p.modules[m].path],
        decl.line,
        decl.end_line,
    ))
}

proof fn lemma_params_hold(p: ProjectView, m: int, d: int, n: int, max_depth: nat, i: int, f: FindingView)
    requires
        0 <= i < n,
        param_findings(p, m, d, i, max_depth).contains(f),
    ensures
        params_findings(p, m, d, n, max_depth).contains(f),
    decreases n,
{
    let before = params_findings(p, m, d, n - 1, max_depth);
    let here = param_findings(p, m, d, n - 1, max_depth);
    let all = params_findings(p, m, d, n, max_depth);
    if i == n - 1 {
        let k = choose|k: int| 0 <= k < here.len() && here[k] == f;
        assert(all[before.len() + k] == f);
    } else {
        lemma_params_hold(p, m, d, n - 1, max_depth, i, f);
        let k = choose|k: int| 0 <= k < before.len() && before[k] == f;
        assert(all[k] == f);
    }
}

proof fn lemma_module_holds(p: ProjectView, m: int, n: int, s: ScopeView, d: int, f: FindingView)
    requires
        0 <= d < n,
        decl_findings(p, m, d, s).contains(f),
    ensures
        module_findings(p, m, n, s).contains(f),
    decreases n,
{
    let before = module_findings(p, m, n - 1, s);
    let here = decl_findings(p, m, n - 1, s);
    let all = module_findings(p, m, n, s);
    if d == n - 1 {
        let k = choose|k: int| 0 <= k < here.len() && here[k] == f;
        assert(all[before.len() + k] == f);
    } else {
        lemma_module_holds(p, m, n - 1, s, d, f);
        let k = choose|k: int| 0 <= k < before.len() && before[k] == f;
        assert(all[k] == f);
    }
}

proof fn lemma_project_holds(p: ProjectView, n: int, s: ScopeView, m: int, f: FindingView)
    requires
        0 <= m < n,
        module_findings(p, m, p.modules[m].decls.len() as int, s).contains(f),
    ensures
        project_findings(p, n, s).contains(f),
    decreases n,
{
    let before = project_findings(p, n - 1, s);
    let here = module_findings(p, n - 1, p.modules[n - 1].decls.len() as int, s);
    let all = project_findings(p, n, s);
    if m == n - 1 {
        let k = choose|k: int| 0 <= k < here.len() && here[k] == f;
        assert(all[before.len() + k] == f);
    } else {
        lemma_project_holds(p, n - 1, s, m, f);
        let k = choose|k: int| 0 <= k < before.len() && before[k] == f;
        assert(all[k] == f);
    }
}

/// Whether a finding is about a place of a parameter and names a constituent.
pub open spec fn names(
    p: ProjectView,
    m: int,
    d: int,
    i: int,
    path: Seq<char>,
    text: Seq<char>,
    f: FindingView,
) -> bool {
    &&& f.file == p.modules[m].rel
    &&& f.line == p.modules[m].decls[d].line
    &&& f.function_name == p.modules[m].decls[d].name
    &&& f.param == p.modules[m].decls[d].params[i].name
    &&& f.path == path
    &&& f.unused.contains(text)
}

/// What no call passes is found: in the report stands a finding for each
/// constituent, at each place within the depth asked for, of each parameter
/// with a type, of each function that is analyzed.
pub proof fn law_never_passed_is_found(
    p: ProjectView,
    m: int,
    d: int,
    i: int,
    s: ScopeView,
    steps: Seq<int>,
    to: Spot,
    j: int,
)
    requires
        asked_for(p, m, d, s),
        0 <= i < p.modules[m].decls[d].params.len(),
        p.modules[m].decls[d].params[i].ty is Some,
        leads(param_spot(p, m, d, i), steps, to),
        steps.len() <= s.max_depth,
        choices(to.declared) is Some,
        0 <= j < choices(to.declared)->0.len(),
        reported(to.observed, choices(to.declared)->0, to.optional, choices(to.declared)->0[j]),
    ensures
        exists|k: int|
            0 <= k < sorted(project_findings(p, p.modules.len() as int, s)).len() && names(
                p,
                m,
                d,
                i,
                to.path,
                printed(choices(to.declared)->0[j]),
                #[trigger] sorted(project_findings(p, p.modules.len() as int, s))[k],
            ),
{
    broadcast use vstd::seq_lib::group_to_multiset_ensures;

    let spot = param_spot(p, m, d, i);
    let c = choices(to.declared)->0[j];
    law_every_exclusion_is_reported(spot, steps, to, s.max_depth as int, j);
    let reports = walk_reports(
        spot.declared,
        spot.observed,
        spot.path,
        spot.optional,
        s.max_depth as int,
    );
    let k = choose|k: int|
        0 <= k < reports.len() && (#[trigger] reports[k]).path == to.path && reports[k].declared
            == printed(to.declared) && reports[k].unused.contains(printed(c));
    let here = param_findings(p, m, d, i, s.max_depth);
    let f = here[k];
    assert(f.path == to.path && f.unused.contains(printed(c)));
    assert(here.contains(f));
    lemma_params_hold(p, m, d, p.modules[m].decls[d].params.len() as int, s.max_depth, i, f);
    if s.changed is Some {
        let ranges = s.changed->0[p.modules[m].path];
        let decl = p.modules[m].decls[d];
        let (r, line) = choose|r: int, line: u32|
            0 <= r < ranges.len() && #[trigger] within(line, ranges[r]) && decl.line <= line
                && line <= decl.end_line;
        assert(ranges[r].0 <= decl.end_line && decl.line <= ranges[r].1);
        assert(overlaps(ranges, decl.line, decl.end_line));
    }
    assert(reportable(p, m, d, s));
    assert(decl_findings(p, m, d, s).contains(f));
    lemma_module_holds(p, m, p.modules[m].decls.len() as int, s, d, f);
    lemma_project_holds(p, p.modules.len() as int, s, m, f);
    let found = project_findings(p, p.modules.len() as int, s);
    law_sorted(found);
    assert(found.contains(f));
    assert(found.to_multiset().contains(f));
    assert(sorted(found).to_multiset().contains(f));
    assert(sorted(found).contains(f));
    let q = choose|q: int| 0 <= q < sorted(found).len() && sorted(found)[q] == f;
    assert(names(p, m, d, i, to.path, printed(c), sorted(found)[q]));
}

// ---------------------------------------------------------------------------
// Calls
// ---------------------------------------------------------------------------

/// Whether one call stands before another: in an earlier module, or earlier in
/// the same.
pub open spec fn call_before(a: (int, int), b: (int, int)) -> bool {
    a.0 < b.0 || (a.0 == b.0 && a.1 < b.1)
}

proof fn lemma_within_ordered(p: ProjectView, mid: int, n: int, m: int, d: int)
    ensures
        forall|i: int|
            0 <= i < calls_within(p, mid, n, m, d).len() ==> (#[trigger] calls_within(
                p,
                mid,
                n,
                m,
                d,
            )[i]).0 == mid && calls_within(p, mid, n, m, d)[i].1 < n,
        forall|i: int, j: int|
            0 <= i < j < calls_within(p, mid, n, m, d).len() ==> call_before(
                #[trigger] calls_within(p, mid, n, m, d)[i],
                #[trigger] calls_within(p, mid, n, m, d)[j],
            ),
    decreases n,
{
    if n > 0 {
        lemma_within_ordered(p, mid, n - 1, m, d);
        let before = calls_within(p, mid, n - 1, m, d);
        let all = calls_within(p, mid, n, m, d);
        assert forall|i: int| 0 <= i < all.len() implies (#[trigger] all[i]).0 == mid && all[i].1
            < n by {
            if i < before.len() {
                assert(all[i] == before[i]);
            }
        }
        assert forall|i: int, j: int| 0 <= i < j < all.len() implies call_before(
            #[trigger] all[i],
            #[trigger] all[j],
        ) by {
            assert(all[i] == before[i]);
            if j < before.len() {
                assert(all[j] == before[j]);
            }
        }
    }
}

proof fn lemma_before_ordered(p: ProjectView, n: int, m: int, d: int)
    ensures
        forall|i: int|
            0 <= i < calls_before(p, n, m, d).len() ==> (#[trigger] calls_before(p, n, m, d)[i]).0
                < n,
        forall|i: int, j: int|
            0 <= i < j < calls_before(p, n, m, d).len() ==> call_before(
                #[trigger] calls_before(p, n, m, d)[i],
                #[trigger] calls_before(p, n, m, d)[j],
            ),
    decreases n,
{
    if n > 0 {
        lemma_before_ordered(p, n - 1, m, d);
        let k = p.modules[n - 1].usages.len() as int;
        lemma_within_ordered(p, n - 1, k, m, d);
        let a = calls_before(p, n - 1, m, d);
        let b = calls_within(p, n - 1, k, m, d);
        let all = calls_before(p, n, m, d);
        assert forall|i: int| 0 <= i < all.len() implies (#[trigger] all[i]).0 < n by {
            if i < a.len() {
                assert(all[i] == a[i]);
            } else {
                assert(all[i] == b[i - a.len()]);
            }
        }
        assert forall|i: int, j: int| 0 <= i < j < all.len() implies call_before(
            #[trigger] all[i],
            #[trigger] all[j],
        ) by {
            if j < a.len() {
                assert(all[i] == a[i] && all[j] == a[j]);
            } else if i < a.len() {
                assert(all[i] == a[i] && all[j] == b[j - a.len()]);
            } else {
                assert(all[i] == b[i - a.len()] && all[j] == b[j - a.len()]);
            }
        }
    }
}

/// The calls of a function are listed in the order of the project, each once.
pub proof fn law_calls_are_in_order(p: ProjectView, m: int, d: int, i: int, j: int)
    requires
        0 <= i < j < calls_to(p, m, d).len(),
    ensures
        call_before(calls_to(p, m, d)[i], calls_to(p, m, d)[j]),
{
    lemma_before_ordered(p, p.modules.len() as int, m, d);
}

/// A finding counts all calls of its function and shows the first of them, at
/// most three, each with the file and the line where it stands.
pub proof fn law_findings_show_first_calls(
    p: ProjectView,
    m: int,
    d: int,
    i: int,
    r: ReportView,
    k: int,
)
    requires
        0 <= k < calls_to(p, m, d).len(),
        k < 3,
    ensures
        ({
            let f = finding_for(p, m, d, i, calls_to(p, m, d), r);
            let call = calls_to(p, m, d)[k];
            &&& f.call_count == calls_to(p, m, d).len()
            &&& f.sites.len() <= 3
            &&& k < f.sites.len()
            &&& f.sites[k] == p.modules[call.0].rel + seq![':'] + decimal(
                p.modules[call.0].usages[call.1].line as nat,
            )
            &&& f.path == r.path
            &&& f.declared == r.declared
            &&& f.unused == r.unused
        }),
{
    reveal_strlit(":");
    assert(":"@ =~= seq![':']);
}

// ---------------------------------------------------------------------------
// Order
// ---------------------------------------------------------------------------

/// Whether a text stands before another in a dictionary: where they first
/// differ it has the smaller character, or it ends first.
pub open spec fn dictionary_before(a: Seq<char>, b: Seq<char>) -> bool {
    exists|k: int|
        0 <= k <= a.len() && k <= b.len() && #[trigger] a.take(k) == b.take(k) && ((k == a.len()
            && k < b.len()) || (k < a.len() && k < b.len() && a[k] < b[k]))
}

/// Texts are in the order of a dictionary.
pub proof fn law_texts_are_ordered(a: Seq<char>, b: Seq<char>)
    ensures
        text_le(a, b) <==> a == b || dictionary_before(a, b),
    decreases a.len(),
{
    if a.len() == 0 {
        if b.len() > 0 {
            assert(a.take(0) =~= b.take(0));
        } else {
            assert(a =~= b);
        }
    } else if b.len() == 0 {
        if dictionary_before(a, b) {
            let k = choose|k: int|
                0 <= k <= a.len() && k <= b.len() && #[trigger] a.take(k) == b.take(k) && ((k
                    == a.len() && k < b.len()) || (k < a.len() && k < b.len() && a[k] < b[k]));
        }
    } else if a[0] != b[0] {
        if a[0] < b[0] {
            assert(a.take(0) =~= b.take(0));
        }
        if dictionary_before(a, b) {
            let k = choose|k: int|
                0 <= k <= a.len() && k <= b.len() && #[trigger] a.take(k) == b.take(k) && ((k
                    == a.len() && k < b.len()) || (k < a.len() && k < b.len() && a[k] < b[k]));
            if k > 0 {
                assert(a.take(k)[0] == a[0] && b.take(k)[0] == b[0]);
            }
        }
    } else {
        let x = a.drop_first();
        let y = b.drop_first();
        law_texts_are_ordered(x, y);
        assert(a =~= seq![a[0]] + x);
        assert(b =~= seq![b[0]] + y);
        if x == y {
            assert(a == b);
        }
        if dictionary_before(x, y) {
            let k = choose|k: int|
                0 <= k <= x.len() && k <= y.len() && #[trigger] x.take(k) == y.take(k) && ((k
                    == x.len() && k < y.len()) || (k < x.len() && k < y.len() && x[k] < y[k]));
            assert(a.take(k + 1) =~= seq![a[0]] + x.take(k));
            assert(b.take(k + 1) =~= seq![b[0]] + y.take(k));
            assert(a.take(k + 1) == b.take(k + 1));
        }
        if dictionary_before(a, b) {
            let k = choose|k: int|
                0 <= k <= a.len() && k <= b.len() && #[trigger] a.take(k) == b.take(k) && ((k
                    == a.len() && k < b.len()) || (k < a.len() && k < b.len() && a[k] < b[k]));
            assert(k > 0);
            assert(x.take(k - 1) =~= a.take(k).drop_first());
            assert(y.take(k - 1) =~= b.take(k).drop_first());
            assert(x.take(k - 1) == y.take(k - 1));
        }
        if a == b {
            assert(x =~= y);
        }
    }
}

/// Findings are listed file by file, in a file line by line, on a line
/// parameter by parameter, and of a parameter path by path.
pub proof fn law_findings_are_ordered(s: Seq<FindingView>, i: int, j: int)
    requires
        0 <= i < j < sorted(s).len(),
    ensures
        ({
            let a = sorted(s)[i];
            let b = sorted(s)[j];
            &&& a.file == b.file || dictionary_before(a.file, b.file)
            &&& a.file == b.file ==> a.line <= b.line
            &&& a.file == b.file && a.line == b.line ==> a.param == b.param || dictionary_before(
                a.param,
                b.param,
            )
            &&& a.file == b.file && a.line == b.line && a.param == b.param ==> a.path == b.path
                || dictionary_before(a.path, b.path)
        }),
{
    law_sorted(s);
    let a = sorted(s)[i];
    let b = sorted(s)[j];
    assert(finding_le(a, b));
    law_texts_are_ordered(a.file, b.file);
    law_texts_are_ordered(a.param, b.param);
    law_texts_are_ordered(a.path, b.path);
}

// ---------------------------------------------------------------------------
// Counts
// ---------------------------------------------------------------------------

/// A function is counted as analyzed just if there is no reason to skip it, it
/// does not escape and something calls it; as never called if nothing does.
pub proof fn law_what_becomes_of_functions(p: ProjectView, m: int, d: int)
    ensures
        ({
            let skip = p.modules[m].decls[d].skip;
            let c = category(p, m, d);
            &&& c == Category::Analyzed <==> skip is None && !escaped(p, m, d) && calls_to(
                p,
                m,
                d,
            ).len() > 0
            &&& c == Category::Uncalled <==> skip is None && !escaped(p, m, d) && calls_to(
                p,
                m,
                d,
            ).len() == 0
            &&& c == Category::Escaped <==> skip is None && escaped(p, m, d)
            &&& c == Category::Generic <==> skip == Some(SkipReason::Generic)
            &&& c == Category::Overload <==> skip == Some(SkipReason::Overload)
            &&& c == Category::RestParam <==> skip == Some(SkipReason::RestParam)
            &&& c == Category::NoParams <==> skip == Some(SkipReason::NoParams)
        }),
{
}

/// A category is counted as often as it occurs.
pub proof fn law_counts_are_occurrences(s: Seq<Category>, c: Category)
    ensures
        count_of(s, c) == s.to_multiset().count(c),
    decreases s.len(),
{
    broadcast use vstd::seq_lib::group_to_multiset_ensures;

    if s.len() > 0 {
        law_counts_are_occurrences(s.drop_last(), c);
        assert(s =~= s.drop_last().push(s.last()));
    }
}

proof fn lemma_category_is_listed(p: ProjectView, n: int, m: int, d: int)
    requires
        0 <= m < n,
        0 <= d < p.modules[m].decls.len(),
    ensures
        categories(p, n).contains(category(p, m, d)),
    decreases n,
{
    let before = categories(p, n - 1);
    let here = module_categories(p, n - 1, p.modules[n - 1].decls.len() as int);
    let all = categories(p, n);
    if m == n - 1 {
        assert(here[d] == category(p, m, d));
        assert(all[before.len() + d] == here[d]);
    } else {
        lemma_category_is_listed(p, n - 1, m, d);
        let k = choose|k: int| 0 <= k < before.len() && before[k] == category(p, m, d);
        assert(all[k] == before[k]);
    }
}

/// The statistics of a report are the numbers of files and functions, and of
/// the functions in each category.
pub proof fn law_statistics(st: Stats, p: ProjectView)
    requires
        tallies(st, p),
    ensures
        ({
            let all = categories(p, p.modules.len() as int).to_multiset();
            &&& st.files == p.modules.len()
            &&& st.decls == all.len()
            &&& st.analyzed == all.count(Category::Analyzed)
            &&& st.escaped == all.count(Category::Escaped)
            &&& st.uncalled == all.count(Category::Uncalled)
            &&& st.skipped_generic == all.count(Category::Generic)
            &&& st.skipped_overload == all.count(Category::Overload)
            &&& st.skipped_rest_param == all.count(Category::RestParam)
            &&& st.skipped_no_params == all.count(Category::NoParams)
            &&& st.decls == st.analyzed + st.escaped + st.uncalled + st.skipped_generic
                + st.skipped_overload + st.skipped_rest_param + st.skipped_no_params
        }),
{
    broadcast use vstd::seq_lib::group_to_multiset_ensures;

    let all = categories(p, p.modules.len() as int);
    law_counts_are_occurrences(all, Category::Analyzed);
    law_counts_are_occurrences(all, Category::Escaped);
    law_counts_are_occurrences(all, Category::Uncalled);
    law_counts_are_occurrences(all, Category::Generic);
    law_counts_are_occurrences(all, Category::Overload);
    law_counts_are_occurrences(all, Category::RestParam);
    law_counts_are_occurrences(all, Category::NoParams);
    crate::report::law_categories_add_up(all);
}

/// A report lists its findings in order, all functions that are never called
/// and a warning for each module with parse errors.
pub proof fn law_reports(r: Report, p: ProjectView, s: ScopeView, i: int, j: int, m: int, d: int)
    requires
        reports_on(r, p, s),
    ensures
        0 <= i < j < r.findings@.len() ==> r.findings@[i]@.file == r.findings@[j]@.file
            || dictionary_before(r.findings@[i]@.file, r.findings@[j]@.file),
        views(r.findings@).to_multiset() == project_findings(
            p,
            p.modules.len() as int,
            s,
        ).to_multiset(),
        0 <= m < p.modules.len() && 0 <= d < p.modules[m].decls.len() && category(p, m, d)
            == Category::Uncalled ==> views(r.uncalled@).contains(
            UncalledView {
                file: p.modules[m].rel,
                line: p.modules[m].decls[d].line,
                function_name: p.modules[m].decls[d].name,
                exported: p.modules[m].decls[d].exported,
            },
        ),
        0 <= m < p.modules.len() && p.modules[m].parse_errors > 0 ==> views(r.warnings@).contains(
            parse_warning(p.modules[m]),
        ),
{
    let found = project_findings(p, p.modules.len() as int, s);
    law_sorted(found);
    if 0 <= i < j < r.findings@.len() {
        law_findings_are_ordered(found, i, j);
        assert(views(r.findings@)[i] == r.findings@[i]@);
        assert(views(r.findings@)[j] == r.findings@[j]@);
    }
    if 0 <= m < p.modules.len() && 0 <= d < p.modules[m].decls.len() && category(p, m, d)
        == Category::Uncalled {
        law_uncalled_functions_are_listed(p, m, d);
    }
    if 0 <= m < p.modules.len() && p.modules[m].parse_errors > 0 {
        law_parse_errors_are_warned_of(p.modules, m);
    }
}

/// What is asked for reaches the analysis, and a project holds its modules.
pub proof fn law_what_is_analyzed(opts: Options, ms: Seq<ModuleView>, i: int)
    ensures
        scope_of(opts, None).respect_exports == opts.respect_exports,
        scope_of(opts, None).max_depth == opts.max_depth,
        scope_of(opts, None).changed is None,
        project_of(ms).modules == ms,
        0 <= i < ms.len() <= usize::MAX && (forall|j: int|
            i < j < ms.len() ==> (#[trigger] ms[j]).path != ms[i].path) ==> project_of(
            ms,
        ).by_path.contains_key(ms[i].path) && project_of(ms).by_path[ms[i].path] == i,
{
    if 0 <= i < ms.len() <= usize::MAX && (forall|j: int|
        i < j < ms.len() ==> (#[trigger] ms[j]).path != ms[i].path) {
        law_modules_are_found_by_path(ms, i);
    }
}

/// A run fails only if it is asked to, and then only with findings.
pub proof fn law_exit_codes(findings: nat)
    ensures
        exit_status(false, findings) == 0,
        exit_status(true, 0) == 0,
        findings > 0 ==> exit_status(true, findings) == 1,
{
}

/// Every function of the project is counted.
pub proof fn law_every_function_is_counted(p: ProjectView, m: int, d: int)
    requires
        0 <= m < p.modules.len(),
        0 <= d < p.modules[m].decls.len(),
    ensures
        categories(p, p.modules.len() as int).contains(category(p, m, d)),
        count_of(categories(p, p.modules.len() as int), category(p, m, d)) > 0,
{
    broadcast use vstd::seq_lib::group_to_multiset_ensures;

    let all = categories(p, p.modules.len() as int);
    lemma_category_is_listed(p, p.modules.len() as int, m, d);
    law_counts_are_occurrences(all, category(p, m, d));
    assert(all.to_multiset().contains(category(p, m, d)));
}

proof fn lemma_module_uncalled_listed(p: ProjectView, m: int, n: int, d: int)
    requires
        0 <= d < n,
        category(p, m, d) == Category::Uncalled,
    ensures
        module_uncalled(p, m, n).contains(
            UncalledView {
                file: p.modules[m].rel,
                line: p.modules[m].decls[d].line,
                function_name: p.modules[m].decls[d].name,
                exported: p.modules[m].decls[d].exported,
            },
        ),
    decreases n,
{
    let want = UncalledView {
        file: p.modules[m].rel,
        line: p.modules[m].decls[d].line,
        function_name: p.modules[m].decls[d].name,
        exported: p.modules[m].decls[d].exported,
    };
    let before = module_uncalled(p, m, n - 1);
    let all = module_uncalled(p, m, n);
    if d == n - 1 {
        assert(all[before.len() as int] == want);
    } else {
        lemma_module_uncalled_listed(p, m, n - 1, d);
        let k = choose|k: int| 0 <= k < before.len() && before[k] == want;
        assert(all[k] == want);
    }
}

proof fn lemma_all_uncalled_listed(p: ProjectView, n: int, m: int, u: UncalledView)
    requires
        0 <= m < n,
        module_uncalled(p, m, p.modules[m].decls.len() as int).contains(u),
    ensures
        all_uncalled(p, n).contains(u),
    decreases n,
{
    let before = all_uncalled(p, n - 1);
    let here = module_uncalled(p, n - 1, p.modules[n - 1].decls.len() as int);
    let all = all_uncalled(p, n);
    if m == n - 1 {
        let k = choose|k: int| 0 <= k < here.len() && here[k] == u;
        assert(all[before.len() + k] == u);
    } else {
        lemma_all_uncalled_listed(p, n - 1, m, u);
        let k = choose|k: int| 0 <= k < before.len() && before[k] == u;
        assert(all[k] == u);
    }
}

/// A function that nothing calls, and that does not escape, is listed as never
/// called, with its place and whether it is exported.
pub proof fn law_uncalled_functions_are_listed(p: ProjectView, m: int, d: int)
    requires
        0 <= m < p.modules.len(),
        0 <= d < p.modules[m].decls.len(),
        p.modules[m].decls[d].skip is None,
        !escaped(p, m, d),
        calls_to(p, m, d).len() == 0,
    ensures
        all_uncalled(p, p.modules.len() as int).contains(
            UncalledView {
                file: p.modules[m].rel,
                line: p.modules[m].decls[d].line,
                function_name: p.modules[m].decls[d].name,
                exported: p.modules[m].decls[d].exported,
            },
        ),
{
    lemma_module_uncalled_listed(p, m, p.modules[m].decls.len() as int, d);
    lemma_all_uncalled_listed(
        p,
        p.modules.len() as int,
        m,
        UncalledView {
            file: p.modules[m].rel,
            line: p.modules[m].decls[d].line,
            function_name: p.modules[m].decls[d].name,
            exported: p.modules[m].decls[d].exported,
        },
    );
}

/// There is a warning for each module with parse errors, and for no other.
pub proof fn law_parse_errors_are_warned_of(ms: Seq<ModuleView>, i: int)
    requires
        0 <= i < ms.len(),
    ensures
        ms[i].parse_errors > 0 ==> parse_warnings(ms).contains(parse_warning(ms[i])),
        (forall|k: int| 0 <= k < ms.len() ==> (#[trigger] ms[k]).parse_errors == 0)
            ==> parse_warnings(ms).len() == 0,
        starts_with(parse_warning(ms[i]), ms[i].rel),
    decreases ms.len(),
{
    let front = ms.drop_last();
    let all = parse_warnings(ms);
    let before = parse_warnings(front);
    let w = parse_warning(ms[i]);
    assert(w.subrange(0, ms[i].rel.len() as int) =~= ms[i].rel);
    if front.len() > 0 {
        if i < front.len() {
            assert(front[i] == ms[i]);
            law_parse_errors_are_warned_of(front, i);
            if ms[i].parse_errors > 0 {
                let k = choose|k: int| 0 <= k < before.len() && before[k] == w;
                assert(all[k] == w);
            }
        } else {
            law_parse_errors_are_warned_of(front, 0);
        }
    }
    if i == ms.len() - 1 && ms[i].parse_errors > 0 {
        assert(all[before.len() as int] == w);
    }
    if forall|k: int| 0 <= k < ms.len() ==> (#[trigger] ms[k]).parse_errors == 0 {
        assert forall|k: int| 0 <= k < front.len() implies (#[trigger] front[k]).parse_errors
            == 0 by {
            assert(ms[k] == front[k]);
        }
        assert(ms[ms.len() - 1].parse_errors == 0);
    }
}

/// A module is found under its path.
pub proof fn law_modules_are_found_by_path(ms: Seq<ModuleView>, i: int)
    requires
        0 <= i < ms.len() <= usize::MAX,
        forall|j: int| i < j < ms.len() ==> (#[trigger] ms[j]).path != ms[i].path,
    ensures
        path_index(ms).contains_key(ms[i].path),
        path_index(ms)[ms[i].path] == i,
    decreases ms.len(),
{
    if i < ms.len() - 1 {
        let front = ms.drop_last();
        assert(front[i] == ms[i]);
        assert forall|j: int| i < j < front.len() implies (#[trigger] front[j]).path
            != front[i].path by {
            assert(ms[j] == front[j]);
        }
        law_modules_are_found_by_path(front, i);
        assert(ms[ms.len() - 1].path != ms[i].path);
    }
}

// ---------------------------------------------------------------------------
// The command line
// ---------------------------------------------------------------------------

proof fn lemma_requested_prefix(
    a: Seq<Seq<char>>,
    b: Seq<Seq<char>>,
    i: int,
    x: Seq<char>,
    r: RequestView,
)
    requires
        1 <= i <= a.len(),
        requested(a, i, r) is Ok,
    ensures
        requested(a + b, i, r) == requested(seq![x] + b, 1, requested(a, i, r)->Ok_0),
    decreases a.len() - i,
{
    let whole = a + b;
    if i == a.len() {
        assert(whole.skip(i) =~= b);
        assert((seq![x] + b).skip(1) =~= b);
        lemma_requested_shift(whole, seq![x] + b, i, 1, r);
    } else {
        assert(whole[i] == a[i]);
        if i + 1 < a.len() {
            assert(whole[i + 1] == a[i + 1]);
        }
        lemma_option_names();
        if a[i] == "--diff"@ {
            lemma_requested_prefix(
                a,
                b,
                i + 2,
                x,
                RequestView { diff_base: Some(a[i + 1]), ..r },
            );
        } else if a[i] == "--json"@ {
            lemma_requested_prefix(a, b, i + 1, x, RequestView { json: true, ..r });
        } else if a[i] == "--list-uncalled"@ {
            lemma_requested_prefix(a, b, i + 1, x, RequestView { list_uncalled: true, ..r });
        } else if a[i] == "--respect-exports"@ {
            lemma_requested_prefix(a, b, i + 1, x, RequestView { respect_exports: true, ..r });
        } else if a[i] == "--max-depth"@ {
            lemma_requested_prefix(
                a,
                b,
                i + 2,
                x,
                RequestView { max_depth: number_in(a[i + 1], usize::MAX as nat)->0, ..r },
            );
        } else if a[i] == "--fail-on-findings"@ {
            lemma_requested_prefix(a, b, i + 1, x, RequestView { fail_on_findings: true, ..r });
        } else if a[i] == "--quiet"@ {
            lemma_requested_prefix(a, b, i + 1, x, RequestView { quiet: true, ..r });
        } else {
            lemma_requested_prefix(a, b, i + 1, x, RequestView { timing: true, ..r });
        }
    }
}

proof fn lemma_requested_shift(
    a: Seq<Seq<char>>,
    b: Seq<Seq<char>>,
    i: int,
    j: int,
    r: RequestView,
)
    requires
        0 <= i <= a.len(),
        0 <= j <= b.len(),
        a.skip(i) == b.skip(j),
    ensures
        requested(a, i, r) == requested(b, j, r),
    decreases a.len() - i,
{
    assert(a.skip(i).len() == a.len() - i);
    assert(b.skip(j).len() == b.len() - j);
    if i < a.len() {
        assert(a.skip(i)[0] == a[i] && b.skip(j)[0] == b[j]);
        assert(a.skip(i + 1) =~= a.skip(i).skip(1));
        assert(b.skip(j + 1) =~= b.skip(j).skip(1));
        if i + 1 < a.len() {
            assert(a.skip(i)[1] == a[i + 1] && b.skip(j)[1] == b[j + 1]);
            assert(a.skip(i + 2) =~= a.skip(i).skip(2));
            assert(b.skip(j + 2) =~= b.skip(j).skip(2));
        }
        lemma_option_names();
        if a[i] == "--diff"@ {
            if i + 1 < a.len() {
                lemma_requested_shift(
                    a,
                    b,
                    i + 2,
                    j + 2,
                    RequestView { diff_base: Some(a[i + 1]), ..r },
                );
            }
        } else if a[i] == "--json"@ {
            lemma_requested_shift(a, b, i + 1, j + 1, RequestView { json: true, ..r });
        } else if a[i] == "--list-uncalled"@ {
            lemma_requested_shift(a, b, i + 1, j + 1, RequestView { list_uncalled: true, ..r });
        } else if a[i] == "--respect-exports"@ {
            lemma_requested_shift(a, b, i + 1, j + 1, RequestView { respect_exports: true, ..r });
        } else if a[i] == "--max-depth"@ {
            if i + 1 < a.len() && number_in(a[i + 1], usize::MAX as nat) is Some {
                lemma_requested_shift(
                    a,
                    b,
                    i + 2,
                    j + 2,
                    RequestView { max_depth: number_in(a[i + 1], usize::MAX as nat)->0, ..r },
                );
            }
        } else if a[i] == "--fail-on-findings"@ {
            lemma_requested_shift(a, b, i + 1, j + 1, RequestView { fail_on_findings: true, ..r });
        } else if a[i] == "--quiet"@ {
            lemma_requested_shift(a, b, i + 1, j + 1, RequestView { quiet: true, ..r });
        } else if a[i] == "--timing"@ {
            lemma_requested_shift(a, b, i + 1, j + 1, RequestView { timing: true, ..r });
        }
    }
}

/// Options are read one after the other: what more options behind a readable
/// command line ask for is what they ask for on their own, on top of it.
pub proof fn law_options_add_up(
    path: Seq<char>,
    first: Seq<Seq<char>>,
    more: Seq<Seq<char>>,
    r: RequestView,
)
    requires
        requested(seq![path] + first, 1, r) is Ok,
    ensures
        requested(seq![path] + first + more, 1, r) == requested(
            seq![path] + more,
            1,
            requested(seq![path] + first, 1, r)->Ok_0,
        ),
{
    lemma_requested_prefix(seq![path] + first, more, 1, path, r);
}

proof fn lemma_options_end(args: Seq<Seq<char>>, r: RequestView)
    requires
        args.len() > 0,
    ensures
        requested(args, args.len() as int, r) == Ok::<RequestView, Seq<char>>(r),
{
}

/// What each flag asks for, on top of what is asked for already.
#[verifier::rlimit(40)]
pub proof fn law_what_flags_mean(path: Seq<char>, r: RequestView)
    ensures
        requested(seq![path], 1, r) == Ok::<RequestView, Seq<char>>(r),
        requested(seq![path, "--json"@], 1, r) == Ok::<RequestView, Seq<char>>(
            RequestView { json: true, ..r },
        ),
        requested(seq![path, "--list-uncalled"@], 1, r) == Ok::<RequestView, Seq<char>>(
            RequestView { list_uncalled: true, ..r },
        ),
        requested(seq![path, "--respect-exports"@], 1, r) == Ok::<RequestView, Seq<char>>(
            RequestView { respect_exports: true, ..r },
        ),
        requested(seq![path, "--fail-on-findings"@], 1, r) == Ok::<RequestView, Seq<char>>(
            RequestView { fail_on_findings: true, ..r },
        ),
        requested(seq![path, "--quiet"@], 1, r) == Ok::<RequestView, Seq<char>>(
            RequestView { quiet: true, ..r },
        ),
        requested(seq![path, "--timing"@], 1, r) == Ok::<RequestView, Seq<char>>(
            RequestView { timing: true, ..r },
        ),
{
    lemma_option_names();
    lemma_options_end(seq![path], r);
    let args = seq![path, "--json"@];
    assert(args[1] == "--json"@);
    lemma_options_end(args, RequestView { json: true, ..r });
    let args = seq![path, "--list-uncalled"@];
    assert(args[1] == "--list-uncalled"@);
    lemma_options_end(args, RequestView { list_uncalled: true, ..r });
    let args = seq![path, "--respect-exports"@];
    assert(args[1] == "--respect-exports"@);
    lemma_options_end(args, RequestView { respect_exports: true, ..r });
    let args = seq![path, "--fail-on-findings"@];
    assert(args[1] == "--fail-on-findings"@);
    lemma_options_end(args, RequestView { fail_on_findings: true, ..r });
    let args = seq![path, "--quiet"@];
    assert(args[1] == "--quiet"@);
    lemma_options_end(args, RequestView { quiet: true, ..r });
    let args = seq![path, "--timing"@];
    assert(args[1] == "--timing"@);
    lemma_options_end(args, RequestView { timing: true, ..r });
}

/// A revision restricts what is reported to what changed since.
#[verifier::rlimit(40)]
pub proof fn law_what_a_revision_means(path: Seq<char>, r: RequestView, base: Seq<char>)
    requires
        base.len() > 0 ==> base[0] != '-',
    ensures
        requested(seq![path, "--diff"@, base], 1, r) == Ok::<RequestView, Seq<char>>(
            RequestView { diff_base: Some(base), ..r },
        ),
{
    reveal_strlit("-");
    assert("-"@.len() == 1 && "-"@[0] == '-');
    if starts_with(base, "-"@) {
        assert(base.subrange(0, 1)[0] == base[0]);
    }
    let args = seq![path, "--diff"@, base];
    assert(args[1] == "--diff"@ && args[2] == base);
    lemma_options_end(args, RequestView { diff_base: Some(base), ..r });
}

proof fn lemma_number_is_read(n: nat, limit: nat)
    requires
        n <= limit,
    ensures
        number_in(decimal(n), limit) == Some(n),
{
    reveal_strlit("+");
    assert("+"@.len() == 1 && "+"@[0] == '+');
    law_decimal_is_read_back(n, limit);
    let t = decimal(n);
    assert(parsed_decimal(t, limit) == Some(n));
    if starts_with(t, "+"@) {
        assert(t.subrange(0, 1)[0] == t[0]);
        assert(crate::text::is_digit(t[0]));
    }
}

/// A number says how many properties deep is looked.
#[verifier::rlimit(40)]
pub proof fn law_what_a_depth_means(path: Seq<char>, r: RequestView, n: nat)
    requires
        n <= usize::MAX,
    ensures
        requested(seq![path, "--max-depth"@, decimal(n)], 1, r) == Ok::<RequestView, Seq<char>>(
            RequestView { max_depth: n, ..r },
        ),
{
    lemma_option_names();
    lemma_number_is_read(n, usize::MAX as nat);
    let args = seq![path, "--max-depth"@, decimal(n)];
    assert(args[1] == "--max-depth"@ && args[2] == decimal(n));
    lemma_options_end(args, RequestView { max_depth: n, ..r });
}

/// An option that needs something and has nothing behind it is refused, and
/// so is a revision that looks like an option.
pub proof fn law_bare_options_are_refused(path: Seq<char>, r: RequestView, text: Seq<char>)
    ensures
        requested(seq![path, "--diff"@], 1, r) is Err,
        requested(seq![path, "--diff"@, seq!['-'] + text], 1, r) is Err,
        requested(seq![path, "--max-depth"@], 1, r) is Err,
{
    lemma_option_names();
    reveal_strlit("-");
    assert("-"@ =~= seq!['-']);
    let dashed = seq!['-'] + text;
    assert(dashed.subrange(0, 1) =~= "-"@);
    let args = seq![path, "--diff"@, dashed];
    assert(args[1] == "--diff"@ && args[2] == dashed);
    let bare = seq![path, "--diff"@];
    assert(bare[1] == "--diff"@ && bare.len() == 2);
    let deep = seq![path, "--max-depth"@];
    assert(deep[1] == "--max-depth"@ && deep.len() == 2);
}

/// A depth without digits is refused.
pub proof fn law_depths_are_numbers(path: Seq<char>, r: RequestView, text: Seq<char>)
    requires
        forall|i: int| 0 <= i < text.len() ==> !crate::text::is_digit(#[trigger] text[i]),
    ensures
        requested(seq![path, "--max-depth"@, text], 1, r) is Err,
{
    lemma_option_names();
    let args = seq![path, "--max-depth"@, text];
    assert(args[1] == "--max-depth"@ && args[2] == text && args.len() == 3);
    assert(number_in(text, usize::MAX as nat) is None) by {
        reveal_strlit("+");
        assert("+"@.len() == 1);
        if text.len() > 0 {
            assert(!crate::text::is_digit(text[0]));
        }
        if text.len() > 1 {
            assert(text.skip(1)[0] == text[1]);
            assert(!crate::text::is_digit(text[1]));
        }
    }
}

/// Options that are not known are refused.
pub proof fn law_unknown_options_are_refused(path: Seq<char>, r: RequestView, text: Seq<char>)
    requires
        text != "--diff"@,
        text != "--json"@,
        text != "--list-uncalled"@,
        text != "--respect-exports"@,
        text != "--max-depth"@,
        text != "--fail-on-findings"@,
        text != "--quiet"@,
        text != "--timing"@,
    ensures
        requested(seq![path, text], 1, r) is Err,
{
    let args = seq![path, text];
    assert(args[1] == text);
}

/// Without options nothing is restricted, printed specially or failed, and six
/// properties deep is looked.
pub proof fn law_defaults()
    ensures
        ({
            let r = default_request();
            &&& r.diff_base is None
            &&& !r.json
            &&& !r.list_uncalled
            &&& !r.respect_exports
            &&& !r.fail_on_findings
            &&& !r.quiet
            &&& !r.timing
            &&& r.max_depth == 6
        }),
{
}

/// Help and version are given wherever they are asked for; `gen` generates;
/// anything else is a path to analyze.
pub proof fn law_commands(args: Seq<Seq<char>>, i: int)
    requires
        0 <= i < args.len(),
    ensures
        args[i] == "-h"@ || args[i] == "--help"@ ==> commanded(args) is Help,
        commanded(Seq::empty()) is Help,
        (args[i] == "--version"@ || args[i] == "-V"@) && !args.contains("-h"@) && !args.contains(
            "--help"@,
        ) ==> commanded(args) is Version,
        !args.contains("-h"@) && !args.contains("--help"@) && !args.contains("--version"@)
            && !args.contains("-V"@) ==> if args[0] == "gen"@ {
            commanded(args) == CommandView::Gen(gen_requested(args, 1, default_gen()))
        } else {
            commanded(args) == CommandView::Analyze(
                args[0],
                requested(args, 1, default_request()),
            )
        },
{
    assert(args.contains(args[i]));
}

proof fn lemma_gen_ends(args: Seq<Seq<char>>, g: GenView)
    requires
        args.len() > 0,
        g.out is Some,
    ensures
        gen_requested(args, args.len() as int, g) == Ok::<GenView, Seq<char>>(g),
{
}

/// What the generator is asked for: a directory, which must be given, and
/// numbers that take the place of the usual ones.
#[verifier::rlimit(40)]
pub proof fn law_what_generator_options_mean(
    g: GenView,
    dir: Seq<char>,
    n: nat,
    cmd: Seq<char>,
)
    requires
        n <= u64::MAX,
        n <= usize::MAX,
    ensures
        gen_requested(seq![cmd, "--out"@, dir], 1, g) == Ok::<GenView, Seq<char>>(
            GenView { out: Some(dir), ..g },
        ),
        g.out is None ==> gen_requested(seq![cmd], 1, g) is Err,
        g.out is Some ==> gen_requested(seq![cmd, "--files"@, decimal(n)], 1, g) == Ok::<
            GenView,
            Seq<char>,
        >(GenView { files: n, ..g }),
        g.out is Some ==> gen_requested(seq![cmd, "--fns"@, decimal(n)], 1, g) == Ok::<
            GenView,
            Seq<char>,
        >(GenView { fns: n, ..g }),
        g.out is Some ==> gen_requested(seq![cmd, "--seed"@, decimal(n)], 1, g) == Ok::<
            GenView,
            Seq<char>,
        >(GenView { seed: n, ..g }),
        dir != "--out"@ && dir != "--files"@ && dir != "--fns"@ && dir != "--seed"@
            ==> gen_requested(seq![cmd, dir], 1, g) is Err,
        default_gen() == (GenView { out: None, files: 1000, fns: 10, seed: 42 }),
{
    lemma_gen_names();
    lemma_number_is_read(n, usize::MAX as nat);
    lemma_number_is_read(n, u64::MAX as nat);
    let out = seq![cmd, "--out"@, dir];
    assert(out[1] == "--out"@ && out[2] == dir);
    lemma_gen_ends(out, GenView { out: Some(dir), ..g });
    let files = seq![cmd, "--files"@, decimal(n)];
    assert(files[1] == "--files"@ && files[2] == decimal(n));
    let fns = seq![cmd, "--fns"@, decimal(n)];
    assert(fns[1] == "--fns"@ && fns[2] == decimal(n));
    let seed = seq![cmd, "--seed"@, decimal(n)];
    assert(seed[1] == "--seed"@ && seed[2] == decimal(n));
    if g.out is Some {
        lemma_gen_ends(files, GenView { files: n, ..g });
        lemma_gen_ends(fns, GenView { fns: n, ..g });
        lemma_gen_ends(seed, GenView { seed: n, ..g });
    }
    let other = seq![cmd, dir];
    assert(other[1] == dir);
}

// ---------------------------------------------------------------------------
// What is shown
// ---------------------------------------------------------------------------

/// A share is rounded to the nearest whole percent; all is a hundred, nothing
/// is none.
pub proof fn law_percent_is_nearest(n: nat, total: nat)
    requires
        total > 0,
    ensures
        2 * (100 * n) <= (2 * percent(n, total) + 1) * total,
        (2 * percent(n, total) - 1) * total <= 2 * (100 * n),
        percent(total, total) == 100,
        percent(0, total) == 0,
        percent(n, 0) == 0,
{
    let scaled = 100 * n;
    let whole = scaled / total;
    let rest = scaled % total;
    assert(scaled == whole * total + rest && rest < total) by (nonlinear_arith)
        requires
            total > 0,
            whole == scaled / total,
            rest == scaled % total,
    ;
    let q = percent(n, total);
    if q == whole {
        assert((2 * q + 1) * total == 2 * (whole * total) + total) by (nonlinear_arith)
            requires
                q == whole,
        ;
        assert((2 * q - 1) * total == 2 * (whole * total) - total) by (nonlinear_arith)
            requires
                q == whole,
        ;
    } else {
        assert((2 * q + 1) * total == 2 * (whole * total) + 3 * total) by (nonlinear_arith)
            requires
                q == whole + 1,
        ;
        assert((2 * q - 1) * total == 2 * (whole * total) + total) by (nonlinear_arith)
            requires
                q == whole + 1,
        ;
    }
    assert((100 * total) / total == 100 && (100 * total) % total == 0) by (nonlinear_arith)
        requires
            total > 0,
    ;
    assert(0nat / total == 0 && 0nat % total == 0) by (nonlinear_arith)
        requires
            total > 0,
    ;
}

/// Whether a text is shown in a line.
#[verifier::opaque]
pub open spec fn shows(line: Seq<char>, text: Seq<char>) -> bool {
    exists|a: Seq<char>, b: Seq<char>| line == #[trigger] (a + text + b)
}

proof fn lemma_shown_at_end(a: Seq<char>, text: Seq<char>)
    ensures
        shows(a + text, text),
{
    reveal(shows);
    assert(a + text =~= a + text + Seq::<char>::empty());
}

proof fn lemma_still_shown(line: Seq<char>, more: Seq<char>, text: Seq<char>)
    requires
        shows(line, text),
    ensures
        shows(line + more, text),
{
    reveal(shows);
    let (a, b) = choose|a: Seq<char>, b: Seq<char>| line == #[trigger] (a + text + b);
    assert(line + more =~= a + text + (b + more));
}

proof fn lemma_still_starts(line: Seq<char>, more: Seq<char>, text: Seq<char>)
    requires
        starts_with(line, text),
    ensures
        starts_with(line + more, text),
{
    assert((line + more).subrange(0, text.len() as int) =~= line.subrange(0, text.len() as int));
}

/// The line of a finding starts with its place and shows the function with its
/// parameter, the declared type and what is never passed; dots at its end say
/// that there are more calls than are shown.
pub proof fn law_finding_lines(f: FindingView)
    ensures
        starts_with(finding_line(f), f.file + ":"@ + decimal(f.line as nat)),
        shows(finding_line(f), f.function_name + "("@ + f.param + ")"@ + f.path),
        shows(finding_line(f), ": declared "@ + f.declared + ", never passed: "@),
        shows(finding_line(f), ", never passed: "@ + crate::param::comma_list(f.unused)),
        f.call_count == 1 ==> shows(finding_line(f), decimal(1) + " call: "@),
        f.call_count != 1 ==> shows(finding_line(f), decimal(f.call_count) + " calls: "@),
        f.call_count > f.sites.len() ==> crate::text::ends_with(finding_line(f), ", …]"@),
        f.call_count <= f.sites.len() ==> crate::text::ends_with(
            finding_line(f),
            crate::param::comma_list(f.sites) + "]"@,
        ),
{
    let list = crate::param::comma_list(f.unused);
    let sites = crate::param::comma_list(f.sites);
    let count = decimal(f.call_count);
    let calls = if f.call_count == 1 {
        " call: "@
    } else {
        " calls: "@
    };
    let close = if f.call_count > f.sites.len() {
        ", …]"@
    } else {
        "]"@
    };
    let place = f.file + ":"@ + decimal(f.line as nat);
    let fun = f.function_name + "("@ + f.param + ")"@ + f.path;
    let said = ": declared "@ + f.declared + ", never passed: "@;
    let never = ", never passed: "@ + list;
    let often = count + calls;
    let l1 = place + "  "@;
    let l2 = l1 + f.function_name;
    let l3 = l2 + "("@;
    let l4 = l3 + f.param;
    let l5 = l4 + ")"@;
    let l6 = l5 + f.path;
    let l7 = l6 + ": declared "@;
    let l8 = l7 + f.declared;
    let l9 = l8 + ", never passed: "@;
    let l10 = l9 + list;
    let l11 = l10 + "  ["@;
    let l12 = l11 + count;
    let l13 = l12 + calls;
    let l14 = l13 + sites;
    let l15 = l14 + close;
    assert(l6 =~= l1 + fun);
    assert(l9 =~= l6 + said);
    assert(l10 =~= l8 + never);
    assert(l13 =~= l11 + often);
    assert(finding_line(f) == l15);
    assert(place.subrange(0, place.len() as int) =~= place);
    lemma_shown_at_end(l1, fun);
    lemma_shown_at_end(l6, said);
    lemma_shown_at_end(l8, never);
    lemma_shown_at_end(l11, often);
    lemma_still_starts(place, "  "@, place);
    lemma_still_starts(l1, f.function_name, place);
    lemma_still_starts(l2, "("@, place);
    lemma_still_starts(l3, f.param, place);
    lemma_still_starts(l4, ")"@, place);
    lemma_still_starts(l5, f.path, place);
    lemma_still_starts(l6, ": declared "@, place);
    lemma_still_starts(l7, f.declared, place);
    lemma_still_starts(l8, ", never passed: "@, place);
    lemma_still_starts(l9, list, place);
    lemma_still_starts(l10, "  ["@, place);
    lemma_still_starts(l11, count, place);
    lemma_still_starts(l12, calls, place);
    lemma_still_starts(l13, sites, place);
    lemma_still_starts(l14, close, place);
    lemma_still_shown(l6, ": declared "@, fun);
    lemma_still_shown(l7, f.declared, fun);
    lemma_still_shown(l8, ", never passed: "@, fun);
    lemma_still_shown(l9, list, fun);
    lemma_still_shown(l10, "  ["@, fun);
    lemma_still_shown(l11, count, fun);
    lemma_still_shown(l12, calls, fun);
    lemma_still_shown(l13, sites, fun);
    lemma_still_shown(l14, close, fun);
    lemma_still_shown(l9, list, said);
    lemma_still_shown(l10, "  ["@, said);
    lemma_still_shown(l11, count, said);
    lemma_still_shown(l12, calls, said);
    lemma_still_shown(l13, sites, said);
    lemma_still_shown(l14, close, said);
    lemma_still_shown(l10, "  ["@, never);
    lemma_still_shown(l11, count, never);
    lemma_still_shown(l12, calls, never);
    lemma_still_shown(l13, sites, never);
    lemma_still_shown(l14, close, never);
    lemma_still_shown(l13, sites, often);
    lemma_still_shown(l14, close, often);
    assert(l15.subrange(l15.len() - close.len(), l15.len() as int) =~= close);
    let tail = sites + close;
    assert(l15 =~= l13 + tail);
    assert(l15.subrange(l15.len() - tail.len(), l15.len() as int) =~= tail);
}

/// A number and its share.
pub open spec fn share_text(n: nat, total: nat) -> Seq<char> {
    decimal(n) + " ("@ + decimal(percent(n, total)) + "%)"@
}

/// The line that sums a run up shows each number behind or before its name,
/// and shares in percent of all functions.
pub proof fn law_summary_lines(st: Stats, findings: nat)
    ensures
        ({
            let line = summary_line(st, findings);
            let total = st.decls as nat;
            &&& shows(line, decimal(st.files as nat) + " files, "@)
            &&& shows(line, decimal(st.decls as nat) + " functions — "@)
            &&& shows(line, "analyzed "@ + share_text(st.analyzed as nat, total))
            &&& shows(line, ", escaped "@ + share_text(st.escaped as nat, total))
            &&& shows(line, ", never-called "@ + share_text(st.uncalled as nat, total))
            &&& shows(line, ", generic "@ + decimal(st.skipped_generic as nat))
            &&& shows(line, ", overloaded "@ + decimal(st.skipped_overload as nat))
            &&& shows(line, ", rest-param "@ + decimal(st.skipped_rest_param as nat))
            &&& shows(line, ", zero-param "@ + decimal(st.skipped_no_params as nat))
            &&& shows(line, decimal(findings) + " finding(s)"@)
        }),
{
    let total = st.decls as nat;
    let analyzed = share("analyzed "@, st.analyzed as nat, total);
    let escaped = share(", escaped "@, st.escaped as nat, total);
    let uncalled = share(", never-called "@, st.uncalled as nat, total);
    assert(analyzed =~= "analyzed "@ + share_text(st.analyzed as nat, total));
    assert(escaped =~= ", escaped "@ + share_text(st.escaped as nat, total));
    assert(uncalled =~= ", never-called "@ + share_text(st.uncalled as nat, total));
    let l0 = "type-narrower: "@;
    let l1 = l0 + decimal(st.files as nat);
    let l2 = l1 + " files, "@;
    let l3 = l2 + decimal(st.decls as nat);
    let l4 = l3 + " functions — "@;
    let l5 = l4 + analyzed;
    let l6 = l5 + escaped;
    let l7 = l6 + uncalled;
    let l8 = l7 + ", generic "@;
    let l9 = l8 + decimal(st.skipped_generic as nat);
    let l10 = l9 + ", overloaded "@;
    let l11 = l10 + decimal(st.skipped_overload as nat);
    let l12 = l11 + ", rest-param "@;
    let l13 = l12 + decimal(st.skipped_rest_param as nat);
    let l14 = l13 + ", zero-param "@;
    let l15 = l14 + decimal(st.skipped_no_params as nat);
    let l16 = l15 + "; "@;
    let l17 = l16 + decimal(findings);
    let l18 = l17 + " finding(s)"@;
    assert(summary_line(st, findings) == l18);
    let files = decimal(st.files as nat) + " files, "@;
    assert(l2 =~= l0 + files);
    lemma_shown_at_end(l0, files);
    lemma_still_shown(l2, decimal(st.decls as nat), files);
    lemma_still_shown(l3, " functions — "@, files);
    lemma_still_shown(l4, analyzed, files);
    lemma_still_shown(l5, escaped, files);
    lemma_still_shown(l6, uncalled, files);
    lemma_still_shown(l7, ", generic "@, files);
    lemma_still_shown(l8, decimal(st.skipped_generic as nat), files);
    lemma_still_shown(l9, ", overloaded "@, files);
    lemma_still_shown(l10, decimal(st.skipped_overload as nat), files);
    lemma_still_shown(l11, ", rest-param "@, files);
    lemma_still_shown(l12, decimal(st.skipped_rest_param as nat), files);
    lemma_still_shown(l13, ", zero-param "@, files);
    lemma_still_shown(l14, decimal(st.skipped_no_params as nat), files);
    lemma_still_shown(l15, "; "@, files);
    lemma_still_shown(l16, decimal(findings), files);
    lemma_still_shown(l17, " finding(s)"@, files);
    let decls = decimal(st.decls as nat) + " functions — "@;
    assert(l4 =~= l2 + decls);
    lemma_shown_at_end(l2, decls);
    lemma_still_shown(l4, analyzed, decls);
    lemma_still_shown(l5, escaped, decls);
    lemma_still_shown(l6, uncalled, decls);
    lemma_still_shown(l7, ", generic "@, decls);
    lemma_still_shown(l8, decimal(st.skipped_generic as nat), decls);
    lemma_still_shown(l9, ", overloaded "@, decls);
    lemma_still_shown(l10, decimal(st.skipped_overload as nat), decls);
    lemma_still_shown(l11, ", rest-param "@, decls);
    lemma_still_shown(l12, decimal(st.skipped_rest_param as nat), decls);
    lemma_still_shown(l13, ", zero-param "@, decls);
    lemma_still_shown(l14, decimal(st.skipped_no_params as nat), decls);
    lemma_still_shown(l15, "; "@, decls);
    lemma_still_shown(l16, decimal(findings), decls);
    lemma_still_shown(l17, " finding(s)"@, decls);
    lemma_shown_at_end(l4, analyzed);
    lemma_still_shown(l5, escaped, analyzed);
    lemma_still_shown(l6, uncalled, analyzed);
    lemma_still_shown(l7, ", generic "@, analyzed);
    lemma_still_shown(l8, decimal(st.skipped_generic as nat), analyzed);
    lemma_still_shown(l9, ", overloaded "@, analyzed);
    lemma_still_shown(l10, decimal(st.skipped_overload as nat), analyzed);
    lemma_still_shown(l11, ", rest-param "@, analyzed);
    lemma_still_shown(l12, decimal(st.skipped_rest_param as nat), analyzed);
    lemma_still_shown(l13, ", zero-param "@, analyzed);
    lemma_still_shown(l14, decimal(st.skipped_no_params as nat), analyzed);
    lemma_still_shown(l15, "; "@, analyzed);
    lemma_still_shown(l16, decimal(findings), analyzed);
    lemma_still_shown(l17, " finding(s)"@, analyzed);
    lemma_shown_at_end(l5, escaped);
    lemma_still_shown(l6, uncalled, escaped);
    lemma_still_shown(l7, ", generic "@, escaped);
    lemma_still_shown(l8, decimal(st.skipped_generic as nat), escaped);
    lemma_still_shown(l9, ", overloaded "@, escaped);
    lemma_still_shown(l10, decimal(st.skipped_overload as nat), escaped);
    lemma_still_shown(l11, ", rest-param "@, escaped);
    lemma_still_shown(l12, decimal(st.skipped_rest_param as nat), escaped);
    lemma_still_shown(l13, ", zero-param "@, escaped);
    lemma_still_shown(l14, decimal(st.skipped_no_params as nat), escaped);
    lemma_still_shown(l15, "; "@, escaped);
    lemma_still_shown(l16, decimal(findings), escaped);
    lemma_still_shown(l17, " finding(s)"@, escaped);
    lemma_shown_at_end(l6, uncalled);
    lemma_still_shown(l7, ", generic "@, uncalled);
    lemma_still_shown(l8, decimal(st.skipped_generic as nat), uncalled);
    lemma_still_shown(l9, ", overloaded "@, uncalled);
    lemma_still_shown(l10, decimal(st.skipped_overload as nat), uncalled);
    lemma_still_shown(l11, ", rest-param "@, uncalled);
    lemma_still_shown(l12, decimal(st.skipped_rest_param as nat), uncalled);
    lemma_still_shown(l13, ", zero-param "@, uncalled);
    lemma_still_shown(l14, decimal(st.skipped_no_params as nat), uncalled);
    lemma_still_shown(l15, "; "@, uncalled);
    lemma_still_shown(l16, decimal(findings), uncalled);
    lemma_still_shown(l17, " finding(s)"@, uncalled);
    let generic = ", generic "@ + decimal(st.skipped_generic as nat);
    assert(l9 =~= l7 + generic);
    lemma_shown_at_end(l7, generic);
    lemma_still_shown(l9, ", overloaded "@, generic);
    lemma_still_shown(l10, decimal(st.skipped_overload as nat), generic);
    lemma_still_shown(l11, ", rest-param "@, generic);
    lemma_still_shown(l12, decimal(st.skipped_rest_param as nat), generic);
    lemma_still_shown(l13, ", zero-param "@, generic);
    lemma_still_shown(l14, decimal(st.skipped_no_params as nat), generic);
    lemma_still_shown(l15, "; "@, generic);
    lemma_still_shown(l16, decimal(findings), generic);
    lemma_still_shown(l17, " finding(s)"@, generic);
    let overload = ", overloaded "@ + decimal(st.skipped_overload as nat);
    assert(l11 =~= l9 + overload);
    lemma_shown_at_end(l9, overload);
    lemma_still_shown(l11, ", rest-param "@, overload);
    lemma_still_shown(l12, decimal(st.skipped_rest_param as nat), overload);
    lemma_still_shown(l13, ", zero-param "@, overload);
    lemma_still_shown(l14, decimal(st.skipped_no_params as nat), overload);
    lemma_still_shown(l15, "; "@, overload);
    lemma_still_shown(l16, decimal(findings), overload);
    lemma_still_shown(l17, " finding(s)"@, overload);
    let rest = ", rest-param "@ + decimal(st.skipped_rest_param as nat);
    assert(l13 =~= l11 + rest);
    lemma_shown_at_end(l11, rest);
    lemma_still_shown(l13, ", zero-param "@, rest);
    lemma_still_shown(l14, decimal(st.skipped_no_params as nat), rest);
    lemma_still_shown(l15, "; "@, rest);
    lemma_still_shown(l16, decimal(findings), rest);
    lemma_still_shown(l17, " finding(s)"@, rest);
    let zero = ", zero-param "@ + decimal(st.skipped_no_params as nat);
    assert(l15 =~= l13 + zero);
    lemma_shown_at_end(l13, zero);
    lemma_still_shown(l15, "; "@, zero);
    lemma_still_shown(l16, decimal(findings), zero);
    lemma_still_shown(l17, " finding(s)"@, zero);
    let found = decimal(findings) + " finding(s)"@;
    assert(l18 =~= l16 + found);
    lemma_shown_at_end(l16, found);
}

/// The line of a function that is never called starts with its place and name;
/// exported ones are marked.
pub proof fn law_uncalled_lines(u: UncalledView)
    ensures
        starts_with(
            uncalled_line(u),
            u.file + ":"@ + decimal(u.line as nat) + "  "@ + u.function_name,
        ),
        u.exported ==> crate::text::ends_with(uncalled_line(u), "  [exported]"@),
        !u.exported ==> uncalled_line(u) == u.file + ":"@ + decimal(u.line as nat) + "  "@
            + u.function_name,
{
    let head = u.file + ":"@ + decimal(u.line as nat) + "  "@ + u.function_name;
    let line = uncalled_line(u);
    assert(line.subrange(0, head.len() as int) =~= head);
    if u.exported {
        let mark = "  [exported]"@;
        assert(line.subrange(line.len() - mark.len(), line.len() as int) =~= mark);
    } else {
        assert(line =~= head);
    }
}

} // verus!

//! Links usages across modules onto declarations, then runs the narrowing
//! analysis for each declaration.

use vstd::prelude::*;
use vstd::string::*;

use crate::diff::{changed_view, intersects, overlaps, ChangedLines};
use crate::model::{
    views, ArgsView, CallArgs, DeclView, Finding, FindingView, ModuleView, Options, ParamInfo,
    ParamView, UsageKind, UsageKindView,
};
use crate::narrow::{analyze_param, param_reports, ReportView};
use crate::order::{sort_findings, sorted};
use crate::resolve::{resolved, resolved_observed, ProjectView, Resolver};
use crate::taint::{
    calls_before, calls_decl, calls_to, calls_within, covered, covers_decl, escaped, lets_escape,
    usage_taints, Marks, Taint, TaintView,
};
use crate::text::{concat, decimal, write_decimal};
use crate::ty::{Ty, TyView};

verus! {

broadcast use {crate::ty::group_ty_views, crate::model::group_model_views};

// ---------------------------------------------------------------------------
// Linking
// ---------------------------------------------------------------------------

/// A call: its module and its position among the usages there.
pub type Site = (usize, usize);

pub open spec fn site_views(s: Seq<Site>) -> Seq<(int, int)> {
    Seq::new(s.len(), |i: int| (s[i].0 as int, s[i].1 as int))
}

/// What the usages of a project amount to, per declaration.
pub struct Links {
    marks: Marks,
    calls: Vec<Vec<Vec<Site>>>,
}

impl Links {
    /// Whether the links are those of the project.
    pub closed spec fn of(&self, p: ProjectView) -> bool {
        &&& self.marks.well_formed(p)
        &&& calls_shaped(self.calls@, p)
        &&& forall|m: int, d: int|
            0 <= m < p.modules.len() && 0 <= d < p.modules[m].decls.len() ==> (
            #[trigger] self.marks.marked(p, m, d)) == escaped(p, m, d)
        &&& forall|m: int, d: int|
            0 <= m < p.modules.len() && 0 <= d < p.modules[m].decls.len() ==> site_views(
                (#[trigger] self.calls@[m]@[d])@,
            ) == calls_to(p, m, d)
    }

    /// Whether the declaration escapes.
    pub fn escapes(&self, r: &Resolver, m: usize, d: usize) -> (res: bool)
        requires
            self.of(r@),
            m < r@.modules.len(),
            d < r@.modules[m as int].decls.len(),
        ensures
            res == escaped(r@, m as int, d as int),
    {
        self.marks.is_marked(r, m, d)
    }

    /// The calls of the declaration, in order.
    pub fn calls_of(&self, r: &Resolver, m: usize, d: usize) -> (res: &Vec<Site>)
        requires
            self.of(r@),
            m < r@.modules.len(),
            d < r@.modules[m as int].decls.len(),
        ensures
            site_views(res@) == calls_to(r@, m as int, d as int),
    {
        &self.calls[m][d]
    }
}

spec fn calls_shaped(calls: Seq<Vec<Vec<Site>>>, p: ProjectView) -> bool {
    &&& calls.len() == p.modules.len()
    &&& forall|m: int|
        0 <= m < p.modules.len() ==> (#[trigger] calls[m])@.len() == p.modules[m].decls.len()
}

/// Whether a usage of the first `n` modules, or one of the first `k` of module
/// `n`, lets the declaration escape.
spec fn escaped_upto(p: ProjectView, n: int, k: int, m: int, d: int) -> bool {
    exists|a: int, b: int|
        0 <= a < p.modules.len() && 0 <= b < p.modules[a].usages.len() && (a < n || (a == n && b
            < k)) && #[trigger] lets_escape(p, a, b, m, d)
}

fn no_calls(r: &Resolver) -> (calls: Vec<Vec<Vec<Site>>>)
    ensures
        calls_shaped(calls@, r@),
        forall|m: int, d: int|
            0 <= m < r@.modules.len() && 0 <= d < r@.modules[m].decls.len() ==> (
            #[trigger] calls@[m]@[d])@.len() == 0,
{
    let ghost p = r@;
    let mut calls: Vec<Vec<Vec<Site>>> = Vec::new();
    let mut i: usize = 0;
    while i < r.modules.len()
        invariant
            p == r@,
            i <= r.modules@.len(),
            calls@.len() == i,
            forall|m: int|
                0 <= m < i ==> (#[trigger] calls@[m])@.len() == p.modules[m].decls.len(),
            forall|m: int, d: int|
                0 <= m < i && 0 <= d < p.modules[m].decls.len() ==> (
                #[trigger] calls@[m]@[d])@.len() == 0,
        decreases r.modules@.len() - i,
    {
        let mut row: Vec<Vec<Site>> = Vec::new();
        let mut j: usize = 0;
        while j < r.modules[i].decls.len()
            invariant
                i < r.modules@.len(),
                j <= r.modules@[i as int].decls@.len(),
                row@.len() == j,
                forall|d: int| 0 <= d < j ==> (#[trigger] row@[d])@.len() == 0,
            decreases r.modules@[i as int].decls@.len() - j,
        {
            row.push(Vec::new());
            j += 1;
        }
        assert(p.modules[i as int] == r.modules@[i as int]@);
        calls.push(row);
        i += 1;
    }
    calls
}

/// Follows every usage of the project to the declarations it reaches.
pub fn link(r: &Resolver) -> (links: Links)
    ensures
        links.of(r@),
{
    let ghost p = r@;
    let mut marks = Marks::new(r);
    let mut calls = no_calls(r);
    proof {
        assert forall|m: int, d: int|
            0 <= m < p.modules.len() && 0 <= d < p.modules[m].decls.len() implies site_views(
            (#[trigger] calls@[m]@[d])@,
        ) == calls_before(p, 0, m, d) by {
            assert(site_views(calls@[m]@[d]@) =~= Seq::empty());
        }
    }
    let mut n: usize = 0;
    while n < r.modules.len()
        invariant
            p == r@,
            n <= r.modules@.len(),
            marks.well_formed(p),
            calls_shaped(calls@, p),
            forall|m: int, d: int|
                0 <= m < p.modules.len() && 0 <= d < p.modules[m].decls.len() ==> (
                #[trigger] marks.marked(p, m, d)) == escaped_upto(p, n as int, 0, m, d),
            forall|m: int, d: int|
                0 <= m < p.modules.len() && 0 <= d < p.modules[m].decls.len() ==> site_views(
                    (#[trigger] calls@[m]@[d])@,
                ) == calls_before(p, n as int, m, d),
        decreases r.modules@.len() - n,
    {
        let module = &r.modules[n];
        assert(p.modules[n as int] == module@);
        proof {
            assert forall|m: int, d: int|
                0 <= m < p.modules.len() && 0 <= d < p.modules[m].decls.len() implies site_views(
                (#[trigger] calls@[m]@[d])@,
            ) == calls_before(p, n as int, m, d) + calls_within(p, n as int, 0, m, d) by {
                assert(calls_before(p, n as int, m, d) + calls_within(p, n as int, 0, m, d)
                    =~= calls_before(p, n as int, m, d));
            }
        }
        let mut k: usize = 0;
        while k < module.usages.len()
            invariant
                p == r@,
                n < p.modules.len(),
                p.modules[n as int] == module@,
                k <= module.usages@.len(),
                marks.well_formed(p),
                calls_shaped(calls@, p),
                forall|m: int, d: int|
                    0 <= m < p.modules.len() && 0 <= d < p.modules[m].decls.len() ==> (
                    #[trigger] marks.marked(p, m, d)) == escaped_upto(
                        p,
                        n as int,
                        k as int,
                        m,
                        d,
                    ),
                forall|m: int, d: int|
                    0 <= m < p.modules.len() && 0 <= d < p.modules[m].decls.len() ==> site_views(
                        (#[trigger] calls@[m]@[d])@,
                    ) == calls_before(p, n as int, m, d) + calls_within(
                        p,
                        n as int,
                        k as int,
                        m,
                        d,
                    ),
            decreases module.usages@.len() - k,
        {
            let u = &module.usages[k];
            let ghost calls0 = calls@;
            let ghost marks0 = marks;
            let ghost uv = p.modules[n as int].usages[k as int];
            assert(uv == u@);
            match r.attribute(n, &u.target) {
                Some((m, d)) => match &u.kind {
                    UsageKind::Call(_) => {
                        calls[m][d].push((n, k));
                        proof {
                            assert(site_views(calls@[m as int]@[d as int]@) =~= site_views(
                                calls0[m as int]@[d as int]@,
                            ).push((n as int, k as int)));
                            assert(usage_taints(p, n, uv) =~= Seq::empty());
                        }
                    },
                    UsageKind::Escape => {
                        marks.mark(r, Taint::Decl(m, d));
                        proof {
                            let t = TaintView::Decl((m as int, d as int));
                            assert(usage_taints(p, n, uv) == seq![t]);
                            assert forall|a: int, b: int| #[trigger]
                                covered(p, seq![t], a, b) == covers_decl(p, t, a, b) by {
                                assert(seq![t][0] == t);
                            }
                        }
                    },
                },
                None => {
                    let taints = r.unattributed(n, &u.target);
                    marks.mark_all(r, taints);
                },
            }
            proof {
                assert forall|m: int, d: int|
                    0 <= m < p.modules.len() && 0 <= d < p.modules[m].decls.len() implies (
                #[trigger] marks.marked(p, m, d)) == (marks0.marked(p, m, d) || lets_escape(
                    p,
                    n as int,
                    k as int,
                    m,
                    d,
                )) by {}
                lemma_escape_step(p, n as int, k as int, marks0, marks);
                assert forall|m: int, d: int|
                    0 <= m < p.modules.len() && 0 <= d < p.modules[m].decls.len() implies site_views(
                    (#[trigger] calls@[m]@[d])@,
                ) == calls_before(p, n as int, m, d) + calls_within(
                    p,
                    n as int,
                    k + 1,
                    m,
                    d,
                ) by {
                    let before = calls_before(p, n as int, m, d);
                    let within = calls_within(p, n as int, k as int, m, d);
                    if calls_decl(p, n as int, k as int, m, d) {
                        assert((before + within).push((n as int, k as int)) =~= before
                            + within.push((n as int, k as int)));
                    } else {
                        assert(calls@[m]@[d] == calls0[m]@[d]);
                    }
                }
            }
            k += 1;
        }
        proof {
            assert forall|m: int, d: int|
                0 <= m < p.modules.len() && 0 <= d < p.modules[m].decls.len() implies (
            #[trigger] marks.marked(p, m, d)) == escaped_upto(p, n + 1, 0, m, d) by {
                assert(escaped_upto(p, n as int, k as int, m, d) == escaped_upto(
                    p,
                    n + 1,
                    0,
                    m,
                    d,
                ));
            }
        }
        n += 1;
    }
    proof {
        assert forall|m: int, d: int|
            0 <= m < p.modules.len() && 0 <= d < p.modules[m].decls.len() implies (
        #[trigger] marks.marked(p, m, d)) == escaped(p, m, d) by {
            assert(escaped_upto(p, n as int, 0, m, d) == escaped(p, m, d));
        }
    }
    Links { marks, calls }
}

/// One usage more: what it lets escape is what gets marked.
proof fn lemma_escape_step(p: ProjectView, n: int, k: int, before: Marks, after: Marks)
    requires
        0 <= n < p.modules.len(),
        0 <= k < p.modules[n].usages.len(),
        forall|m: int, d: int|
            0 <= m < p.modules.len() && 0 <= d < p.modules[m].decls.len() ==> (
            #[trigger] before.marked(p, m, d)) == escaped_upto(p, n, k, m, d),
        forall|m: int, d: int|
            0 <= m < p.modules.len() && 0 <= d < p.modules[m].decls.len() ==> (
            #[trigger] after.marked(p, m, d)) == (before.marked(p, m, d) || lets_escape(
                p,
                n,
                k,
                m,
                d,
            )),
    ensures
        forall|m: int, d: int|
            0 <= m < p.modules.len() && 0 <= d < p.modules[m].decls.len() ==> (
            #[trigger] after.marked(p, m, d)) == escaped_upto(p, n, k + 1, m, d),
{
    assert forall|m: int, d: int|
        0 <= m < p.modules.len() && 0 <= d < p.modules[m].decls.len() implies (
    #[trigger] after.marked(p, m, d)) == escaped_upto(p, n, k + 1, m, d) by {
        if escaped_upto(p, n, k + 1, m, d) && !lets_escape(p, n, k, m, d) {
            let (a, b) = choose|a: int, b: int|
                0 <= a < p.modules.len() && 0 <= b < p.modules[a].usages.len() && (a < n || (a == n
                    && b < k + 1)) && #[trigger] lets_escape(p, a, b, m, d);
            assert(a < n || b < k);
            assert(escaped_upto(p, n, k, m, d));
        }
        if lets_escape(p, n, k, m, d) {
            assert(escaped_upto(p, n, k + 1, m, d));
        }
        if escaped_upto(p, n, k, m, d) {
            let (a, b) = choose|a: int, b: int|
                0 <= a < p.modules.len() && 0 <= b < p.modules[a].usages.len() && (a < n || (a == n
                    && b < k)) && #[trigger] lets_escape(p, a, b, m, d);
            assert(lets_escape(p, a, b, m, d));
        }
    }
}

// ---------------------------------------------------------------------------
// Findings
// ---------------------------------------------------------------------------

/// Which declarations are reported, and how deep.
#[verifier::ext_equal]
pub struct ScopeView {
    pub respect_exports: bool,
    pub max_depth: nat,
    /// Changed lines by path, where reports are restricted to them.
    pub changed: Option<Map<Seq<char>, Seq<(u32, u32)>>>,
}

pub open spec fn scope_of(opts: Options, changed: Option<ChangedLines>) -> ScopeView {
    ScopeView {
        respect_exports: opts.respect_exports,
        max_depth: opts.max_depth as nat,
        changed: match changed {
            Some(c) => Some(changed_view(c)),
            None => None,
        },
    }
}

/// Whether the lines of a declaration were touched.
pub open spec fn in_scope(module: ModuleView, decl: DeclView, s: ScopeView) -> bool {
    match s.changed {
        Some(c) => c.contains_key(module.path) && overlaps(
            c[module.path],
            decl.line,
            decl.end_line,
        ),
        None => true,
    }
}

/// Whether a declaration may be reported at all.
pub open spec fn reportable(p: ProjectView, m: int, d: int, s: ScopeView) -> bool {
    let decl = p.modules[m].decls[d];
    &&& decl.eligible
    &&& !escaped(p, m, d)
    &&& calls_to(p, m, d).len() > 0
    &&& !(s.respect_exports && decl.exported)
    &&& in_scope(p.modules[m], decl, s)
}

/// What a call passes for the parameter at position `i` of a function of module `m`.
pub open spec fn passed(
    p: ProjectView,
    m: int,
    param: ParamView,
    i: int,
    site: (int, int),
) -> TyView {
    match p.modules[site.0].usages[site.1].kind {
        UsageKindView::Call(ArgsView::Args(list)) => if i < list.len() {
            resolved_observed(p, list[i], site.0 as usize)
        } else {
            match param.default {
                Some(o) => resolved_observed(p, o, m as usize),
                None => if param.optional {
                    TyView::Undefined
                } else {
                    TyView::AnyLike
                },
            }
        },
        _ => TyView::AnyLike,
    }
}

pub open spec fn all_passed(
    p: ProjectView,
    m: int,
    param: ParamView,
    i: int,
    sites: Seq<(int, int)>,
) -> Seq<TyView> {
    Seq::new(sites.len(), |k: int| passed(p, m, param, i, sites[k]))
}

/// A call site as `file:line`.
pub open spec fn site_text(p: ProjectView, site: (int, int)) -> Seq<char> {
    p.modules[site.0].rel + ":"@ + decimal(p.modules[site.0].usages[site.1].line as nat)
}

/// The first three call sites.
pub open spec fn example_sites(p: ProjectView, sites: Seq<(int, int)>) -> Seq<Seq<char>> {
    Seq::new(
        if sites.len() < 3 {
            sites.len()
        } else {
            3
        },
        |k: int| site_text(p, sites[k]),
    )
}

pub open spec fn finding_for(
    p: ProjectView,
    m: int,
    d: int,
    i: int,
    sites: Seq<(int, int)>,
    report: ReportView,
) -> FindingView {
    let module = p.modules[m];
    FindingView {
        file: module.rel,
        line: module.decls[d].line,
        function_name: module.decls[d].name,
        param: module.decls[d].params[i].name,
        path: report.path,
        declared: report.declared,
        unused: report.unused,
        call_count: sites.len(),
        sites: example_sites(p, sites),
    }
}

/// The findings for the parameter at position `i`.
pub open spec fn param_findings(p: ProjectView, m: int, d: int, i: int, max_depth: nat) -> Seq<
    FindingView,
> {
    let param = p.modules[m].decls[d].params[i];
    let sites = calls_to(p, m, d);
    match param.ty {
        None => Seq::empty(),
        Some(te) => {
            let reports = param_reports(
                resolved(p, te, m as usize, Seq::empty(), 0),
                all_passed(p, m, param, i, sites),
                param.optional,
                max_depth,
            );
            Seq::new(reports.len(), |k: int| finding_for(p, m, d, i, sites, reports[k]))
        },
    }
}

/// The findings for the first `n` parameters of a declaration.
pub open spec fn params_findings(p: ProjectView, m: int, d: int, n: int, max_depth: nat) -> Seq<
    FindingView,
>
    decreases n,
{
    if n <= 0 {
        Seq::empty()
    } else {
        params_findings(p, m, d, n - 1, max_depth) + param_findings(p, m, d, n - 1, max_depth)
    }
}

/// The findings for a declaration.
pub open spec fn decl_findings(p: ProjectView, m: int, d: int, s: ScopeView) -> Seq<FindingView> {
    if reportable(p, m, d, s) {
        params_findings(p, m, d, p.modules[m].decls[d].params.len() as int, s.max_depth)
    } else {
        Seq::empty()
    }
}

/// The findings for the first `n` declarations of a module.
pub open spec fn module_findings(p: ProjectView, m: int, n: int, s: ScopeView) -> Seq<FindingView>
    decreases n,
{
    if n <= 0 {
        Seq::empty()
    } else {
        module_findings(p, m, n - 1, s) + decl_findings(p, m, n - 1, s)
    }
}

/// The findings for the first `n` modules, as they are found.
pub open spec fn project_findings(p: ProjectView, n: int, s: ScopeView) -> Seq<FindingView>
    decreases n,
{
    if n <= 0 {
        Seq::empty()
    } else {
        project_findings(p, n - 1, s) + module_findings(
            p,
            n - 1,
            p.modules[n - 1].decls.len() as int,
            s,
        )
    }
}

/// Every call is a usage of the project.
proof fn lemma_calls_in_project(p: ProjectView, n: int, m: int, d: int)
    requires
        n <= p.modules.len(),
    ensures
        forall|i: int|
            #![trigger calls_before(p, n, m, d)[i]]
            0 <= i < calls_before(p, n, m, d).len() ==> {
                let site = calls_before(p, n, m, d)[i];
                0 <= site.0 < p.modules.len() && 0 <= site.1 < p.modules[site.0].usages.len()
            },
    decreases n,
{
    if n > 0 {
        lemma_calls_in_project(p, n - 1, m, d);
        lemma_calls_in_module(p, n - 1, p.modules[n - 1].usages.len() as int, m, d);
    }
}

proof fn lemma_calls_in_module(p: ProjectView, mid: int, k: int, m: int, d: int)
    requires
        0 <= mid < p.modules.len(),
        k <= p.modules[mid].usages.len(),
    ensures
        forall|i: int|
            #![trigger calls_within(p, mid, k, m, d)[i]]
            0 <= i < calls_within(p, mid, k, m, d).len() ==> {
                let site = calls_within(p, mid, k, m, d)[i];
                site.0 == mid && 0 <= site.1 < k
            },
    decreases k,
{
    if k > 0 {
        lemma_calls_in_module(p, mid, k - 1, m, d);
        let shorter = calls_within(p, mid, k - 1, m, d);
        let longer = calls_within(p, mid, k, m, d);
        assert forall|i: int| 0 <= i < longer.len() implies {
            let site = #[trigger] longer[i];
            site.0 == mid && 0 <= site.1 < k
        } by {
            if i < shorter.len() {
                assert(longer[i] == shorter[i]);
            }
        }
    }
}

/// What one call passes for a parameter.
fn observe(r: &Resolver, m: usize, param: &ParamInfo, i: usize, site: Site) -> (t: Ty)
    requires
        m < r@.modules.len(),
        site.0 < r@.modules.len(),
        site.1 < r@.modules[site.0 as int].usages.len(),
    ensures
        t@ == passed(r@, m as int, param@, i as int, (site.0 as int, site.1 as int)),
{
    let u = &r.modules[site.0].usages[site.1];
    assert(r@.modules[site.0 as int].usages[site.1 as int] == u@);
    match &u.kind {
        UsageKind::Call(CallArgs::Args(list)) => {
            if i < list.len() {
                r.resolve_observed(&list[i], site.0)
            } else {
                match &param.default {
                    Some(o) => r.resolve_observed(o, m),
                    None => if param.optional {
                        Ty::Undefined
                    } else {
                        Ty::AnyLike
                    },
                }
            }
        },
        _ => Ty::AnyLike,
    }
}

fn site_name(r: &Resolver, site: Site) -> (t: String)
    requires
        site.0 < r@.modules.len(),
        site.1 < r@.modules[site.0 as int].usages.len(),
    ensures
        t@ == site_text(r@, (site.0 as int, site.1 as int)),
{
    let module = &r.modules[site.0];
    assert(r@.modules[site.0 as int] == module@);
    assert(module@.usages[site.1 as int] == module.usages@[site.1 as int]@);
    let mut out: String = concat(module.rel.as_str(), ":");
    out.append(write_decimal(module.usages[site.1].line as u128).as_str());
    out
}

fn site_examples(r: &Resolver, sites: &Vec<Site>) -> (t: Vec<String>)
    requires
        forall|k: int|
            0 <= k < sites@.len() ==> (#[trigger] sites@[k]).0 < r@.modules.len() && sites@[k].1
                < r@.modules[sites@[k].0 as int].usages.len(),
    ensures
        views(t@) == example_sites(r@, site_views(sites@)),
{
    let mut out: Vec<String> = Vec::new();
    let mut k: usize = 0;
    while k < sites.len() && k < 3
        invariant
            k <= sites@.len(),
            k <= 3,
            forall|j: int|
                0 <= j < sites@.len() ==> (#[trigger] sites@[j]).0 < r@.modules.len() && sites@[j].1
                    < r@.modules[sites@[j].0 as int].usages.len(),
            out@.len() == k,
            forall|j: int| 0 <= j < k ==> out@[j]@ == site_text(r@, site_views(sites@)[j]),
        decreases sites@.len() - k,
    {
        out.push(site_name(r, sites[k]));
        k += 1;
    }
    assert(views(out@) =~= example_sites(r@, site_views(sites@)));
    out
}

fn copy_texts(list: &Vec<String>) -> (r: Vec<String>)
    ensures
        views(r@) == views(list@),
{
    let mut out: Vec<String> = Vec::new();
    let mut i: usize = 0;
    while i < list.len()
        invariant
            i <= list@.len(),
            out@.len() == i,
            forall|j: int| 0 <= j < i ==> out@[j]@ == list@[j]@,
        decreases list@.len() - i,
    {
        out.push(list[i].clone());
        i += 1;
    }
    assert(views(out@) =~= views(list@));
    out
}

/// Appends the findings for the parameter at position `i`.
fn report_param(
    r: &Resolver,
    m: usize,
    d: usize,
    i: usize,
    sites: &Vec<Site>,
    max_depth: usize,
    out: &mut Vec<Finding>,
)
    requires
        m < r@.modules.len(),
        d < r@.modules[m as int].decls.len(),
        i < r@.modules[m as int].decls[d as int].params.len(),
        site_views(sites@) == calls_to(r@, m as int, d as int),
    ensures
        views(final(out)@) == views(old(out)@) + param_findings(
            r@,
            m as int,
            d as int,
            i as int,
            max_depth as nat,
        ),
{
    let ghost p = r@;
    let ghost calls = calls_to(p, m as int, d as int);
    let ghost before = views(out@);
    let decl = &r.modules[m].decls[d];
    let param = &decl.params[i];
    proof {
        assert(p.modules[m as int] == r.modules@[m as int]@);
        assert(p.modules[m as int].decls[d as int] == decl@);
        assert(decl@.params[i as int] == param@);
        lemma_calls_in_project(p, p.modules.len() as int, m as int, d as int);
        assert forall|k: int| 0 <= k < sites@.len() implies (#[trigger] sites@[k]).0
            < p.modules.len() && sites@[k].1 < p.modules[sites@[k].0 as int].usages.len() by {
            assert(calls[k] == site_views(sites@)[k]);
        }
    }
    match &param.ty {
        None => {
            assert(before + Seq::<FindingView>::empty() =~= before);
        },
        Some(te) => {
            let declared = r.resolve_expr(te, m);
            let mut observed: Vec<Ty> = Vec::new();
            let mut k: usize = 0;
            while k < sites.len()
                invariant
                    p == r@,
                    m < p.modules.len(),
                    k <= sites@.len(),
                    forall|j: int|
                        0 <= j < sites@.len() ==> (#[trigger] sites@[j]).0 < p.modules.len()
                            && sites@[j].1 < p.modules[sites@[j].0 as int].usages.len(),
                    observed@.len() == k,
                    forall|j: int|
                        0 <= j < k ==> observed@[j]@ == passed(
                            p,
                            m as int,
                            param@,
                            i as int,
                            site_views(sites@)[j],
                        ),
                decreases sites@.len() - k,
            {
                observed.push(observe(r, m, param, i, sites[k]));
                k += 1;
            }
            assert(views(observed@) =~= all_passed(p, m as int, param@, i as int, calls));
            let reports = analyze_param(&declared, &observed, param.optional, max_depth);
            let ghost shown = views(reports@);
            let ghost wanted = Seq::new(
                shown.len(),
                |k: int| finding_for(p, m as int, d as int, i as int, calls, shown[k]),
            );
            assert(wanted =~= param_findings(p, m as int, d as int, i as int, max_depth as nat));
            assert(views(out@) =~= before + wanted.take(0));
            k = 0;
            while k < reports.len()
                invariant
                    p == r@,
                    m < p.modules.len(),
                    p.modules[m as int] == r.modules@[m as int]@,
                    p.modules[m as int].decls[d as int] == decl@,
                    decl@.params[i as int] == param@,
                    calls == site_views(sites@),
                    shown == views(reports@),
                    k <= reports@.len(),
                    forall|j: int|
                        0 <= j < sites@.len() ==> (#[trigger] sites@[j]).0 < p.modules.len()
                            && sites@[j].1 < p.modules[sites@[j].0 as int].usages.len(),
                    wanted == Seq::new(
                        shown.len(),
                        |k: int| finding_for(p, m as int, d as int, i as int, calls, shown[k]),
                    ),
                    views(out@) == before + wanted.take(k as int),
                decreases reports@.len() - k,
            {
                let report = &reports[k];
                let f = Finding {
                    file: r.modules[m].rel.clone(),
                    line: decl.line,
                    function_name: decl.name.clone(),
                    param: param.name.clone(),
                    path: report.path.clone(),
                    declared: report.declared.clone(),
                    unused: copy_texts(&report.unused),
                    call_count: sites.len(),
                    sites: site_examples(r, sites),
                };
                let ghost so_far = views(out@);
                assert(f@ == wanted[k as int]);
                out.push(f);
                proof {
                    assert(views(out@) =~= so_far.push(f@));
                    assert(views(out@) =~= before + wanted.take(k + 1));
                }
                k += 1;
            }
            assert(wanted.take(k as int) =~= wanted);
        },
    }
}

/// Tests whether a declaration may be reported.
fn may_report(
    r: &Resolver,
    links: &Links,
    m: usize,
    d: usize,
    opts: &Options,
    changed: &Option<ChangedLines>,
) -> (res: bool)
    requires
        links.of(r@),
        m < r@.modules.len(),
        d < r@.modules[m as int].decls.len(),
    ensures
        res == reportable(r@, m as int, d as int, scope_of(*opts, *changed)),
{
    let module = &r.modules[m];
    let decl = &module.decls[d];
    assert(r@.modules[m as int] == module@);
    assert(r@.modules[m as int].decls[d as int] == decl@);
    if !decl.eligible || links.escapes(r, m, d) {
        return false;
    }
    let sites = links.calls_of(r, m, d);
    assert(site_views(sites@).len() == sites@.len());
    if sites.len() == 0 {
        return false;
    }
    if opts.respect_exports && decl.exported {
        return false;
    }
    match changed {
        None => true,
        Some(c) => match c.get(module.path.as_str()) {
            Some(ranges) => intersects(ranges, decl.line, decl.end_line),
            None => false,
        },
    }
}

/// The findings of a project, in the order in which they are listed.
pub fn find_all(
    r: &Resolver,
    links: &Links,
    opts: &Options,
    changed: &Option<ChangedLines>,
) -> (out: Vec<Finding>)
    requires
        links.of(r@),
    ensures
        views(out@) == sorted(
            project_findings(r@, r@.modules.len() as int, scope_of(*opts, *changed)),
        ),
{
    let ghost p = r@;
    let ghost s = scope_of(*opts, *changed);
    let mut out: Vec<Finding> = Vec::new();
    assert(views(out@) =~= project_findings(p, 0, s));
    let mut m: usize = 0;
    while m < r.modules.len()
        invariant
            p == r@,
            s == scope_of(*opts, *changed),
            links.of(p),
            m <= r.modules@.len(),
            views(out@) == project_findings(p, m as int, s),
        decreases r.modules@.len() - m,
    {
        let module = &r.modules[m];
        let ghost earlier = views(out@);
        assert(p.modules[m as int] == module@);
        assert(earlier + module_findings(p, m as int, 0, s) =~= earlier);
        let mut d: usize = 0;
        while d < module.decls.len()
            invariant
                p == r@,
                s == scope_of(*opts, *changed),
                links.of(p),
                m < p.modules.len(),
                p.modules[m as int] == module@,
                d <= module.decls@.len(),
                views(out@) == earlier + module_findings(p, m as int, d as int, s),
            decreases module.decls@.len() - d,
        {
            let ghost so_far = views(out@);
            assert(p.modules[m as int].decls[d as int] == module.decls@[d as int]@);
            if may_report(r, links, m, d, opts, changed) {
                let sites = links.calls_of(r, m, d);
                let total: usize = module.decls[d].params.len();
                let mut i: usize = 0;
                assert(so_far + params_findings(p, m as int, d as int, 0, s.max_depth) =~= so_far);
                while i < total
                    invariant
                        p == r@,
                        s == scope_of(*opts, *changed),
                        m < p.modules.len(),
                        d < p.modules[m as int].decls.len(),
                        i <= total,
                        total == p.modules[m as int].decls[d as int].params.len(),
                        site_views(sites@) == calls_to(p, m as int, d as int),
                        views(out@) == so_far + params_findings(
                            p,
                            m as int,
                            d as int,
                            i as int,
                            s.max_depth,
                        ),
                    decreases total - i,
                {
                    report_param(r, m, d, i, sites, opts.max_depth, &mut out);
                    proof {
                        assert(views(out@) =~= so_far + params_findings(
                            p,
                            m as int,
                            d as int,
                            i + 1,
                            s.max_depth,
                        ));
                    }
                    i += 1;
                }
            } else {
                assert(so_far + Seq::<FindingView>::empty() =~= so_far);
            }
            proof {
                assert(views(out@) =~= earlier + module_findings(p, m as int, d + 1, s));
            }
            d += 1;
        }
        m += 1;
    }
    sort_findings(out)
}

} // verus!

//! The outcome of an analysis: findings, statistics, functions that are never
//! called, and warnings.

use vstd::hash_map::StringHashMap;
use vstd::prelude::*;
use vstd::string::*;

use crate::diff::ChangedLines;
use crate::link::{
    find_all, link, project_findings, scope_of, site_views, Links, ScopeView,
};
use crate::model::{views, Finding, ModuleInfo, ModuleView, Options, SkipReason};
use crate::order::sorted;
use crate::resolve::{count_steps, step_limit, ProjectView, Resolver};
use crate::taint::{calls_to, escaped};
use crate::text::{concat, decimal, write_decimal};

verus! {

/// What becomes of a declaration.
#[derive(Debug, Clone, Copy, PartialEq, Eq, Structural)]
pub enum Category {
    Generic,
    Overload,
    RestParam,
    NoParams,
    Escaped,
    Uncalled,
    Analyzed,
}

pub open spec fn category(p: ProjectView, m: int, d: int) -> Category {
    match p.modules[m].decls[d].skip {
        Some(SkipReason::Generic) => Category::Generic,
        Some(SkipReason::Overload) => Category::Overload,
        Some(SkipReason::RestParam) => Category::RestParam,
        Some(SkipReason::NoParams) => Category::NoParams,
        None => if escaped(p, m, d) {
            Category::Escaped
        } else if calls_to(p, m, d).len() == 0 {
            Category::Uncalled
        } else {
            Category::Analyzed
        },
    }
}

/// The categories of the first `n` declarations of a module.
pub open spec fn module_categories(p: ProjectView, m: int, n: int) -> Seq<Category> {
    Seq::new(
        if n < 0 {
            0
        } else {
            n as nat
        },
        |d: int| category(p, m, d),
    )
}

/// The categories of all declarations of the first `n` modules.
pub open spec fn categories(p: ProjectView, n: int) -> Seq<Category>
    decreases n,
{
    if n <= 0 {
        Seq::empty()
    } else {
        categories(p, n - 1) + module_categories(p, n - 1, p.modules[n - 1].decls.len() as int)
    }
}

pub open spec fn count_of(s: Seq<Category>, c: Category) -> nat
    decreases s.len(),
{
    if s.len() == 0 {
        0
    } else {
        count_of(s.drop_last(), c) + (if s.last() == c {
            1nat
        } else {
            0
        })
    }
}

/// A function that nothing calls.
#[derive(Debug)]
pub struct Uncalled {
    pub file: String,
    pub line: u32,
    pub function_name: String,
    pub exported: bool,
}

#[verifier::ext_equal]
pub struct UncalledView {
    pub file: Seq<char>,
    pub line: u32,
    pub function_name: Seq<char>,
    pub exported: bool,
}

impl View for Uncalled {
    type V = UncalledView;

    open spec fn view(&self) -> UncalledView {
        UncalledView {
            file: self.file@,
            line: self.line,
            function_name: self.function_name@,
            exported: self.exported,
        }
    }
}

/// The functions among the first `n` declarations of a module that nothing calls.
pub open spec fn module_uncalled(p: ProjectView, m: int, n: int) -> Seq<UncalledView>
    decreases n,
{
    if n <= 0 {
        Seq::empty()
    } else {
        let before = module_uncalled(p, m, n - 1);
        let decl = p.modules[m].decls[n - 1];
        if category(p, m, n - 1) == Category::Uncalled {
            before.push(
                UncalledView {
                    file: p.modules[m].rel,
                    line: decl.line,
                    function_name: decl.name,
                    exported: decl.exported,
                },
            )
        } else {
            before
        }
    }
}

pub open spec fn all_uncalled(p: ProjectView, n: int) -> Seq<UncalledView>
    decreases n,
{
    if n <= 0 {
        Seq::empty()
    } else {
        all_uncalled(p, n - 1) + module_uncalled(p, n - 1, p.modules[n - 1].decls.len() as int)
    }
}

/// How many functions fall into each category.
#[derive(Debug, Clone, Copy, PartialEq, Eq, Structural)]
pub struct Stats {
    pub files: usize,
    pub decls: usize,
    pub analyzed: usize,
    pub escaped: usize,
    pub uncalled: usize,
    pub skipped_generic: usize,
    pub skipped_overload: usize,
    pub skipped_rest_param: usize,
    pub skipped_no_params: usize,
}

/// Whether the statistics are those of the project.
pub open spec fn tallies(st: Stats, p: ProjectView) -> bool {
    let all = categories(p, p.modules.len() as int);
    &&& st.files == p.modules.len()
    &&& st.decls == all.len()
    &&& st.analyzed == count_of(all, Category::Analyzed)
    &&& st.escaped == count_of(all, Category::Escaped)
    &&& st.uncalled == count_of(all, Category::Uncalled)
    &&& st.skipped_generic == count_of(all, Category::Generic)
    &&& st.skipped_overload == count_of(all, Category::Overload)
    &&& st.skipped_rest_param == count_of(all, Category::RestParam)
    &&& st.skipped_no_params == count_of(all, Category::NoParams)
}

/// Every declaration is counted in exactly one category.
pub proof fn law_categories_add_up(s: Seq<Category>)
    ensures
        s.len() == count_of(s, Category::Generic) + count_of(s, Category::Overload) + count_of(
            s,
            Category::RestParam,
        ) + count_of(s, Category::NoParams) + count_of(s, Category::Escaped) + count_of(
            s,
            Category::Uncalled,
        ) + count_of(s, Category::Analyzed),
    decreases s.len(),
{
    if s.len() > 0 {
        law_categories_add_up(s.drop_last());
    }
}

/// What is said about a file that did not parse completely.
pub open spec fn parse_warning(m: ModuleView) -> Seq<char> {
    m.rel + ": "@ + decimal(m.parse_errors)
        + " parse error(s); call sites may be missing and findings unreliable"@
}

/// The warnings about the first `n` modules.
pub open spec fn parse_warnings(ms: Seq<ModuleView>) -> Seq<Seq<char>>
    decreases ms.len(),
{
    if ms.len() == 0 {
        Seq::empty()
    } else {
        let before = parse_warnings(ms.drop_last());
        if ms.last().parse_errors > 0 {
            before.push(parse_warning(ms.last()))
        } else {
            before
        }
    }
}

/// Modules by path; of two with the same path the later one counts.
pub open spec fn path_index(ms: Seq<ModuleView>) -> Map<Seq<char>, usize>
    decreases ms.len(),
{
    if ms.len() == 0 {
        Map::empty()
    } else {
        path_index(ms.drop_last()).insert(ms.last().path, (ms.len() - 1) as usize)
    }
}

pub open spec fn project_of(ms: Seq<ModuleView>) -> ProjectView {
    ProjectView { modules: ms, by_path: path_index(ms), limit: step_limit(ms) }
}

/// The outcome of an analysis.
#[derive(Debug)]
pub struct Report {
    pub findings: Vec<Finding>,
    pub stats: Stats,
    pub uncalled: Vec<Uncalled>,
    pub warnings: Vec<String>,
}

/// Whether the report is the one for the project.
pub open spec fn reports_on(r: Report, p: ProjectView, s: ScopeView) -> bool {
    &&& views(r.findings@) == sorted(project_findings(p, p.modules.len() as int, s))
    &&& tallies(r.stats, p)
    &&& views(r.uncalled@) == all_uncalled(p, p.modules.len() as int)
    &&& views(r.warnings@) == parse_warnings(p.modules)
}

fn index_paths(modules: &Vec<ModuleInfo>) -> (r: StringHashMap<usize>)
    ensures
        r@ == path_index(views(modules@)),
{
    let ghost all = views(modules@);
    let mut out: StringHashMap<usize> = StringHashMap::new();
    assert(out@ =~= path_index(all.take(0)));
    let mut i: usize = 0;
    while i < modules.len()
        invariant
            all == views(modules@),
            i <= modules@.len(),
            out@ == path_index(all.take(i as int)),
        decreases modules@.len() - i,
    {
        out.insert(modules[i].path.clone(), i);
        proof {
            assert(all.take(i + 1).drop_last() =~= all.take(i as int));
            assert(all.take(i + 1).last() == modules@[i as int]@);
        }
        i += 1;
    }
    assert(all.take(i as int) =~= all);
    out
}

fn categorize(r: &Resolver, links: &Links, m: usize, d: usize) -> (c: Category)
    requires
        links.of(r@),
        m < r@.modules.len(),
        d < r@.modules[m as int].decls.len(),
    ensures
        c == category(r@, m as int, d as int),
{
    let decl = &r.modules[m].decls[d];
    assert(r@.modules[m as int].decls[d as int] == decl@);
    match decl.skip {
        Some(SkipReason::Generic) => Category::Generic,
        Some(SkipReason::Overload) => Category::Overload,
        Some(SkipReason::RestParam) => Category::RestParam,
        Some(SkipReason::NoParams) => Category::NoParams,
        None => {
            if links.escapes(r, m, d) {
                return Category::Escaped;
            }
            let sites = links.calls_of(r, m, d);
            assert(site_views(sites@).len() == sites@.len());
            if sites.len() == 0 {
                Category::Uncalled
            } else {
                Category::Analyzed
            }
        },
    }
}

/// The category of every declaration, and those that nothing calls.
fn categorize_all(r: &Resolver, links: &Links) -> (out: (Vec<Category>, Vec<Uncalled>))
    requires
        links.of(r@),
    ensures
        out.0@ == categories(r@, r@.modules.len() as int),
        views(out.1@) == all_uncalled(r@, r@.modules.len() as int),
{
    let ghost p = r@;
    let mut flat: Vec<Category> = Vec::new();
    let mut idle: Vec<Uncalled> = Vec::new();
    assert(views(idle@) =~= all_uncalled(p, 0));
    let mut m: usize = 0;
    while m < r.modules.len()
        invariant
            p == r@,
            links.of(p),
            m <= r.modules@.len(),
            flat@ == categories(p, m as int),
            views(idle@) == all_uncalled(p, m as int),
        decreases r.modules@.len() - m,
    {
        let module = &r.modules[m];
        assert(p.modules[m as int] == module@);
        let ghost flat0 = flat@;
        let ghost idle0 = views(idle@);
        assert(flat0 + module_categories(p, m as int, 0) =~= flat0);
        assert(idle0 + module_uncalled(p, m as int, 0) =~= idle0);
        let mut d: usize = 0;
        while d < module.decls.len()
            invariant
                p == r@,
                links.of(p),
                m < p.modules.len(),
                p.modules[m as int] == module@,
                d <= module.decls@.len(),
                flat@ == flat0 + module_categories(p, m as int, d as int),
                views(idle@) == idle0 + module_uncalled(p, m as int, d as int),
            decreases module.decls@.len() - d,
        {
            let decl = &module.decls[d];
            assert(p.modules[m as int].decls[d as int] == decl@);
            let c = categorize(r, links, m, d);
            flat.push(c);
            assert(flat@ =~= flat0 + module_categories(p, m as int, d + 1));
            if c == Category::Uncalled {
                let u = Uncalled {
                    file: module.rel.clone(),
                    line: decl.line,
                    function_name: decl.name.clone(),
                    exported: decl.exported,
                };
                let ghost so_far = views(idle@);
                idle.push(u);
                assert(views(idle@) =~= so_far.push(u@));
            }
            assert(views(idle@) =~= idle0 + module_uncalled(p, m as int, d + 1));
            d += 1;
        }
        m += 1;
    }
    (flat, idle)
}

fn count(list: &Vec<Category>, c: Category) -> (n: usize)
    ensures
        n == count_of(list@, c),
{
    let mut n: usize = 0;
    let mut i: usize = 0;
    while i < list.len()
        invariant
            i <= list@.len(),
            n == count_of(list@.take(i as int), c),
            n <= i,
        decreases list@.len() - i,
    {
        assert(list@.take(i + 1).drop_last() =~= list@.take(i as int));
        if list[i] == c {
            n += 1;
        }
        i += 1;
    }
    assert(list@.take(i as int) =~= list@);
    n
}

fn warn_about(modules: &Vec<ModuleInfo>) -> (r: Vec<String>)
    ensures
        views(r@) == parse_warnings(views(modules@)),
{
    let ghost all = views(modules@);
    let mut out: Vec<String> = Vec::new();
    assert(views(out@) =~= parse_warnings(all.take(0)));
    let mut i: usize = 0;
    while i < modules.len()
        invariant
            all == views(modules@),
            i <= modules@.len(),
            views(out@) == parse_warnings(all.take(i as int)),
        decreases modules@.len() - i,
    {
        let module = &modules[i];
        proof {
            assert(all.take(i + 1).drop_last() =~= all.take(i as int));
            assert(all.take(i + 1).last() == module@);
        }
        if module.parse_errors > 0 {
            let mut text: String = concat(module.rel.as_str(), ": ");
            text.append(write_decimal(module.parse_errors as u128).as_str());
            text.append(" parse error(s); call sites may be missing and findings unreliable");
            let ghost so_far = views(out@);
            out.push(text);
            assert(views(out@) =~= so_far.push(text@));
        }
        i += 1;
    }
    assert(all.take(i as int) =~= all);
    out
}

/// Analyzes a project whose modules have been extracted. `changed` restricts
/// what is reported; call sites are always sought in the whole project.
pub fn analyze_modules(
    modules: &Vec<ModuleInfo>,
    changed: &Option<ChangedLines>,
    opts: &Options,
) -> (report: Report)
    ensures
        reports_on(report, project_of(views(modules@)), scope_of(*opts, *changed)),
{
    let by_path = index_paths(modules);
    let r = Resolver { modules, by_path: &by_path, limit: count_steps(modules) };
    assert(r@ == project_of(views(modules@)));
    let links = link(&r);
    let findings = find_all(&r, &links, opts, changed);
    let (flat, uncalled) = categorize_all(&r, &links);
    let stats = Stats {
        files: modules.len(),
        decls: flat.len(),
        analyzed: count(&flat, Category::Analyzed),
        escaped: count(&flat, Category::Escaped),
        uncalled: count(&flat, Category::Uncalled),
        skipped_generic: count(&flat, Category::Generic),
        skipped_overload: count(&flat, Category::Overload),
        skipped_rest_param: count(&flat, Category::RestParam),
        skipped_no_params: count(&flat, Category::NoParams),
    };
    Report { findings, stats, uncalled, warnings: warn_about(modules) }
}

} // verus!

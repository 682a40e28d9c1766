//! The command line: what the arguments ask for, and what is printed.

use vstd::prelude::*;
use vstd::string::*;

use crate::model::{views, Finding, FindingView, Options};
use crate::param::comma_list;
use crate::report::{Stats, Uncalled, UncalledView};
use crate::syntax::opt_text;
use crate::text::{
    chars_of, concat, decimal, has_prefix, parsed_decimal, read_decimal, same_text, starts_with,
    text_between, write_decimal,
};

verus! {

// ---------------------------------------------------------------------------
// Arguments
// ---------------------------------------------------------------------------

/// The number that an argument writes, with an optional sign in front.
pub open spec fn number_in(text: Seq<char>, limit: nat) -> Option<nat> {
    if starts_with(text, "+"@) {
        parsed_decimal(text.skip(1), limit)
    } else {
        parsed_decimal(text, limit)
    }
}

fn read_number(text: &str, limit: u64) -> (r: Option<u64>)
    ensures
        (match r {
            Some(n) => number_in(text@, limit as nat) == Some(n as nat) && n <= limit,
            None => number_in(text@, limit as nat) is None,
        }),
{
    if has_prefix(text, "+") {
        proof {
            reveal_strlit("+");
        }
        let c = chars_of(text);
        let rest = text_between(&c, 1, c.len());
        assert(rest@ =~= text@.skip(1));
        read_decimal(rest.as_str(), limit)
    } else {
        read_decimal(text, limit)
    }
}

/// What to analyze, and how.
#[verifier::ext_equal]
pub struct RequestView {
    pub diff_base: Option<Seq<char>>,
    pub json: bool,
    pub list_uncalled: bool,
    pub respect_exports: bool,
    pub max_depth: nat,
    pub fail_on_findings: bool,
    pub quiet: bool,
    pub timing: bool,
}

#[derive(Debug)]
pub struct Request {
    pub opts: Options,
    pub list_uncalled: bool,
}

impl View for Request {
    type V = RequestView;

    open spec fn view(&self) -> RequestView {
        RequestView {
            diff_base: opt_text(self.opts.diff_base),
            json: self.opts.json,
            list_uncalled: self.list_uncalled,
            respect_exports: self.opts.respect_exports,
            max_depth: self.opts.max_depth as nat,
            fail_on_findings: self.opts.fail_on_findings,
            quiet: self.opts.quiet,
            timing: self.opts.timing,
        }
    }
}

pub open spec fn default_request() -> RequestView {
    RequestView {
        diff_base: None,
        json: false,
        list_uncalled: false,
        respect_exports: false,
        max_depth: 6,
        fail_on_findings: false,
        quiet: false,
        timing: false,
    }
}

/// What the options from position `i` on make of a request, or what is wrong
/// with them.
pub open spec fn requested(args: Seq<Seq<char>>, i: int, r: RequestView) -> Result<
    RequestView,
    Seq<char>,
>
    decreases args.len() - i,
{
    if i < 0 || i >= args.len() {
        Ok(r)
    } else if args[i] == "--diff"@ {
        if i + 1 < args.len() && !starts_with(args[i + 1], "-"@) {
            requested(args, i + 2, RequestView { diff_base: Some(args[i + 1]), ..r })
        } else {
            Err("--diff requires a git base ref"@)
        }
    } else if args[i] == "--json"@ {
        requested(args, i + 1, RequestView { json: true, ..r })
    } else if args[i] == "--list-uncalled"@ {
        requested(args, i + 1, RequestView { list_uncalled: true, ..r })
    } else if args[i] == "--respect-exports"@ {
        requested(args, i + 1, RequestView { respect_exports: true, ..r })
    } else if args[i] == "--max-depth"@ {
        if i + 1 < args.len() && number_in(args[i + 1], usize::MAX as nat) is Some {
            requested(
                args,
                i + 2,
                RequestView { max_depth: number_in(args[i + 1], usize::MAX as nat)->0, ..r },
            )
        } else {
            Err("--max-depth requires a number"@)
        }
    } else if args[i] == "--fail-on-findings"@ {
        requested(args, i + 1, RequestView { fail_on_findings: true, ..r })
    } else if args[i] == "--quiet"@ {
        requested(args, i + 1, RequestView { quiet: true, ..r })
    } else if args[i] == "--timing"@ {
        requested(args, i + 1, RequestView { timing: true, ..r })
    } else {
        Err("unknown option: "@ + args[i])
    }
}

pub open spec fn request_result(r: Result<Request, String>) -> Result<RequestView, Seq<char>> {
    match r {
        Ok(x) => Ok(x@),
        Err(e) => Err(e@),
    }
}

/// Reads the options behind the path to analyze.
pub fn parse_request(args: &Vec<String>) -> (r: Result<Request, String>)
    ensures
        request_result(r) == requested(views(args@), 1, default_request()),
{
    let ghost all = views(args@);
    let ghost whole = requested(all, 1, default_request());
    let mut req = Request { opts: Options::default(), list_uncalled: false };
    let total: usize = args.len();
    let mut i: usize = 1;
    if total == 0 {
        return Ok(req);
    }
    while i < total
        invariant
            all == views(args@),
            total == all.len(),
            1 <= i <= total,
            whole == requested(all, 1, default_request()),
            requested(all, i as int, req@) == whole,
        decreases total - i,
    {
        let a = args[i].as_str();
        assert(all[i as int] == a@);
        if same_text(a, "--diff") {
            if i + 1 < total && !has_prefix(args[i + 1].as_str(), "-") {
                req.opts.diff_base = Some(args[i + 1].clone());
                i += 2;
            } else {
                return Err(String::from_str("--diff requires a git base ref"));
            }
        } else if same_text(a, "--json") {
            req.opts.json = true;
            i += 1;
        } else if same_text(a, "--list-uncalled") {
            req.list_uncalled = true;
            i += 1;
        } else if same_text(a, "--respect-exports") {
            req.opts.respect_exports = true;
            i += 1;
        } else if same_text(a, "--max-depth") {
            if i + 1 >= total {
                return Err(String::from_str("--max-depth requires a number"));
            }
            match read_number(args[i + 1].as_str(), usize::MAX as u64) {
                Some(n) => {
                    req.opts.max_depth = n as usize;
                    i += 2;
                },
                None => return Err(String::from_str("--max-depth requires a number")),
            }
        } else if same_text(a, "--fail-on-findings") {
            req.opts.fail_on_findings = true;
            i += 1;
        } else if same_text(a, "--quiet") {
            req.opts.quiet = true;
            i += 1;
        } else if same_text(a, "--timing") {
            req.opts.timing = true;
            i += 1;
        } else {
            return Err(concat("unknown option: ", a));
        }
    }
    Ok(req)
}

/// What to generate.
#[derive(Debug)]
pub struct GenRequest {
    pub out: String,
    pub files: usize,
    pub fns: usize,
    pub seed: u64,
}

#[verifier::ext_equal]
pub struct GenView {
    pub out: Option<Seq<char>>,
    pub files: nat,
    pub fns: nat,
    pub seed: nat,
}

pub open spec fn default_gen() -> GenView {
    GenView { out: None, files: 1000, fns: 10, seed: 42 }
}

/// A number option: the number behind it, or what was set before.
pub open spec fn number_or(args: Seq<Seq<char>>, i: int, limit: nat, before: nat) -> nat {
    if i < args.len() && number_in(args[i], limit) is Some {
        number_in(args[i], limit)->0
    } else {
        before
    }
}

/// What the generator options from position `i` on ask for.
pub open spec fn gen_requested(args: Seq<Seq<char>>, i: int, g: GenView) -> Result<
    GenView,
    Seq<char>,
>
    decreases args.len() - i,
{
    let max = usize::MAX as nat;
    if i < 0 || i >= args.len() {
        if g.out is None {
            Err("gen requires --out <dir>"@)
        } else {
            Ok(g)
        }
    } else if args[i] == "--out"@ {
        gen_requested(
            args,
            if i + 1 < args.len() {
                i + 2
            } else {
                args.len() as int
            },
            GenView {
                out: if i + 1 < args.len() {
                    Some(args[i + 1])
                } else {
                    None
                },
                ..g
            },
        )
    } else if args[i] == "--files"@ {
        gen_requested(
            args,
            if i + 1 < args.len() {
                i + 2
            } else {
                args.len() as int
            },
            GenView { files: number_or(args, i + 1, max, g.files), ..g },
        )
    } else if args[i] == "--fns"@ {
        gen_requested(
            args,
            if i + 1 < args.len() {
                i + 2
            } else {
                args.len() as int
            },
            GenView { fns: number_or(args, i + 1, max, g.fns), ..g },
        )
    } else if args[i] == "--seed"@ {
        gen_requested(
            args,
            if i + 1 < args.len() {
                i + 2
            } else {
                args.len() as int
            },
            GenView { seed: number_or(args, i + 1, u64::MAX as nat, g.seed), ..g },
        )
    } else {
        Err("unknown gen option: "@ + args[i])
    }
}

pub open spec fn gen_result(r: Result<GenRequest, String>) -> Result<GenView, Seq<char>> {
    match r {
        Ok(g) => Ok(
            GenView {
                out: Some(g.out@),
                files: g.files as nat,
                fns: g.fns as nat,
                seed: g.seed as nat,
            },
        ),
        Err(e) => Err(e@),
    }
}

fn number_at(args: &Vec<String>, i: usize, limit: u64, before: u64) -> (r: u64)
    requires
        before <= limit,
    ensures
        r == number_or(views(args@), i as int, limit as nat, before as nat),
        r <= limit,
{
    if i < args.len() {
        assert(views(args@)[i as int] == args@[i as int]@);
        match read_number(args[i].as_str(), limit) {
            Some(n) => n,
            None => before,
        }
    } else {
        before
    }
}

/// Reads the options of `gen`, which stands first among the arguments.
pub fn parse_gen(args: &Vec<String>) -> (r: Result<GenRequest, String>)
    ensures
        gen_result(r) == gen_requested(views(args@), 1, default_gen()),
{
    let ghost all = views(args@);
    let ghost whole = gen_requested(all, 1, default_gen());
    let mut out: Option<String> = None;
    let mut files: usize = 1000;
    let mut fns: usize = 10;
    let mut seed: u64 = 42;
    let total: usize = args.len();
    let mut i: usize = 1;
    while i < total
        invariant
            all == views(args@),
            total == all.len(),
            1 <= i,
            total > 0 ==> i <= total,
            whole == gen_requested(all, 1, default_gen()),
            whole == gen_requested(
                all,
                i as int,
                GenView {
                    out: opt_text(out),
                    files: files as nat,
                    fns: fns as nat,
                    seed: seed as nat,
                },
            ),
        decreases total - i,
    {
        let a = args[i].as_str();
        assert(all[i as int] == a@);
        let next: usize = if i + 1 < total {
            i + 2
        } else {
            total
        };
        if same_text(a, "--out") {
            out = if i + 1 < total {
                Some(args[i + 1].clone())
            } else {
                None
            };
        } else if same_text(a, "--files") {
            files = number_at(args, i + 1, usize::MAX as u64, files as u64) as usize;
        } else if same_text(a, "--fns") {
            fns = number_at(args, i + 1, usize::MAX as u64, fns as u64) as usize;
        } else if same_text(a, "--seed") {
            seed = number_at(args, i + 1, u64::MAX, seed);
        } else {
            return Err(concat("unknown gen option: ", a));
        }
        i = next;
    }
    match out {
        Some(out) => Ok(GenRequest { out, files, fns, seed }),
        None => Err(String::from_str("gen requires --out <dir>")),
    }
}

/// What a command line asks for.
#[derive(Debug)]
pub enum Command {
    Help,
    Version,
    Gen(Result<GenRequest, String>),
    /// The path to analyze, and how.
    Analyze(String, Result<Request, String>),
}

#[verifier::ext_equal]
pub enum CommandView {
    Help,
    Version,
    Gen(Result<GenView, Seq<char>>),
    Analyze(Seq<char>, Result<RequestView, Seq<char>>),
}

impl View for Command {
    type V = CommandView;

    open spec fn view(&self) -> CommandView {
        match self {
            Command::Help => CommandView::Help,
            Command::Version => CommandView::Version,
            Command::Gen(r) => CommandView::Gen(gen_result(*r)),
            Command::Analyze(root, r) => CommandView::Analyze(root@, request_result(*r)),
        }
    }
}

/// What a command line, without the program's name, asks for. Help and version
/// count wherever they stand.
pub open spec fn commanded(args: Seq<Seq<char>>) -> CommandView {
    if args.len() == 0 || args.contains("-h"@) || args.contains("--help"@) {
        CommandView::Help
    } else if args.contains("--version"@) || args.contains("-V"@) {
        CommandView::Version
    } else if args[0] == "gen"@ {
        CommandView::Gen(gen_requested(args, 1, default_gen()))
    } else {
        CommandView::Analyze(args[0], requested(args, 1, default_request()))
    }
}

fn has_arg(args: &Vec<String>, text: &str) -> (r: bool)
    ensures
        r == views(args@).contains(text@),
{
    let mut i: usize = 0;
    while i < args.len()
        invariant
            i <= args@.len(),
            forall|j: int| 0 <= j < i ==> (#[trigger] args@[j])@ != text@,
        decreases args@.len() - i,
    {
        if same_text(args[i].as_str(), text) {
            assert(views(args@)[i as int] == text@);
            return true;
        }
        i += 1;
    }
    assert forall|j: int| 0 <= j < args@.len() implies views(args@)[j] != text@ by {
        assert(args@[j]@ != text@);
    }
    false
}

/// Reads a command line, without the program's name.
pub fn parse_command(args: &Vec<String>) -> (r: Command)
    ensures
        r@ == commanded(views(args@)),
{
    if args.len() == 0 || has_arg(args, "-h") || has_arg(args, "--help") {
        Command::Help
    } else if has_arg(args, "--version") || has_arg(args, "-V") {
        Command::Version
    } else if same_text(args[0].as_str(), "gen") {
        Command::Gen(parse_gen(args))
    } else {
        Command::Analyze(args[0].clone(), parse_request(args))
    }
}

/// The code to exit with: a failure only where findings are asked to be one.
pub open spec fn exit_status(fail_on_findings: bool, findings: nat) -> u8 {
    if fail_on_findings && findings > 0 {
        1
    } else {
        0
    }
}

/// The exit code of a run: 1 if findings fail it.
pub fn exit_code(fail_on_findings: bool, findings: usize) -> (r: u8)
    ensures
        r == exit_status(fail_on_findings, findings as nat),
        r == (if fail_on_findings && findings > 0 {
            1u8
        } else {
            0u8
        }),
{
    if fail_on_findings && findings > 0 {
        1
    } else {
        0
    }
}

// ---------------------------------------------------------------------------
// Output
// ---------------------------------------------------------------------------

/// The line of a finding.
pub open spec fn finding_line(f: FindingView) -> Seq<char> {
    f.file + ":"@ + decimal(f.line as nat) + "  "@ + f.function_name + "("@ + f.param + ")"@ + f.path
        + ": declared "@ + f.declared + ", never passed: "@ + comma_list(f.unused) + "  ["@
        + decimal(f.call_count) + (if f.call_count == 1 {
        " call: "@
    } else {
        " calls: "@
    }) + comma_list(f.sites) + (if f.call_count > f.sites.len() {
        ", …]"@
    } else {
        "]"@
    })
}

fn append_list(out: &mut String, list: &Vec<String>)
    ensures
        final(out)@ == old(out)@ + comma_list(views(list@)),
{
    let ghost before = out@;
    let ghost all = views(list@);
    assert(out@ =~= before + comma_list(all.take(0)));
    let mut i: usize = 0;
    while i < list.len()
        invariant
            all == views(list@),
            i <= list@.len(),
            out@ == before + comma_list(all.take(i as int)),
        decreases list@.len() - i,
    {
        if i > 0 {
            out.append(", ");
        }
        out.append(list[i].as_str());
        proof {
            assert(all.take(i + 1).drop_last() =~= all.take(i as int));
            assert(all.take(i + 1).last() == list@[i as int]@);
            assert(out@ =~= before + comma_list(all.take(i + 1)));
        }
        i += 1;
    }
    assert(all.take(i as int) =~= all);
}

/// Writes a finding as a line.
pub fn render_finding(f: &Finding) -> (r: String)
    ensures
        r@ == finding_line(f@),
{
    let mut s: String = concat(f.file.as_str(), ":");
    s.append(write_decimal(f.line as u128).as_str());
    s.append("  ");
    s.append(f.function_name.as_str());
    s.append("(");
    s.append(f.param.as_str());
    s.append(")");
    s.append(f.path.as_str());
    s.append(": declared ");
    s.append(f.declared.as_str());
    s.append(", never passed: ");
    append_list(&mut s, &f.unused);
    s.append("  [");
    s.append(write_decimal(f.call_count as u128).as_str());
    if f.call_count == 1 {
        s.append(" call: ");
    } else {
        s.append(" calls: ");
    }
    append_list(&mut s, &f.sites);
    if f.call_count > f.sites.len() {
        s.append(", …]");
    } else {
        s.append("]");
    }
    assert(s@ =~= finding_line(f@));
    s
}

/// The line of a function that nothing calls.
pub open spec fn uncalled_line(u: UncalledView) -> Seq<char> {
    u.file + ":"@ + decimal(u.line as nat) + "  "@ + u.function_name + (if u.exported {
        "  [exported]"@
    } else {
        Seq::<char>::empty()
    })
}

pub fn render_uncalled(u: &Uncalled) -> (r: String)
    ensures
        r@ == uncalled_line(u@),
{
    let mut s: String = concat(u.file.as_str(), ":");
    s.append(write_decimal(u.line as u128).as_str());
    s.append("  ");
    s.append(u.function_name.as_str());
    if u.exported {
        s.append("  [exported]");
    }
    assert(s@ =~= uncalled_line(u@));
    s
}

/// The share of `n` in `total` in percent, to the nearest whole number, a half
/// to the even one; zero of nothing.
pub open spec fn percent(n: nat, total: nat) -> nat {
    if total == 0 {
        0
    } else {
        let whole = (100 * n) / total;
        let rest = (100 * n) % total;
        if 2 * rest > total || (2 * rest == total && whole % 2 == 1) {
            whole + 1
        } else {
            whole
        }
    }
}

fn percent_of(n: usize, total: usize) -> (r: u128)
    ensures
        r == percent(n as nat, total as nat),
{
    if total == 0 {
        return 0;
    }
    let scaled: u128 = 100 * (n as u128);
    let whole: u128 = scaled / (total as u128);
    let rest: u128 = scaled % (total as u128);
    assert(whole <= scaled) by (nonlinear_arith)
        requires
            whole == scaled / (total as u128),
            total > 0,
    ;
    if 2 * rest > total as u128 || (2 * rest == total as u128 && whole % 2 == 1) {
        whole + 1
    } else {
        whole
    }
}

/// A count with its share in percent.
pub open spec fn share(label: Seq<char>, n: nat, total: nat) -> Seq<char> {
    label + decimal(n) + " ("@ + decimal(percent(n, total)) + "%)"@
}

/// The line that sums a run up.
pub open spec fn summary_line(st: Stats, findings: nat) -> Seq<char> {
    "type-narrower: "@ + decimal(st.files as nat) + " files, "@ + decimal(st.decls as nat)
        + " functions — "@ + share("analyzed "@, st.analyzed as nat, st.decls as nat) + share(
        ", escaped "@,
        st.escaped as nat,
        st.decls as nat,
    ) + share(", never-called "@, st.uncalled as nat, st.decls as nat) + ", generic "@ + decimal(
        st.skipped_generic as nat,
    ) + ", overloaded "@ + decimal(st.skipped_overload as nat) + ", rest-param "@ + decimal(
        st.skipped_rest_param as nat,
    ) + ", zero-param "@ + decimal(st.skipped_no_params as nat) + "; "@ + decimal(findings)
        + " finding(s)"@
}

fn append_number(out: &mut String, n: usize)
    ensures
        final(out)@ == old(out)@ + decimal(n as nat),
{
    out.append(write_decimal(n as u128).as_str());
}

fn append_share(out: &mut String, label: &str, n: usize, total: usize)
    ensures
        final(out)@ == old(out)@ + share(label@, n as nat, total as nat),
{
    let ghost before = out@;
    out.append(label);
    append_number(out, n);
    out.append(" (");
    out.append(write_decimal(percent_of(n, total)).as_str());
    out.append("%)");
    assert(out@ =~= before + share(label@, n as nat, total as nat));
}

/// Sums a run up.
pub fn render_summary(st: &Stats, findings: usize) -> (r: String)
    ensures
        r@ == summary_line(*st, findings as nat),
{
    let mut s: String = String::from_str("type-narrower: ");
    append_number(&mut s, st.files);
    s.append(" files, ");
    append_number(&mut s, st.decls);
    s.append(" functions — ");
    append_share(&mut s, "analyzed ", st.analyzed, st.decls);
    append_share(&mut s, ", escaped ", st.escaped, st.decls);
    append_share(&mut s, ", never-called ", st.uncalled, st.decls);
    s.append(", generic ");
    append_number(&mut s, st.skipped_generic);
    s.append(", overloaded ");
    append_number(&mut s, st.skipped_overload);
    s.append(", rest-param ");
    append_number(&mut s, st.skipped_rest_param);
    s.append(", zero-param ");
    append_number(&mut s, st.skipped_no_params);
    s.append("; ");
    append_number(&mut s, findings);
    s.append(" finding(s)");
    assert(s@ =~= summary_line(*st, findings as nat));
    s
}

} // verus!

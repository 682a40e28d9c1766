//! Reading command lines, and what is printed.

use type_narrower::cli::{
    exit_code, parse_command, parse_gen, parse_request, render_finding, render_summary,
    render_uncalled, Command,
};
use type_narrower::report::{Stats, Uncalled};
use type_narrower::Finding;

fn args(list: &[&str]) -> Vec<String> {
    list.iter().map(|s| s.to_string()).collect()
}

#[test]
fn help_and_version_count_anywhere() {
    assert!(matches!(parse_command(&args(&[])), Command::Help));
    assert!(matches!(parse_command(&args(&["-h"])), Command::Help));
    assert!(matches!(parse_command(&args(&["dir", "--json", "--help"])), Command::Help));
    assert!(matches!(parse_command(&args(&["--version"])), Command::Version));
    assert!(matches!(parse_command(&args(&["dir", "-V"])), Command::Version));
    assert!(matches!(parse_command(&args(&["-V", "-h"])), Command::Help));
}

#[test]
fn options_of_an_analysis() {
    let Command::Analyze(root, request) = parse_command(&args(&[
        "dir",
        "--diff",
        "origin/main...HEAD",
        "--json",
        "--list-uncalled",
        "--respect-exports",
        "--max-depth",
        "3",
        "--fail-on-findings",
        "--quiet",
        "--timing",
    ])) else {
        panic!("no analysis");
    };
    let r = request.unwrap();
    assert_eq!(root, "dir");
    assert_eq!(r.opts.diff_base, Some("origin/main...HEAD".to_string()));
    assert!(r.opts.json && r.list_uncalled && r.opts.respect_exports);
    assert!(r.opts.fail_on_findings && r.opts.quiet && r.opts.timing);
    assert_eq!(r.opts.max_depth, 3);
}

#[test]
fn defaults_of_an_analysis() {
    let r = parse_request(&args(&["dir"])).unwrap();
    assert_eq!(r.opts.diff_base, None);
    assert!(!r.opts.json && !r.list_uncalled && !r.opts.respect_exports);
    assert!(!r.opts.fail_on_findings && !r.opts.quiet && !r.opts.timing);
    assert_eq!(r.opts.max_depth, 6);
}

#[test]
fn wrong_options() {
    let wrong = |list: &[&str]| parse_request(&args(list)).unwrap_err();
    assert_eq!(wrong(&["dir", "--diff"]), "--diff requires a git base ref");
    assert_eq!(wrong(&["dir", "--diff", "--json"]), "--diff requires a git base ref");
    assert_eq!(wrong(&["dir", "--max-depth"]), "--max-depth requires a number");
    assert_eq!(wrong(&["dir", "--max-depth", "x"]), "--max-depth requires a number");
    assert_eq!(wrong(&["dir", "--max-depth", "-1"]), "--max-depth requires a number");
    assert_eq!(wrong(&["dir", "--max-depth", ""]), "--max-depth requires a number");
    assert_eq!(
        wrong(&["dir", "--max-depth", "99999999999999999999999"]),
        "--max-depth requires a number"
    );
    assert_eq!(wrong(&["dir", "--nope"]), "unknown option: --nope");
    assert_eq!(parse_request(&args(&["dir", "--max-depth", "+7"])).unwrap().opts.max_depth, 7);
}

#[test]
fn options_of_the_generator() {
    let Command::Gen(request) =
        parse_command(&args(&["gen", "--out", "/tmp/x", "--files", "3", "--fns", "4", "--seed", "5"]))
    else {
        panic!("no generator");
    };
    let g = request.unwrap();
    assert_eq!((g.out.as_str(), g.files, g.fns, g.seed), ("/tmp/x", 3, 4, 5));
    let g = parse_gen(&args(&["gen", "--out", "o"])).unwrap();
    assert_eq!((g.out.as_str(), g.files, g.fns, g.seed), ("o", 1000, 10, 42));
    // What is no number leaves the default.
    let g = parse_gen(&args(&["gen", "--out", "o", "--files", "x", "--fns"])).unwrap();
    assert_eq!((g.files, g.fns), (1000, 10));
}

#[test]
fn wrong_generator_options() {
    assert_eq!(parse_gen(&args(&["gen"])).unwrap_err(), "gen requires --out <dir>");
    assert_eq!(parse_gen(&args(&["gen", "--out"])).unwrap_err(), "gen requires --out <dir>");
    assert_eq!(parse_gen(&args(&["gen", "--what"])).unwrap_err(), "unknown gen option: --what");
}

#[test]
fn exit_codes() {
    assert_eq!(exit_code(false, 0), 0);
    assert_eq!(exit_code(false, 5), 0);
    assert_eq!(exit_code(true, 0), 0);
    assert_eq!(exit_code(true, 5), 1);
}

#[test]
fn finding_lines() {
    let mut f = Finding {
        file: "src/notify.ts".to_string(),
        line: 4,
        function_name: "send".to_string(),
        param: "channel".to_string(),
        path: String::new(),
        declared: "\"email\" | \"sms\" | \"push\" | \"fax\"".to_string(),
        unused: vec!["\"fax\"".to_string()],
        call_count: 3,
        sites: vec![
            "src/notify.ts:8".to_string(),
            "src/notify.ts:9".to_string(),
            "src/notify.ts:10".to_string(),
        ],
    };
    assert_eq!(
        render_finding(&f),
        "src/notify.ts:4  send(channel): declared \"email\" | \"sms\" | \"push\" | \"fax\", \
         never passed: \"fax\"  [3 calls: src/notify.ts:8, src/notify.ts:9, src/notify.ts:10]"
    );
    f.path = ".mode.deep".to_string();
    f.call_count = 1;
    f.sites.truncate(1);
    f.unused.push("1".to_string());
    assert_eq!(
        render_finding(&f),
        "src/notify.ts:4  send(channel).mode.deep: declared \"email\" | \"sms\" | \"push\" | \
         \"fax\", never passed: \"fax\", 1  [1 call: src/notify.ts:8]"
    );
    f.call_count = 12;
    assert!(render_finding(&f).ends_with("[12 calls: src/notify.ts:8, …]"));
}

#[test]
fn uncalled_lines() {
    let mut u = Uncalled {
        file: "a.ts".to_string(),
        line: 12,
        function_name: "f".to_string(),
        exported: false,
    };
    assert_eq!(render_uncalled(&u), "a.ts:12  f");
    u.exported = true;
    assert_eq!(render_uncalled(&u), "a.ts:12  f  [exported]");
}

#[test]
fn summaries() {
    let st = Stats {
        files: 2,
        decls: 8,
        analyzed: 1,
        escaped: 3,
        uncalled: 0,
        skipped_generic: 1,
        skipped_overload: 2,
        skipped_rest_param: 0,
        skipped_no_params: 1,
    };
    // An eighth is 12.5 percent: a half goes to the even number.
    assert_eq!(
        render_summary(&st, 4),
        "type-narrower: 2 files, 8 functions — analyzed 1 (12%), escaped 3 (38%), never-called 0 \
         (0%), generic 1, overloaded 2, rest-param 0, zero-param 1; 4 finding(s)"
    );
    let none = Stats {
        files: 0,
        decls: 0,
        analyzed: 0,
        escaped: 0,
        uncalled: 0,
        skipped_generic: 0,
        skipped_overload: 0,
        skipped_rest_param: 0,
        skipped_no_params: 0,
    };
    assert_eq!(
        render_summary(&none, 0),
        "type-narrower: 0 files, 0 functions — analyzed 0 (0%), escaped 0 (0%), never-called 0 \
         (0%), generic 0, overloaded 0, rest-param 0, zero-param 0; 0 finding(s)"
    );
}

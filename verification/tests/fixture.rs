//! Changed lines, and the reporting of exported functions.

use type_narrower::diff::{git_changed_lines, intersects, parse_unified_diff};
use type_narrower::project::SourceFile;
use type_narrower::report::Report;
use type_narrower::{analyze, Options};

fn source(rel: &str, text: &str) -> SourceFile {
    SourceFile { path: format!("/repo/{rel}"), rel: rel.to_string(), text: text.to_string() }
}

fn cross_file(opts: &Options) -> Report {
    let files = vec![
        source(
            "src/06-cross-file-def.ts",
            "export type Level = \"debug\" | \"info\" | \"warn\" | \"error\";\n\
             export function log(level: Level) {}\n",
        ),
        source(
            "src/06-cross-file-use.ts",
            "import { log } from \"./06-cross-file-def\";\nlog(\"info\");\nlog(\"warn\");\n",
        ),
    ];
    let existing = vec!["/repo/src/06-cross-file-def.ts".to_string()];
    analyze(&files, &Vec::new(), &existing, &None, opts)
}

#[test]
fn respect_exports_drops_exported() {
    let opts = Options { respect_exports: true, ..Default::default() };
    let findings = cross_file(&opts).findings;
    // 06-cross-file-def.ts `log` is exported and must disappear in open-world mode.
    assert!(
        !findings.iter().any(|f| f.file.contains("06-cross-file-def")),
        "exported function still reported under --respect-exports"
    );
}

#[test]
fn exported_functions_are_reported_by_default() {
    let findings = cross_file(&Options::default()).findings;
    assert_eq!(findings.len(), 1);
    assert_eq!(findings[0].file, "src/06-cross-file-def.ts");
    assert_eq!(findings[0].line, 2);
    assert_eq!(findings[0].unused, vec!["\"debug\"", "\"error\""]);
    assert_eq!(findings[0].call_count, 2);
    assert_eq!(
        findings[0].sites,
        vec!["src/06-cross-file-use.ts:2", "src/06-cross-file-use.ts:3"]
    );
}

#[test]
fn diff_parser_basics() {
    let diff = "\
--- a/src/a.ts
+++ b/src/a.ts
@@ -10,0 +11,3 @@
+x
+y
+z
@@ -20,2 +25,0 @@
";
    let changed = parse_unified_diff(diff, "/repo");
    let ranges = changed.get("/repo/src/a.ts").unwrap();
    assert_eq!(ranges, &vec![(11, 13), (25, 25)]);
    assert!(intersects(ranges, 12, 40));
    assert!(!intersects(ranges, 14, 24));
}

#[test]
fn diff_parser_ignores_spoofed_headers() {
    // With -U0, an added source line `++ x;` renders as `+++ x;` and must not
    // be mistaken for a file header (only `+++ ` after `--- ` counts).
    let diff = "\
--- a/src/a.ts
+++ b/src/a.ts
@@ -1,0 +2,1 @@
+++ x;
@@ -9,0 +10,1 @@
+y
";
    let changed = parse_unified_diff(diff, "/repo");
    assert_eq!(changed.len(), 1, "spoofed header created a phantom file");
    let ranges = changed.get("/repo/src/a.ts").unwrap();
    assert_eq!(ranges, &vec![(2, 2), (10, 10)]);
}

#[test]
fn diff_parser_unquotes_c_quoted_paths() {
    let diff = "\
--- \"a/src/caf\\303\\251.ts\"
+++ \"b/src/caf\\303\\251.ts\"
@@ -1,1 +1,1 @@
";
    let changed = parse_unified_diff(diff, "/repo");
    assert!(changed.contains_key("/repo/src/café.ts"));
    assert_eq!(changed.len(), 1);
}

#[test]
fn diff_parser_reads_every_escape() {
    let diff = "--- \"a/x\"\n+++ \"b/a\\tb\\\"c\\\\d\\001.ts\"\n@@ -1 +1 @@\n";
    let changed = parse_unified_diff(diff, "/repo");
    assert_eq!(changed.get("/repo/a\tb\"c\\d\u{1}.ts").unwrap(), &vec![(1, 1)]);
}

#[test]
fn diff_parser_drops_unreadable_paths() {
    // Not UTF-8, an unknown escape, and an unfinished one.
    for path in ["b/\\377.ts", "b/\\q.ts", "b/x\\"] {
        let diff = format!("--- a/x\n+++ \"{path}\"\n@@ -1 +1 @@\n");
        assert_eq!(parse_unified_diff(&diff, "/repo").len(), 0, "{path}");
    }
}

#[test]
fn diff_parser_handles_deleted_and_new_files() {
    let diff = "\
--- a/gone.ts
+++ /dev/null
@@ -1,3 +0,0 @@
--- /dev/null
+++ b/new.ts
@@ -0,0 +1,4 @@
";
    let changed = parse_unified_diff(diff, "/repo");
    assert_eq!(changed.len(), 1);
    assert_eq!(changed.get("/repo/new.ts").unwrap(), &vec![(1, 4)]);
}

#[test]
fn diff_parser_counts_deletions_as_one_line() {
    let diff = "--- a/a.ts\n+++ b/a.ts\n@@ -1,2 +0,0 @@\n@@ -9,2 +7,0 @@\n@@ -1 +4294967295,9 @@\n";
    let changed = parse_unified_diff(diff, "/repo");
    assert_eq!(
        changed.get("/repo/a.ts").unwrap(),
        &vec![(1, 1), (7, 7), (4294967295, 4294967295)]
    );
}

#[test]
fn diff_parser_skips_malformed_hunks() {
    let diff = "--- a/a.ts\n+++ b/a.ts\n@@ nothing @@\n@@ -1 +x @@\n@@ -1 +99999999999 @@\n@@ -1 +5 @@\n";
    let changed = parse_unified_diff(diff, "/repo");
    assert_eq!(changed.get("/repo/a.ts").unwrap(), &vec![(5, 5)]);
}

#[test]
fn git_output_is_read_below_the_top_level() {
    let diff = "--- a/a.ts\n+++ b/a.ts\n@@ -1 +3,2 @@\n";
    let changed = git_changed_lines(Ok("/work/tree\n".to_string()), Ok(diff.to_string())).unwrap();
    assert_eq!(changed.get("/work/tree/a.ts").unwrap(), &vec![(3, 4)]);
}

#[test]
fn git_errors_are_handed_on() {
    let error = |top: Result<&str, &str>, diff: Result<&str, &str>| -> String {
        let own = |r: Result<&str, &str>| r.map(str::to_string).map_err(str::to_string);
        match git_changed_lines(own(top), own(diff)) {
            Ok(_) => panic!("no error"),
            Err(e) => e,
        }
    };
    assert_eq!(error(Err("no repository"), Ok("")), "no repository");
    assert_eq!(error(Ok("/work\n"), Err("bad base")), "bad base");
    assert_eq!(error(Err("first"), Err("second")), "first");
}

#[test]
fn joined_diffs_add_up() {
    let d1 = "--- a/a.ts\n+++ b/a.ts\n@@ -1 +1,2 @@\n+x\n--- y\n";
    let d2 = "diff --git a/a.ts b/a.ts\n--- a/a.ts\n+++ b/a.ts\n@@ -9 +9 @@\n--- a/b.ts\n+++ b/b.ts\n@@ -3 +3 @@\n";
    let both = parse_unified_diff(&format!("{d1}{d2}"), "/r");
    assert_eq!(both.get("/r/a.ts").unwrap(), &vec![(1, 2), (9, 9)]);
    assert_eq!(both.get("/r/b.ts").unwrap(), &vec![(3, 3)]);
    assert_eq!(parse_unified_diff(d1, "/r").get("/r/a.ts").unwrap(), &vec![(1, 2)]);
    assert_eq!(parse_unified_diff(d2, "/r").get("/r/a.ts").unwrap(), &vec![(9, 9)]);
}

#[test]
fn a_diff_restricts_reports_to_changed_functions() {
    let files = vec![source(
        "a.ts",
        "function f(x: \"a\" | \"b\") {}\nfunction g(x: \"a\" | \"b\") {}\nf(\"a\");\ng(\"a\");\n",
    )];
    let opts = Options::default();
    let all = analyze(&files, &Vec::new(), &Vec::new(), &None, &opts);
    assert_eq!(all.findings.len(), 2);
    // Only the second function was touched; the calls still count.
    let diff = "--- a/a.ts\n+++ b/a.ts\n@@ -2 +2 @@\n";
    let changed = Some(parse_unified_diff(diff, "/repo"));
    let some = analyze(&files, &Vec::new(), &Vec::new(), &changed, &opts);
    assert_eq!(some.findings.len(), 1);
    assert_eq!(some.findings[0].function_name, "g");
    assert_eq!(some.findings[0].sites, vec!["a.ts:4"]);
    // The same findings otherwise, and the same counts.
    assert_eq!(some.findings[0].unused, all.findings[1].unused);
    assert_eq!(some.stats, all.stats);
    // A change elsewhere silences all.
    let diff = "--- a/b.ts\n+++ b/b.ts\n@@ -2 +2 @@\n";
    let changed = Some(parse_unified_diff(diff, "/repo"));
    let none = analyze(&files, &Vec::new(), &Vec::new(), &changed, &opts);
    assert!(none.findings.is_empty());
}

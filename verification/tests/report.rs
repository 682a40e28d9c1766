//! Counts, listings and warnings.

use type_narrower::extract::{extract_tree, parse_module};
use type_narrower::genproj::{generate, Rng};
use type_narrower::prepass::Place;
use type_narrower::probe::import_files;
use type_narrower::project::{file_set, SourceFile};
use type_narrower::report::{analyze_modules, Report};
use type_narrower::workspace::{build, SpecifierMap};
use type_narrower::{analyze, Options};

fn source(rel: &str, text: &str) -> SourceFile {
    SourceFile { path: format!("/p/{rel}"), rel: rel.to_string(), text: text.to_string() }
}

fn one(text: &str) -> Report {
    analyze(&vec![source("a.ts", text)], &Vec::new(), &Vec::new(), &None, &Options::default())
}

#[test]
fn every_function_has_one_category() {
    let r = one("\
function generic<T>(t: T) {}
function over(a: 1): void;
function over(a: 1 | 2) {}
function rest(...a: number[]) {}
function none() {}
function escaped(a: 1 | 2) {}
const e = escaped;
export function uncalled(a: 1 | 2) {}
function called(a: 1 | 2) {}
called(1); called(2);
");
    let st = r.stats;
    assert_eq!(st.files, 1);
    assert_eq!(st.decls, 7);
    assert_eq!(st.skipped_generic, 1);
    assert_eq!(st.skipped_overload, 1);
    assert_eq!(st.skipped_rest_param, 1);
    assert_eq!(st.skipped_no_params, 1);
    assert_eq!(st.escaped, 1);
    assert_eq!(st.uncalled, 1);
    assert_eq!(st.analyzed, 1);
    assert_eq!(
        st.decls,
        st.skipped_generic
            + st.skipped_overload
            + st.skipped_rest_param
            + st.skipped_no_params
            + st.escaped
            + st.uncalled
            + st.analyzed
    );
    assert!(r.findings.is_empty());
    assert_eq!(r.uncalled.len(), st.uncalled);
    assert_eq!(r.uncalled[0].function_name, "uncalled");
    assert_eq!(r.uncalled[0].file, "a.ts");
    assert_eq!(r.uncalled[0].line, 8);
    assert!(r.uncalled[0].exported);
}

#[test]
fn functions_of_one_name_are_overloads() {
    let r = one("function f(x: 1 | 2) {}\nfunction f(x: 3 | 4) {}\nf(1);\n");
    assert_eq!(r.stats.skipped_overload, 2);
    assert!(r.findings.is_empty());
}

#[test]
fn parse_errors_are_warned_about() {
    let r = one("function f(x: 1 | 2) {}\nf(1);\n");
    assert!(r.warnings.is_empty());
    let r = one("function f( {\n");
    assert_eq!(r.warnings.len(), 1);
    assert!(r.warnings[0].starts_with("a.ts: "), "{:?}", r.warnings);
    assert!(
        r.warnings[0].ends_with(
            " parse error(s); call sites may be missing and findings unreliable"
        ),
        "{:?}",
        r.warnings
    );
}

#[test]
fn type_syntax_depends_on_the_extension() {
    // A cast in angle brackets is TypeScript, and broken where elements are allowed.
    let text = "const x = <any>1;\n";
    let opts = Options::default();
    let ts = analyze(&vec![source("a.ts", text)], &Vec::new(), &Vec::new(), &None, &opts);
    assert!(ts.warnings.is_empty());
    let tsx = analyze(&vec![source("a.tsx", text)], &Vec::new(), &Vec::new(), &None, &opts);
    assert_eq!(tsx.warnings.len(), 1);
}

#[test]
fn deep_nesting_is_survived() {
    let mut text = String::from("function f(x: 1 | 2) {}\nf(1);\nconst d = ");
    for _ in 0..300 {
        text.push('[');
    }
    for _ in 0..300 {
        text.push(']');
    }
    text.push_str(";\n");
    let r = one(&text);
    assert!(r.warnings.is_empty());
    assert_eq!(r.findings.len(), 1);
}

#[test]
fn deep_types_and_long_chains_end() {
    let nested = format!(
        "function f(x: {}1 | 2{}, y: 1 | 2) {{}}\nf({}1{}, 1);\n",
        "{ a: ".repeat(300),
        " }".repeat(300),
        "{ a: ".repeat(300),
        " }".repeat(300)
    );
    let found: Vec<String> = one(&nested).findings.iter().map(|f| f.param.clone()).collect();
    assert_eq!(found, vec!["y"]);
    let mut chain = String::from("type T0 = 1 | 2;\n");
    for i in 1..300 {
        chain += &format!("type T{} = T{};\n", i, i - 1);
    }
    chain += "function f(x: T299, y: 1 | 2) {}\nf(1, 1);\nfunction g(z: T10) {}\ng(1);\n";
    let found: Vec<String> = one(&chain).findings.iter().map(|f| f.param.clone()).collect();
    assert_eq!(found, vec!["y", "z"]);
}

#[test]
fn steps_agree_with_the_whole() {
    // The way of a program that probes files itself: parse, ask which files
    // matter, extract with those that exist, then link.
    let files = vec![
        source("def.ts", "export function f(x: \"a\" | \"b\" | \"c\") {}\nf(\"a\");\n"),
        source("use.ts", "import { f } from \"./def\";\nf(\"b\");\n"),
    ];
    let map: SpecifierMap = build(&Vec::new());
    assert!(map.is_empty());
    let parsed = parse_module("/p/use.ts", &files[1].text);
    let asked = import_files(&parsed, "/p/use.ts", &map);
    assert!(asked.contains(&"/p/def.ts".to_string()), "{asked:?}");
    let mut modules = Vec::new();
    for file in &files {
        let parsed = parse_module(&file.path, &file.text);
        let here: Vec<String> = import_files(&parsed, &file.path, &map)
            .into_iter()
            .filter(|p| p == "/p/def.ts" || p == "/p/use.ts")
            .collect();
        let existing = file_set(&here);
        let place = Place { path: &file.path, specs: &map, existing: &existing };
        modules.push(extract_tree(&parsed, &file.rel, &file.text, &place));
    }
    let stepwise = analyze_modules(&modules, &None, &Options::default());
    let existing = vec!["/p/def.ts".to_string(), "/p/use.ts".to_string()];
    let whole = analyze(&files, &Vec::new(), &existing, &None, &Options::default());
    assert_eq!(format!("{:?}", stepwise.findings), format!("{:?}", whole.findings));
    assert_eq!(stepwise.stats, whole.stats);
    assert_eq!(whole.findings[0].unused, vec!["\"c\""]);
}

#[test]
fn random_numbers() {
    let mut rng = Rng(1);
    assert_eq!(rng.next(), 5180492295206395165);
    assert_eq!(rng.0, 33554433);
    assert_eq!(rng.next(), 12380297144915551517);
    for _ in 0..1000 {
        rng.next();
        assert_ne!(rng.0, 0);
    }
    let mut rng = Rng(43);
    assert_eq!([rng.below(5), rng.below(5), rng.below(5)], [0, 4, 4]);
}

fn generated_findings(files: usize, fns: usize, seed: u64) -> (usize, usize) {
    let g = generate(files, fns, seed);
    assert_eq!(g.files.len(), files);
    let sources: Vec<SourceFile> = g.files.iter().map(|f| source(&f.path, &f.text)).collect();
    let existing: Vec<String> = sources.iter().map(|s| s.path.clone()).collect();
    let r = analyze(&sources, &Vec::new(), &existing, &None, &Options::default());
    assert!(r.warnings.is_empty(), "{:?}", r.warnings);
    assert_eq!(r.stats.files, files);
    (r.findings.len(), g.expected_findings)
}

#[test]
fn generated_projects_have_the_expected_findings() {
    for (files, fns, seed) in [(0, 5, 1), (1, 0, 1), (6, 10, 42), (10, 20, 7), (3, 30, 123456789)] {
        let (found, expected) = generated_findings(files, fns, seed);
        assert_eq!(found, expected, "{files} {fns} {seed}");
        assert!(expected <= 3 * files * fns);
    }
    assert!(generate(6, 10, 42).expected_findings > 0);
}

#[test]
fn generated_texts_depend_on_the_seed_alone() {
    let a = generate(3, 5, 9);
    let b = generate(3, 5, 9);
    let c = generate(3, 5, 10);
    let texts = |g: &type_narrower::genproj::Generated| -> Vec<String> {
        g.files.iter().map(|f| f.text.clone()).collect()
    };
    assert_eq!(texts(&a), texts(&b));
    assert_ne!(texts(&a), texts(&c));
    assert_eq!(a.files[2].path, "src/file2.ts");
    assert!(a.files[0].text.starts_with("// generated file 0\nexport type U0 = \"v0_0\" | \"v0_1\""));
}

#[test]
fn the_lowest_bit_of_the_seed_does_not_matter() {
    let a = generate(4, 6, 42);
    let b = generate(4, 6, 43);
    assert_eq!(a.expected_findings, b.expected_findings);
    for (x, y) in a.files.iter().zip(b.files.iter()) {
        assert_eq!(x.path, y.path);
        assert_eq!(x.text, y.text);
    }
}

//! How names are followed from module to module.

use type_narrower::project::SourceFile;
use type_narrower::report::Report;
use type_narrower::workspace::ConfigFile;
use type_narrower::{analyze, Options};

fn project(files: &[(&str, &str)], configs: &[(&str, &str, &str)]) -> Report {
    let sources: Vec<SourceFile> = files
        .iter()
        .map(|(rel, text)| SourceFile {
            path: format!("/p/{rel}"),
            rel: rel.to_string(),
            text: text.to_string(),
        })
        .collect();
    let existing: Vec<String> = files.iter().map(|(rel, _)| format!("/p/{rel}")).collect();
    let configs: Vec<ConfigFile> = configs
        .iter()
        .map(|(dir, name, text)| ConfigFile {
            dir: dir.to_string(),
            name: name.to_string(),
            text: text.to_string(),
        })
        .collect();
    analyze(&sources, &configs, &existing, &None, &Options::default())
}

const DEF: &str = "export function f(x: \"a\" | \"b\" | \"c\") {}\nf(\"a\");\n";

/// The call of `f` in the user's text is attributed: only `"c"` stays unused.
fn attributed(def: &str, others: &[(&str, &str)], configs: &[(&str, &str, &str)]) {
    let mut files = vec![(def, DEF)];
    files.extend_from_slice(others);
    let r = project(&files, configs);
    let found: Vec<String> =
        r.findings.iter().map(|f| format!("{} {}", f.function_name, f.unused.join(","))).collect();
    assert_eq!(found, vec!["f \"c\""], "{others:?}");
    assert_eq!(r.findings[0].call_count, 2);
}

#[test]
fn relative_imports() {
    attributed("lib/a.ts", &[("b.ts", "import { f } from \"./lib/a\";\nf(\"b\");\n")], &[]);
    attributed("a.ts", &[("lib/b.ts", "import { f } from \"../a\";\nf(\"b\");\n")], &[]);
    attributed("a.ts", &[("b.ts", "import { f as g } from \"./a\";\ng(\"b\");\n")], &[]);
    attributed("lib/index.ts", &[("b.ts", "import { f } from \"./lib\";\nf(\"b\");\n")], &[]);
    attributed("a.tsx", &[("b.ts", "import { f } from \"./a\";\nf(\"b\");\n")], &[]);
}

#[test]
fn dotted_names() {
    attributed("a.util.ts", &[("b.ts", "import { f } from \"./a.util\";\nf(\"b\");\n")], &[]);
    attributed("a.ts", &[("b.ts", "import { f } from \"./a.ts\";\nf(\"b\");\n")], &[]);
}

#[test]
fn javascript_specifiers() {
    attributed("a.ts", &[("b.ts", "import { f } from \"./a.js\";\nf(\"b\");\n")], &[]);
    attributed("a.mts", &[("b.ts", "import { f } from \"./a.mjs\";\nf(\"b\");\n")], &[]);
    attributed("a.cts", &[("b.ts", "import { f } from \"./a.cjs\";\nf(\"b\");\n")], &[]);
    attributed("a.tsx", &[("b.ts", "import { f } from \"./a.jsx\";\nf(\"b\");\n")], &[]);
}

#[test]
fn namespace_imports() {
    attributed("a.ts", &[("b.ts", "import * as ns from \"./a\";\nns.f(\"b\");\n")], &[]);
}

#[test]
fn dynamic_imports() {
    attributed(
        "a.ts",
        &[("b.ts", "export async function g() {}\nconst m = await import(\"./a\");\nm.f(\"b\");\n")],
        &[],
    );
    attributed("a.ts", &[("b.ts", "const m = require(\"./a\");\nm.f(\"b\");\n")], &[]);
}

#[test]
fn default_imports() {
    let def = "export default function f(x: \"a\" | \"b\" | \"c\") {}\nf(\"a\");\n";
    let r = project(&[("a.ts", def), ("b.ts", "import g from \"./a\";\ng(\"b\");\n")], &[]);
    assert_eq!(r.findings.len(), 1);
    assert_eq!(r.findings[0].unused, vec!["\"c\""]);
    let def = "function f(x: \"a\" | \"b\" | \"c\") {}\nexport default f;\nf(\"a\");\n";
    let r = project(&[("a.ts", def), ("b.ts", "import g from \"./a\";\ng(\"b\");\n")], &[]);
    assert_eq!(r.findings.len(), 1);
    assert_eq!(r.findings[0].unused, vec!["\"c\""]);
}

#[test]
fn barrels() {
    let user = "import { f } from \"./barrel\";\nf(\"b\");\n";
    for barrel in [
        "export { f } from \"./a\";\n",
        "export * from \"./a\";\n",
        "export * from \"./nothing\";\nexport * from \"./a\";\n",
        "import { f } from \"./a\";\nexport { f };\n",
    ] {
        attributed("a.ts", &[("barrel.ts", barrel), ("c.ts", user)], &[]);
    }
    attributed(
        "a.ts",
        &[
            ("barrel.ts", "export { f as g } from \"./a\";\n"),
            ("c.ts", "import { g } from \"./barrel\";\ng(\"b\");\n"),
        ],
        &[],
    );
    attributed(
        "a.ts",
        &[
            ("mid.ts", "export * from \"./a\";\n"),
            ("barrel.ts", "export * from \"./mid\";\n"),
            ("c.ts", user),
        ],
        &[],
    );
}

#[test]
fn circular_barrels_end() {
    let r = project(
        &[
            ("a.ts", "export * from \"./b\";\n"),
            ("b.ts", "export * from \"./a\";\n"),
            ("c.ts", "import { f } from \"./a\";\nf(\"x\");\n"),
        ],
        &[],
    );
    assert!(r.findings.is_empty());
}

#[test]
fn renamed_exports() {
    let def = "function f(x: \"a\" | \"b\" | \"c\") {}\nexport { f as g };\nf(\"a\");\n";
    let r = project(&[("a.ts", def), ("b.ts", "import { g } from \"./a\";\ng(\"b\");\n")], &[]);
    assert_eq!(r.findings.len(), 1);
    assert_eq!(r.findings[0].unused, vec!["\"c\""]);
    assert_eq!(r.findings[0].call_count, 2);
}

#[test]
fn types_are_followed_across_modules() {
    let types = "export type Mode = \"a\" | \"b\";\nexport enum E { X, Y }\n";
    let user = "\
import { Mode, E } from \"./types\";
function f(m: Mode, e: E) {}
f(\"a\", E.X);
";
    let r = project(&[("types.ts", types), ("b.ts", user)], &[]);
    let found: Vec<String> = r.findings.iter().map(|f| f.unused.join(",")).collect();
    assert_eq!(found, vec!["E.Y", "\"b\""]);
}

#[test]
fn methods_of_imported_classes() {
    let def = "export class C { m(x: \"a\" | \"b\" | \"c\") {} }\nconst c = new C();\nc.m(\"a\");\n";
    let user = "import { C } from \"./a\";\nconst c = new C();\nc.m(\"b\");\n";
    let r = project(&[("a.ts", def), ("b.ts", user)], &[]);
    assert_eq!(r.findings.len(), 1);
    assert_eq!(r.findings[0].unused, vec!["\"c\""]);
    assert_eq!(r.findings[0].call_count, 2);
}

#[test]
fn paths_of_a_configuration() {
    let user = "import { f } from \"@lib/a\";\nf(\"b\");\n";
    attributed(
        "src/lib/a.ts",
        &[("src/b.ts", user)],
        &[(
            "/p",
            "tsconfig.json",
            "{ // where things are\n  \"compilerOptions\": { \"paths\": { \"@lib/*\": [\"./src/lib/*\"], }, },\n}\n",
        )],
    );
    attributed(
        "src/lib/a.ts",
        &[("src/b.ts", "import { f } from \"the-lib\";\nf(\"b\");\n")],
        &[("/p", "tsconfig.json", "{\"compilerOptions\":{\"paths\":{\"the-lib\":[\"src/lib/a\"]}}}")],
    );
}

#[test]
fn base_of_a_configuration() {
    attributed(
        "src/lib/a.ts",
        &[("src/b.ts", "import { f } from \"@/a\";\nf(\"b\");\n")],
        &[(
            "/p",
            "tsconfig.json",
            "{\"compilerOptions\":{\"baseUrl\":\"src\",\"paths\":{\"@/*\":[\"lib/*\"]}}}",
        )],
    );
}

#[test]
fn packages_of_a_workspace() {
    let package = ("/p/packages/core", "package.json", "{\"name\":\"@acme/core\"}");
    attributed(
        "packages/core/src/index.ts",
        &[("app/b.ts", "import { f } from \"@acme/core\";\nf(\"b\");\n")],
        &[package],
    );
    attributed(
        "packages/core/src/util.ts",
        &[("app/b.ts", "import { f } from \"@acme/core/src/util\";\nf(\"b\");\n")],
        &[package],
    );
}

#[test]
fn broken_configurations_are_ignored() {
    let r = project(
        &[("a.ts", DEF), ("b.ts", "import { f } from \"@lib/a\";\nf(\"b\");\n")],
        &[("/p", "tsconfig.json", "{ not json"), ("/p", "package.json", "[1, 2")],
    );
    // The import leads nowhere, so that `f` is silenced.
    assert!(r.findings.is_empty());
}

#[test]
fn unresolved_types_have_the_name_that_was_sought() {
    let r = project(
        &[
            ("a.ts", "export type U = 1;\n"),
            ("b.ts", "export { S as T } from \"./a\";\n"),
            (
                "c.ts",
                "import { T as L } from \"./b\";\n\
                 function f(x: { k: \"a\" | \"b\"; l?: L }) {}\nf({ k: \"a\" });\n\
                 function g(x: \"a\" | \"b\" | L) {}\ng(\"a\");\n",
            ),
        ],
        &[],
    );
    let found: Vec<String> =
        r.findings.iter().map(|f| format!("{}{} {}", f.function_name, f.path, f.declared)).collect();
    assert_eq!(found, vec!["f.k \"a\" | \"b\"", "g \"a\" | \"b\" | S"]);
}

#[test]
fn long_chains_are_followed() {
    let count = 150;
    let mut files = vec![("a.ts".to_string(), DEF.to_string())];
    files.push(("m0.ts".to_string(), "export { f as f0 } from \"./a\";\n".to_string()));
    for i in 1..count {
        let before = i - 1;
        files.push((
            format!("m{i}.ts"),
            format!("export {{ f{before} as f{i} }} from \"./m{before}\";\n"),
        ));
    }
    let last = count - 1;
    files.push((
        "z.ts".to_string(),
        format!("import {{ f{last} as g }} from \"./m{last}\";\ng(\"b\");\n"),
    ));
    let files: Vec<(&str, &str)> = files.iter().map(|(a, b)| (a.as_str(), b.as_str())).collect();
    let r = project(&files, &[]);
    assert_eq!(r.findings.len(), 1);
    assert_eq!(r.findings[0].function_name, "f");
    assert_eq!(r.findings[0].unused, vec!["\"c\""]);
    assert_eq!(r.findings[0].call_count, 2);
}

#[test]
fn circles_end() {
    let r = project(
        &[
            ("a.ts", DEF),
            ("b.ts", "export { h } from \"./c\";\nexport * from \"./c\";\n"),
            ("c.ts", "export { h } from \"./b\";\nexport * from \"./b\";\n"),
            ("d.ts", "import { h } from \"./b\";\nh(\"b\");\n"),
        ],
        &[],
    );
    assert_eq!(r.findings.len(), 1);
    assert_eq!(r.findings[0].unused, vec!["\"b\"", "\"c\""]);
}

#[test]
fn recursive_types_have_the_name_of_their_declaration() {
    let r = project(
        &[
            (
                "a.ts",
                "import { N as M } from \"./b\";\n\
                 export type T = \"a\" | \"b\" | { n: M };\n\
                 function f(x: T) {}\nf(\"a\");\n",
            ),
            ("b.ts", "import { T as L } from \"./a\";\nexport type N = { l: L };\n"),
        ],
        &[],
    );
    assert_eq!(r.findings.len(), 1);
    assert_eq!(r.findings[0].declared, "\"a\" | \"b\" | { n: { l: T; }; }");
    assert_eq!(r.findings[0].unused, vec!["\"b\"", "{ n: { l: T; }; }"]);
}

#[test]
fn names_being_expanded_are_opaque() {
    let r = project(
        &[
            (
                "a.ts",
                "import { k as n } from \"./b\";\nexport type m = n;\n\
                 function f(x: 1 | 2 | n) {}\nf(1);\n\
                 function g(x: 1 | 2 | m) {}\ng(1);\n",
            ),
            (
                "b.ts",
                "import { m as y } from \"./a\";\nexport type k = { next: y | null };\n",
            ),
        ],
        &[],
    );
    let found: Vec<String> =
        r.findings.iter().map(|f| format!("{} {}", f.function_name, f.declared)).collect();
    assert_eq!(
        found,
        vec!["f 1 | 2 | { next: n | null; }", "g 1 | 2 | { next: m | null; }"]
    );
}

#[test]
fn imports_that_name_each_other_are_opaque() {
    let r = project(
        &[
            ("a.ts", "import { y as x } from \"./b\";\nfunction f(p: 1 | 2 | x) {}\nf(1);\n"),
            ("b.ts", "import { x as y } from \"./a\";\nfunction g(p: 1 | 2 | y) {}\ng(1);\n"),
        ],
        &[],
    );
    let found: Vec<String> =
        r.findings.iter().map(|f| format!("{} {}", f.function_name, f.declared)).collect();
    assert_eq!(found, vec!["f 1 | 2 | x", "g 1 | 2 | y"]);
}

#[test]
fn types_behind_star_exports_resolve() {
    let r = project(
        &[
            ("a.ts", "export type T = 1 | 2 | { t: T };\n"),
            ("b.ts", "export * from \"./none\";\nexport * from \"./a\";\n"),
            (
                "c.ts",
                "import { T as L } from \"./b\";\nfunction f(x: L) {}\nf(1);\n",
            ),
        ],
        &[],
    );
    assert_eq!(r.findings.len(), 1);
    assert_eq!(r.findings[0].declared, "1 | 2 | { t: T; }");
}

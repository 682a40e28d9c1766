//! What is never reported.

use type_narrower::project::SourceFile;
use type_narrower::report::Report;
use type_narrower::{analyze, Options};

fn project(files: &[(&str, &str)]) -> Report {
    let sources: Vec<SourceFile> = files
        .iter()
        .map(|(rel, text)| SourceFile {
            path: format!("/p/{rel}"),
            rel: rel.to_string(),
            text: text.to_string(),
        })
        .collect();
    let existing: Vec<String> = files.iter().map(|(rel, _)| format!("/p/{rel}")).collect();
    analyze(&sources, &Vec::new(), &existing, &None, &Options::default())
}

fn silent(text: &str) {
    let r = project(&[("a.tsx", text)]);
    assert!(r.warnings.is_empty(), "{:?}", r.warnings);
    let found: Vec<String> =
        r.findings.iter().map(|f| format!("{}{} {:?}", f.function_name, f.path, f.unused)).collect();
    assert!(found.is_empty(), "{found:?}\n{text}");
}

fn silent_files(files: &[(&str, &str)]) {
    let r = project(files);
    let found: Vec<String> =
        r.findings.iter().map(|f| format!("{}{} {:?}", f.function_name, f.path, f.unused)).collect();
    assert!(found.is_empty(), "{found:?}");
}

/// The same function is reported where nothing silences it.
#[test]
fn the_plain_call_is_reported() {
    let r = project(&[("a.tsx", "function f(x: \"a\" | \"b\") {}\nf(\"a\");\n")]);
    assert_eq!(r.findings.len(), 1);
    assert_eq!(r.findings[0].unused, vec!["\"b\""]);
}

#[test]
fn generic_functions() {
    silent("function f<T>(x: \"a\" | \"b\", t: T) {}\nf(\"a\", 1);\n");
}

#[test]
fn overloaded_functions() {
    silent("function f(x: \"a\"): void;\nfunction f(x: \"b\"): void;\nfunction f(x: \"a\" | \"b\") {}\nf(\"a\");\n");
    silent("export function f(x: \"a\"): void;\nexport function f(x: \"a\" | \"b\") {}\nf(\"a\");\n");
    silent("class C { m(x: \"a\"): void; m(x: \"a\" | \"b\") {} }\nconst c = new C();\nc.m(\"a\");\n");
}

#[test]
fn rest_parameters() {
    silent("function f(x: \"a\" | \"b\", ...rest: number[]) {}\nf(\"a\");\n");
}

#[test]
fn functions_without_calls() {
    silent("function f(x: \"a\" | \"b\") {}\n");
}

#[test]
fn functions_used_as_values() {
    silent("function f(x: \"a\" | \"b\") {}\nf(\"a\");\nconst g = f;\n");
    silent("function f(x: \"a\" | \"b\") {}\nf(\"a\");\nconst o = { f };\n");
    silent("function f(x: \"a\" | \"b\") {}\nf(\"a\");\nconst o = [f];\n");
    silent("function f(x: \"a\" | \"b\") {}\nf(\"a\");\nsetTimeout(f, 1);\n");
    silent("function f(x: \"a\" | \"b\") {}\nf(\"a\");\nexport default { f };\n");
    silent("function f(x: \"a\" | \"b\") {}\nf(\"a\");\nfunction g(h = f) {}\n");
    silent("function f(x: \"a\" | \"b\") {}\nf(\"a\");\nconst { h = f } = {} as any;\n");
    silent("function f(x: \"a\" | \"b\") {}\nf(\"a\");\nf.call(null, \"b\");\n");
    silent("function f(x: \"a\" | \"b\") {}\nf(\"a\");\nf.bind(null);\n");
    silent("function f(x: \"a\" | \"b\") {}\nf(\"a\");\nenum E { A = g(f) }\nfunction g(x: any) { return 1; }\n");
}

#[test]
fn callbacks_of_unknown_receivers() {
    silent("function f(x: \"a\" | \"b\") {}\nf(\"a\");\ndeclare const list: any;\nlist.map(f);\n");
    silent("function f(x: \"a\" | \"b\") {}\nf(\"a\");\nnew Promise(f);\n");
    // A component may call its handler with anything.
    silent("function f(x: \"a\" | \"b\") {}\nf(\"a\");\nfunction C(p: any) { return null; }\nexport const c = <C onClick={f} />;\n");
}

#[test]
fn callbacks_get_unknown_elements() {
    silent("function f(x: \"a\" | \"b\") {}\nf(\"a\");\n[\"b\"].forEach(f);\n");
}

#[test]
fn shadowed_names() {
    // The call inside `g` means the parameter: it might be `f` again.
    silent("function f(x: \"a\" | \"b\") {}\nf(\"a\");\nfunction g(f: any) { f(\"b\"); }\n");
    silent("function f(x: \"a\" | \"b\") {}\nf(\"a\");\nfunction g() { f(\"b\"); { const f = (x: any) => x; } }\n");
    silent("function f(x: \"a\" | \"b\") {}\nf(\"a\");\nfunction g() { try {} catch (f) { f(\"b\"); } }\n");
    silent("function f(x: \"a\" | \"b\") {}\nf(\"a\");\nfunction g(...f: any[]) { f(\"b\"); }\n");
    silent("function f(x: \"a\" | \"b\") {}\nf(\"a\");\n{ const f: any = 1; f(\"b\"); }\n");
}

#[test]
fn unbound_names() {
    silent_files(&[
        ("a.ts", "export function f(x: \"a\" | \"b\") {}\nf(\"a\");\n"),
        ("b.ts", "f(\"b\");\n"),
    ]);
}

#[test]
fn unresolved_imports() {
    silent_files(&[
        ("a.ts", "export function f(x: \"a\" | \"b\") {}\nf(\"a\");\n"),
        ("b.ts", "import { f } from \"somewhere\";\nf(\"b\");\n"),
    ]);
    silent_files(&[
        ("a.ts", "export function f(x: \"a\" | \"b\") {}\nf(\"a\");\n"),
        ("b.ts", "import { f as g } from \"somewhere\";\ng(\"b\");\n"),
    ]);
    silent_files(&[
        ("a.ts", "export function f(x: \"a\" | \"b\") {}\nf(\"a\");\n"),
        ("b.ts", "export * as ns from \"./a\";\n"),
        ("c.ts", "import { ns } from \"./b\";\nns.f(\"b\");\n"),
    ]);
}

#[test]
fn methods_of_unknown_receivers() {
    let class = "class C { m(x: \"a\" | \"b\") {} }\nconst c = new C();\nc.m(\"a\");\n";
    assert_eq!(project(&[("a.tsx", class)]).findings.len(), 1);
    silent(&format!("{class}declare const other: any;\nother.m(\"b\");\n"));
    silent(&format!("{class}declare const other: any;\nother.x.m(\"b\");\n"));
    silent(&format!("{class}declare const other: any;\nconst g = other.m;\n"));
    silent(&format!("{class}declare const other: any;\nother[\"m\"](\"b\");\n"));
    silent(&format!("{class}function g(o: C) {{ o.m(\"b\"); }}\n"));
    silent(&format!("{class}declare const other: any;\nother?.m(\"b\");\n"));
}

#[test]
fn methods_reached_through_this() {
    silent("class C { m(x: \"a\" | \"b\") {} go() { this.m(\"b\"); } }\nconst c = new C();\nc.m(\"a\");\n");
}

#[test]
fn classes_used_as_values() {
    let class = "class C { m(x: \"a\" | \"b\") {} }\nconst c = new C();\nc.m(\"a\");\n";
    silent(&format!("{class}const k = C;\n"));
    silent(&format!("{class}class D extends C {{}}\n"));
    silent(&format!("{class}const d = c;\n"));
    silent(&format!("{class}const g = c.m;\n"));
    silent(&format!("{class}export const e = <C />;\n"));
}

#[test]
fn methods_that_a_class_does_not_have() {
    // `n.m` is inherited from a base that is not followed.
    silent("class C { m(x: \"a\" | \"b\") {} }\nconst c = new C();\nc.m(\"a\");\nclass N extends (Object as any) {}\nconst n = new N();\nn.m(\"b\");\n");
}

#[test]
fn objects_used_as_values() {
    silent("const o = { m(x: \"a\" | \"b\") {} };\no.m(\"a\");\nconst p = o;\n");
    silent("const o = { m(x: \"a\" | \"b\") {} };\no.m(\"a\");\nconst p = o.m;\n");
    silent("const o = { m(x: \"a\" | \"b\") {} };\no.m(\"a\");\no[\"m\"](\"b\");\n");
}

#[test]
fn namespaces_used_as_values() {
    let a = "export function f(x: \"a\" | \"b\") {}\nf(\"a\");\n";
    silent_files(&[("a.ts", a), ("b.ts", "import * as ns from \"./a\";\nconst o = ns;\n")]);
    silent_files(&[("a.ts", a), ("b.ts", "import * as ns from \"./a\";\nconst g = ns.f;\n")]);
    silent_files(&[("a.ts", a), ("b.ts", "import * as ns from \"./a\";\nns[\"f\"](\"b\");\n")]);
    // Through a barrel as well.
    silent_files(&[
        ("a.ts", a),
        ("b.ts", "export * from \"./a\";\n"),
        ("c.ts", "import * as ns from \"./b\";\nconst o = ns;\n"),
    ]);
    silent_files(&[
        ("a.ts", a),
        ("b.ts", "export { f as g } from \"./a\";\n"),
        ("c.ts", "import * as ns from \"./b\";\nconst o = ns;\n"),
    ]);
}

#[test]
fn unprovable_arguments() {
    let f = "function f(x: \"a\" | \"b\") {}\nf(\"a\");\n";
    silent(&format!("{f}declare const v: any;\nf(v);\n"));
    silent(&format!("{f}f(\"a\" as any);\n"));
    silent(&format!("{f}declare const args: any;\nf(...args);\n"));
    silent(&format!("{f}declare function g(): any;\nf(g());\n"));
    silent(&format!("{f}export function h(v: unknown) {{ f(v as any); }}\n"));
    silent(&format!("{f}declare let v: \"a\";\nf(v);\n"));
}

#[test]
fn wide_arguments_use_everything() {
    silent("function f(x: \"a\" | \"b\") {}\nexport function g(s: string) { f(s as any); }\ng(\"x\");\n");
    silent("function f(x: boolean) {}\nexport function g(b: boolean) { f(b); }\ng(true); g(false);\n");
}

#[test]
fn types_that_are_not_followed() {
    silent("function f(x: [\"a\" | \"b\"]) {}\nf([\"a\"]);\n");
    silent("function f(x: { k: \"a\" | \"b\" } & { j: 1 }) {}\nf({ k: \"a\", j: 1 });\n");
    silent("function f(x: Partial<{ k: \"a\" | \"b\" }>) {}\nf({ k: \"a\" });\n");
    silent("function f([x]: [\"a\" | \"b\"]) {}\nf([\"a\"]);\n");
    silent("function f(x: string) {}\nf(\"a\");\n");
}

#[test]
fn variants_of_unions_are_not_walked() {
    silent("function f(x: { k: \"a\" | \"b\" } | { j: 1 }) {}\nf({ k: \"a\" });\nf({ j: 1 });\n");
}

#[test]
fn local_types_are_not_taken_for_module_types() {
    silent("type T = \"a\";\nfunction f(x: \"a\" | \"b\") {}\nexport function g() { type T = \"b\"; function h(t: T) { f(t); } h(\"b\" as any); }\n");
}

#[test]
fn merged_and_generic_types_are_not_followed() {
    silent("interface I { k: \"a\" | \"b\" }\ninterface I { j: number }\nfunction f(x: I) {}\nf({ k: \"a\", j: 1 });\n");
    silent("type G<T> = { k: \"a\" | \"b\"; t: T };\nfunction f(x: G<number>) {}\nf({ k: \"a\", t: 1 });\n");
}

#[test]
fn dotted_tags() {
    let a = "export function Badge(p: { tone: \"a\" | \"b\" }) { return null; }\nexport const x = <Badge tone=\"a\" />;\n";
    silent_files(&[("a.tsx", a), ("b.tsx", "import * as UI from \"./a\";\nexport const y = <UI.Badge tone=\"b\" />;\n")]);
    silent_files(&[("a.tsx", a), ("b.tsx", "declare const UI: any;\nexport const y = <UI.Badge tone=\"b\" />;\n")]);
}

#[test]
fn elements_inside_attributes_are_seen() {
    silent("function A(p: { k: \"a\" | \"b\" }) { return null; }\nfunction B(p: any) { return null; }\nexport const x = <A k=\"a\" />;\nexport const y = <B icon={<A k=\"b\" />} />;\n");
    silent("function A(p: { k: \"a\" | \"b\" }) { return null; }\nfunction B(p: any) { return null; }\nexport const x = <A k=\"a\" />;\nexport const y = <B icon=<A k=\"b\" /> />;\n");
    silent("function A(p: { k: \"a\" | \"b\" }) { return null; }\nfunction B(p: any) { return null; }\nexport const x = <A k=\"a\" />;\nexport const y = <B><A k=\"b\" /></B>;\n");
}

#[test]
fn children_are_a_property() {
    silent("function A(p: { children?: \"a\" | \"b\" }) { return null; }\nexport const x = <A>text</A>;\n");
}

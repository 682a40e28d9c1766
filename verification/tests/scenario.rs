//! What is found, in whole projects through the real parser.

use type_narrower::project::SourceFile;
use type_narrower::report::Report;
use type_narrower::{analyze, Options};

fn project(files: &[(&str, &str)], opts: &Options) -> Report {
    let sources: Vec<SourceFile> = files
        .iter()
        .map(|(rel, text)| SourceFile {
            path: format!("/p/{rel}"),
            rel: rel.to_string(),
            text: text.to_string(),
        })
        .collect();
    let existing: Vec<String> = files.iter().map(|(rel, _)| format!("/p/{rel}")).collect();
    analyze(&sources, &Vec::new(), &existing, &None, opts)
}

fn lines(r: &Report) -> Vec<String> {
    r.findings
        .iter()
        .map(|f| {
            format!(
                "{}:{} {}({}){} | {} | {} | {} {}",
                f.file,
                f.line,
                f.function_name,
                f.param,
                f.path,
                f.declared,
                f.unused.join(","),
                f.call_count,
                f.sites.join(",")
            )
        })
        .collect()
}

fn run(files: &[(&str, &str)]) -> Vec<String> {
    lines(&project(files, &Options::default()))
}

/// The findings for one file, as function, path and unused constituents.
fn short(name: &str, text: &str) -> Vec<String> {
    project(&[(name, text)], &Options::default())
        .findings
        .iter()
        .map(|f| format!("{}{}: {}", f.function_name, f.path, f.unused.join(", ")))
        .collect()
}

#[test]
fn literal_union() {
    let src = "type Channel = \"email\" | \"sms\" | \"push\" | \"fax\";\n\
               function send(channel: Channel) {}\n\
               send(\"email\"); send(\"sms\"); send(\"push\");\n";
    assert_eq!(
        run(&[("a.ts", src)]),
        vec!["a.ts:2 send(channel) | \"email\" | \"sms\" | \"push\" | \"fax\" | \"fax\" | 3 a.ts:3,a.ts:3,a.ts:3"]
    );
}

#[test]
fn nested_objects_are_reported_per_path() {
    let src = "\
type Config = {
  mode: \"dev\" | \"prod\" | \"test\";
  opts: { level: 1 | 2 | 3; log: { format: \"json\" | \"pretty\" | \"syslog\"; color: boolean } };
};
function configure(config: Config) {}

configure({ mode: \"dev\",  opts: { level: 1, log: { format: \"json\",   color: true } } });
configure({ mode: \"prod\", opts: { level: 2, log: { format: \"pretty\", color: true } } });
";
    assert_eq!(
        run(&[("05-nested.ts", src)]),
        vec![
            "05-nested.ts:5 configure(config).mode | \"dev\" | \"prod\" | \"test\" | \"test\" | 2 05-nested.ts:7,05-nested.ts:8",
            "05-nested.ts:5 configure(config).opts.level | 1 | 2 | 3 | 3 | 2 05-nested.ts:7,05-nested.ts:8",
            "05-nested.ts:5 configure(config).opts.log.color | boolean | false | 2 05-nested.ts:7,05-nested.ts:8",
            "05-nested.ts:5 configure(config).opts.log.format | \"json\" | \"pretty\" | \"syslog\" | \"syslog\" | 2 05-nested.ts:7,05-nested.ts:8",
        ]
    );
}

#[test]
fn discriminated_unions_are_reported_whole() {
    let src = "\
type Request =
  | { type: \"user\"; id: number }
  | { type: \"post\"; slug: string }
  | { type: \"comment\"; postId: number; index: number }
  | { type: \"admin\"; token: string };
function process(request: Request) {}

process({ type: \"user\", id: 1 });
process({ type: \"post\", slug: \"hello\" });
process({ type: \"comment\", postId: 1, index: 0 });
";
    let r = project(&[("04.ts", src)], &Options::default());
    assert_eq!(r.findings.len(), 1);
    assert_eq!(r.findings[0].path, "");
    assert_eq!(
        r.findings[0].declared,
        "{ type: \"user\"; id: number; } | { type: \"post\"; slug: string; } | \
         { type: \"comment\"; postId: number; index: number; } | { type: \"admin\"; token: string; }"
    );
    assert_eq!(r.findings[0].unused, vec!["{ type: \"admin\"; token: string; }"]);
    assert_eq!(r.findings[0].call_count, 3);
}

#[test]
fn enums_are_reported_by_member() {
    let src = "\
enum Priority { Low, Medium, High, Critical }
function schedule(priority: Priority) {}
schedule(Priority.Low);
schedule(Priority.Medium);
";
    assert_eq!(
        run(&[("13-enums.ts", src)]),
        vec!["13-enums.ts:2 schedule(priority) | Priority.Low | Priority.Medium | Priority.High | Priority.Critical | Priority.High,Priority.Critical | 2 13-enums.ts:3,13-enums.ts:4"]
    );
}

#[test]
fn component_properties_are_arguments() {
    let src = "\
type ChipProps = { tone: \"t1\" | \"t2\" | \"t3\"; size: \"s\" | \"m\" | \"l\" };
function Chip({ tone, size }: ChipProps) { return null; }

export const c1 = <Chip tone=\"t1\" size=\"s\" />;
export const c2 = <Chip tone=\"t2\" size=\"s\" />;
";
    assert_eq!(
        run(&[("26.tsx", src)]),
        vec![
            "26.tsx:2 Chip({tone, size}).size | \"s\" | \"m\" | \"l\" | \"m\",\"l\" | 2 26.tsx:4,26.tsx:5",
            "26.tsx:2 Chip({tone, size}).tone | \"t1\" | \"t2\" | \"t3\" | \"t3\" | 2 26.tsx:4,26.tsx:5",
        ]
    );
}

#[test]
fn attributes_without_a_value_pass_true() {
    let src = "\
function Box(props: { wide: boolean; mode: \"a\" | \"b\" }) { return null; }
export const c = <Box wide mode={\"a\"} />;
";
    assert_eq!(
        short("a.tsx", src),
        vec!["Box.mode: \"b\"", "Box.wide: false"]
    );
}

#[test]
fn spread_attributes_silence() {
    let src = "\
function Box(props: { mode: \"a\" | \"b\" }) { return null; }
declare const rest: any;
export const c = <Box mode=\"a\" {...rest} />;
";
    assert!(short("a.tsx", src).is_empty());
}

#[test]
fn forwarded_values_narrow_transitively() {
    let src = "\
function pinner(t: \"p1\" | \"p2\" | \"p3\") {}
function pouter({ tone }: { tone: \"p1\" | \"p2\" }) { pinner(tone); }
pouter({ tone: \"p1\" });
pouter({ tone: \"p2\" });
";
    assert_eq!(
        run(&[("26.tsx", src)]),
        vec!["26.tsx:1 pinner(t) | \"p1\" | \"p2\" | \"p3\" | \"p3\" | 1 26.tsx:2"]
    );
}

#[test]
fn annotated_parameters_are_forwarded() {
    let src = "\
type Mode = \"a\" | \"b\";
function inner(m: Mode | \"c\") {}
export function outer(m: Mode) { inner(m); }
outer(\"a\"); outer(\"b\");
";
    assert_eq!(short("a.ts", src), vec!["inner: \"c\""]);
}

#[test]
fn constants_carry_their_literal() {
    let src = "\
const MODE = \"a\";
const n = 7;
function f(m: \"a\" | \"b\", k: 7 | 8) {}
f(MODE, n);
";
    assert_eq!(short("a.ts", src), vec!["f: 8", "f: \"b\""]);
}

#[test]
fn calls_in_other_files_count() {
    let def = "export function f(x: \"a\" | \"b\" | \"c\") {}\nf(\"a\");\n";
    let use_ = "import { f } from \"./def\";\nf(\"b\");\n";
    assert_eq!(
        run(&[("def.ts", def), ("use.ts", use_)]),
        vec!["def.ts:1 f(x) | \"a\" | \"b\" | \"c\" | \"c\" | 2 def.ts:2,use.ts:2"]
    );
}

#[test]
fn at_most_three_sites_are_shown() {
    let src = "function f(x: 1 | 2) {}\nf(1);\nf(1);\nf(1);\nf(1);\n";
    assert_eq!(
        run(&[("a.ts", src)]),
        vec!["a.ts:1 f(x) | 1 | 2 | 2 | 4 a.ts:2,a.ts:3,a.ts:4"]
    );
}

#[test]
fn optional_parameters_do_not_report_undefined() {
    let src = "function f(x?: \"a\" | \"b\") {}\nf(\"a\");\n";
    assert_eq!(short("a.ts", src), vec!["f: \"b\""]);
}

#[test]
fn a_missing_argument_is_undefined() {
    let src = "function f(x?: \"a\" | undefined) {}\nf();\n";
    assert_eq!(short("a.ts", src), vec!["f: \"a\""]);
}

#[test]
fn an_explicit_undefined_is_reported() {
    let src = "function f(x: \"a\" | undefined) {}\nf(\"a\");\n";
    assert_eq!(short("a.ts", src), vec!["f: undefined"]);
}

#[test]
fn defaults_stand_for_missing_arguments() {
    let src = "function f(x: \"a\" | \"b\" | \"c\" = \"b\") {}\nf();\nf(\"a\");\n";
    assert_eq!(short("a.ts", src), vec!["f: \"c\""]);
}

#[test]
fn a_missing_optional_property_proves_nothing() {
    let src = "\
function f(o: { m?: \"a\" | \"b\"; k: 1 | 2 }) {}
f({ k: 1 });
f({ m: \"a\", k: 1 });
";
    assert_eq!(short("a.ts", src), vec!["f.k: 2"]);
    // Where `undefined` is written out, leaving the property away passes it.
    let src = "function f(o: { m?: \"a\" | undefined }) {}\nf({});\n";
    assert_eq!(short("a.ts", src), vec!["f.m: \"a\""]);
}

#[test]
fn subsumed_constituents_are_used() {
    let src = "function f(x: string | \"a\" | 1) {}\ndeclare const s: string;\nf(s as string);\nf(\"b\");\n";
    // Whatever `f(s as string)` is known as, nothing is claimed about strings.
    for line in short("a.ts", src) {
        assert!(!line.contains("string"), "{line}");
    }
}

#[test]
fn numbers_and_null() {
    let src = "function f(x: 1 | -1 | null) {}\nf(1);\n";
    assert_eq!(short("a.ts", src), vec!["f: -1, null"]);
    let src = "function f(x: 1 | 2.5 | null) {}\nf(2.50);\nf(null);\n";
    assert_eq!(short("a.ts", src), vec!["f: 1"]);
}

#[test]
fn numbers_of_any_size() {
    let src = "function f(x: 1e3 | 1e21 | 1e999 | 0x10) {}\nf(1000);\nf(0b10000);\n";
    assert_eq!(short("a.ts", src), vec!["f: 1000000000000000000000, inf"]);
}

#[test]
fn methods_of_classes_and_objects() {
    let src = "\
class Api { call(verb: \"get\" | \"put\") {} }
const api = new Api();
api.call(\"get\");
const tool = { run(mode: \"x\" | \"y\") {}, stop: (why: 1 | 2) => {} };
tool.run(\"x\");
tool.stop(2);
";
    assert_eq!(
        short("a.ts", src),
        vec!["call: \"put\"", "run: \"y\"", "stop: 1"]
    );
}

#[test]
fn arrow_and_function_constants() {
    let src = "\
const f = (x: 1 | 2) => x;
export const g = function (x: 3 | 4) { return x; };
f(1); g(4);
";
    assert_eq!(short("a.ts", src), vec!["f: 2", "g: 3"]);
}

#[test]
fn array_callbacks_are_called_with_positions() {
    // The position is a number: neither literal is excluded, the string is.
    let src = "\
function pick(value: \"a\" | \"b\", index: number | \"none\") { return value; }
[\"a\", \"b\"].map(pick);
";
    assert_eq!(short("a.ts", src), vec!["pick: \"none\""]);
}

#[test]
fn event_handlers_are_called() {
    let src = "\
function onPress(event: \"x\" | \"y\", extra?: \"p\" | \"q\") {}
export const b = <button onClick={onPress} />;
";
    // The event is unknown; nothing else is passed.
    assert_eq!(short("a.tsx", src), vec!["onPress: \"p\", \"q\""]);
}

#[test]
fn more_calls_report_less() {
    let base = "function f(x: 1 | 2 | 3) {}\nf(1);\n";
    assert_eq!(short("a.ts", base), vec!["f: 2, 3"]);
    let more = format!("{base}f(2);\nf(1);\n");
    assert_eq!(short("a.ts", &more), vec!["f: 3"]);
    let all = format!("{more}f(3);\n");
    assert!(short("a.ts", &all).is_empty());
}

#[test]
fn calls_count_wherever_they_stand() {
    let places = [
        "function g(x = f(\"b\")) {}",
        "const { y = f(\"b\") } = {} as any;",
        "const { [f(\"b\") as any]: z } = {} as any;",
        "function g([x = f(\"b\")]: any) {}",
        "class C { p = f(\"b\"); }",
        "class C { static { f(\"b\"); } }",
        "class C { [f(\"b\") as any]() {} }",
        "class C { constructor(private q = f(\"b\")) {} }",
        "class C { @(f(\"b\") as any) m() {} }",
        "class C extends (f(\"b\") as any) {}",
        "const t = `${f(\"b\")}`;",
        "const o = { [f(\"b\") as any]: 1, k: f(\"b\") };",
        "const a = [1, ...(f(\"b\") as any)];",
        "const n = new (class { x = f(\"b\") })();",
        "const n = new Map(f(\"b\") as any);",
        "if (f(\"b\") as any) {} else {}",
        "for (const i of f(\"b\") as any) {}",
        "for (let i = f(\"b\"); ; ) { break; }",
        "switch (1 as any) { case f(\"b\"): break; }",
        "try { throw f(\"b\"); } catch {}",
        "label: while (true) { f(\"b\"); break label; }",
        "const g = () => f(\"b\");",
        "const g = async () => { await f(\"b\"); };",
        "function* g() { yield f(\"b\"); }",
        "export default f(\"b\");",
        "export const g = (1 as any)?.[f(\"b\") as any];",
        "enum E { A = f(\"b\") as any }",
        "const h = typeof f(\"b\") === \"x\" ? 1 : 2;",
        "(f(\"b\") as any).deep.call();",
        "(f(\"b\") as any)[\"key\"]();",
        "const e = <div title={f(\"b\") as any} />;",
        "const e = <div {...(f(\"b\") as any)} />;",
        "const e = <div>{f(\"b\") as any}</div>;",
        "const e = <>{f(\"b\") as any}</>;",
        "const e = <div><p>{f(\"b\") as any}</p></div>;",
        "namespace N { f(\"b\"); }",
        "const s = f(\"b\") satisfies any;",
        "const s = f(\"b\")!;",
        "let v; v = f(\"b\");",
        "void f(\"b\"), 1;",
        "[1].map(() => f(\"b\"));",
        "import.meta; (import(\"x\") as any).then(f(\"b\"));",
    ];
    for place in places {
        let text = format!("function f(x: \"a\" | \"b\" | \"c\"): any {{}}\nf(\"a\");\n{place}\n");
        let r = project(&[("a.tsx", &text)], &Options::default());
        assert!(r.warnings.is_empty(), "{place}: {:?}", r.warnings);
        assert_eq!(r.findings.len(), 1, "{place}");
        assert_eq!(r.findings[0].unused, vec!["\"c\""], "{place}");
    }
}

#[test]
fn depth_limits_the_properties() {
    let src = "\
function f(o: { a: 1 | 2; b: { c: 1 | 2; d: { e: 1 | 2 } } }) {}
f({ a: 1, b: { c: 1, d: { e: 1 } } });
";
    let paths = |max_depth: usize| -> Vec<String> {
        let opts = Options { max_depth, ..Default::default() };
        project(&[("a.ts", src)], &opts).findings.iter().map(|f| f.path.clone()).collect()
    };
    assert_eq!(paths(0), Vec::<String>::new());
    assert_eq!(paths(1), vec![".a"]);
    assert_eq!(paths(2), vec![".a", ".b.c"]);
    assert_eq!(paths(8), vec![".a", ".b.c", ".b.d.e"]);
}

#[test]
fn findings_are_in_order() {
    let b = "export function z(y: 1 | 2, x: 1 | 2) {}\nz(1, 1);\nexport function a(x: 1 | 2) {}\na(1);\n";
    let a = "export function q(x: 1 | 2) {}\nq(1);\n";
    let got: Vec<String> = project(&[("b.ts", b), ("a.ts", a)], &Options::default())
        .findings
        .iter()
        .map(|f| format!("{}:{}:{}", f.file, f.line, f.param))
        .collect();
    assert_eq!(got, vec!["a.ts:1:x", "b.ts:1:x", "b.ts:1:y", "b.ts:3:x"]);
}

#[test]
fn interfaces_and_aliases_resolve() {
    let src = "\
interface Opts { mode: Mode }
type Mode = Base | \"c\";
type Base = \"a\" | \"b\";
function f(o: Opts) {}
f({ mode: \"b\" });
";
    assert_eq!(short("a.ts", src), vec!["f.mode: \"a\", \"c\""]);
}

#[test]
fn unions_are_flat_and_without_repetitions() {
    let src = "\
type A = \"a\" | \"b\";
type B = A | (\"b\" | (\"c\" | A));
function f(x: B | \"d\" | \"d\") {}
f(\"a\");
";
    assert_eq!(
        run(&[("a.ts", src)]),
        vec!["a.ts:3 f(x) | \"a\" | \"b\" | \"c\" | \"d\" | \"b\",\"c\",\"d\" | 1 a.ts:4"]
    );
}

#[test]
fn recursive_aliases_end() {
    let src = "type T = { next: T; kind: 1 | 2 };\nfunction f(t: T) {}\ndeclare const t: T;\nf({ next: t, kind: 1 });\n";
    assert_eq!(short("a.ts", src), vec!["f.kind: 2"]);
}

#[test]
fn any_and_unknown_are_not_reported() {
    assert_eq!(
        short("a.ts", "function f(x: unknown | \"a\" | \"b\") {}\nf(\"a\");\n"),
        vec!["f: \"b\""]
    );
    assert_eq!(
        short("a.ts", "function f(x: any | 1 | 2) {}\nf(1); f(2);\n"),
        Vec::<String>::new()
    );
}

#[test]
fn lone_surrogates_are_literals() {
    let src = "function f(x: \"\\uD800\" | \"b\" | \"c\") {}\n\
               f(\"\\uD800\"); f(\"b\");\n\
               const t = `\\uDC00 ${1}`;\n";
    let r = project(&[("a.ts", src)], &Options::default());
    assert!(r.warnings.is_empty());
    assert_eq!(
        lines(&r),
        vec!["a.ts:1 f(x) | \"\u{FFFD}d800\" | \"b\" | \"c\" | \"c\" | 2 a.ts:2,a.ts:2"]
    );
}

/// A function whose parameter has an alias that is `count` aliases away from its union.
fn aliased(count: usize) -> String {
    let mut src = "type T0 = 1 | 2 | 3;\n".to_string();
    for i in 1..count {
        let before = i - 1;
        src.push_str(&format!("type T{i} = T{before};\n"));
    }
    let last = count - 1;
    src.push_str(&format!("function f(x: T{last} | 4) {{}}\nf(4); f(1);\n"));
    src
}

#[test]
fn long_alias_chains_are_capped() {
    assert_eq!(short("a.ts", &aliased(64)), vec!["f: 2, 3"]);
    // Beyond the cap the alias is opaque, and a literal outside the rest uses everything.
    assert_eq!(short("a.ts", &aliased(65)), Vec::<String>::new());
}

//! The parts on their own.

use type_narrower::annotation::{literal_observed, ts_type_to_expr};
use type_narrower::json::{read_json, read_nested, Json};
use type_narrower::jsonc::strip_jsonc;
use type_narrower::model::TypeExpr;
use type_narrower::narrow::{analyze_param, assignable};
use type_narrower::number::write_out;
use type_narrower::order::{sort_findings, text_before};
use type_narrower::path::{
    extension_is, file_name_of, join, normalize, parent_of, probe_candidates, source_path,
};
use type_narrower::project::file_set;
use type_narrower::scope::{empty_scope, scan_stmts};
use type_narrower::source::Source;
use type_narrower::specifier::{candidate_files, resolve_import};
use type_narrower::surrogate::replace_surrogates;
use type_narrower::syntax::{parse, read_output};
use type_narrower::text::{
    find_char, has_prefix, has_suffix, read_decimal, trim_text, write_decimal,
};
use type_narrower::ty::{add_undefined, print_ty, RProp, Ty};
use type_narrower::workspace::{
    build, config_name, project_source, skipped_dir, ConfigFile, SpecifierMap,
};
use type_narrower::Finding;

fn s(text: &str) -> Ty {
    Ty::StrLit(text.to_string())
}

fn n(text: &str) -> Ty {
    Ty::NumLit(text.to_string())
}

fn prop(name: &str, ty: Ty, optional: bool) -> RProp {
    RProp { name: name.to_string(), ty, optional }
}

fn unused(declared: &Ty, observed: Vec<Ty>, optional: bool) -> Vec<String> {
    let mut out = Vec::new();
    for r in analyze_param(declared, &observed, optional, 6) {
        out.push(format!("{}:{}", r.path, r.unused.join(",")));
    }
    out
}

#[test]
fn types_are_printed() {
    let t = Ty::Object(vec![
        prop("a", Ty::Union(vec![s("x"), n("-1.5"), Ty::BoolLit(true)]), false),
        prop("b", Ty::Null, true),
    ]);
    assert_eq!(print_ty(&t), "{ a: \"x\" | -1.5 | true; b?: null; }");
    assert_eq!(print_ty(&Ty::Object(Vec::new())), "{ }");
    assert_eq!(print_ty(&Ty::AnyLike), "any");
    assert_eq!(print_ty(&Ty::Opaque("Foo<Bar>".to_string())), "Foo<Bar>");
    let e = Ty::EnumLit { enum_name: "E".to_string(), member: "M".to_string() };
    assert_eq!(print_ty(&e), "E.M");
    assert_eq!(
        print_ty(&Ty::Union(vec![Ty::Str, Ty::Num, Ty::Bool, Ty::Undefined])),
        "string | number | boolean | undefined"
    );
}

#[test]
fn undefined_is_added_once() {
    let t = add_undefined(&s("a"));
    assert_eq!(print_ty(&t), "\"a\" | undefined");
    assert_eq!(print_ty(&add_undefined(&t)), "\"a\" | undefined");
}

#[test]
fn assignability() {
    assert!(assignable(&s("a"), &Ty::Str));
    assert!(!assignable(&Ty::Str, &s("a")));
    assert!(assignable(&s("a"), &Ty::Union(vec![s("b"), s("a")])));
    assert!(!assignable(&Ty::Union(vec![s("a"), n("1")]), &Ty::Str));
    assert!(assignable(&Ty::AnyLike, &s("a")));
    assert!(assignable(&s("a"), &Ty::AnyLike));
    assert!(!assignable(&Ty::Opaque("T".to_string()), &Ty::Opaque("T".to_string())));
    let have = Ty::Object(vec![prop("k", s("a"), false)]);
    assert!(assignable(&have, &Ty::Object(vec![prop("k", Ty::Str, false)])));
    assert!(assignable(
        &have,
        &Ty::Object(vec![prop("k", Ty::Str, false), prop("j", Ty::Num, true)])
    ));
    assert!(!assignable(
        &have,
        &Ty::Object(vec![prop("k", Ty::Str, false), prop("j", Ty::Num, false)])
    ));
}

#[test]
fn literals_use_themselves_and_their_primitive() {
    let declared = Ty::Union(vec![s("a"), s("b"), Ty::Str, Ty::Num, Ty::Null]);
    assert_eq!(unused(&declared, vec![s("a")], false), vec![":\"b\",number,null"]);
    assert_eq!(unused(&declared, vec![Ty::Str], false), vec![":number,null"]);
    assert_eq!(unused(&declared, vec![n("3")], false), vec![":\"a\",\"b\",string,null"]);
}

#[test]
fn what_matches_nothing_uses_everything() {
    let declared = Ty::Union(vec![s("a"), s("b")]);
    assert!(unused(&declared, vec![s("a"), n("1")], false).is_empty());
    assert!(unused(&declared, vec![s("a"), Ty::AnyLike], false).is_empty());
    assert_eq!(unused(&declared, vec![s("a"), s("a")], false), vec![":\"b\""]);
    // Without observations everything is unused.
    assert_eq!(unused(&declared, Vec::new(), false), vec![":\"a\",\"b\""]);
}

#[test]
fn any_is_never_excluded() {
    let declared = Ty::Union(vec![Ty::AnyLike, s("a"), s("b")]);
    assert_eq!(unused(&declared, vec![s("a")], false), vec![":\"b\""]);
    assert_eq!(unused(&declared, vec![n("1")], false), vec![":\"a\",\"b\""]);
    assert_eq!(unused(&declared, vec![Ty::Null], false), vec![":\"a\",\"b\""]);
    assert!(unused(&declared, vec![Ty::Str], false).is_empty());
    assert!(unused(&declared, vec![Ty::AnyLike], false).is_empty());
}

#[test]
fn order_and_repetition_do_not_matter() {
    let declared = Ty::Union(vec![s("a"), s("b"), s("c"), s("d")]);
    let expected = vec![":\"b\",\"d\""];
    assert_eq!(unused(&declared, vec![s("a"), s("c")], false), expected);
    assert_eq!(unused(&declared, vec![s("c"), s("a")], false), expected);
    assert_eq!(unused(&declared, vec![s("c"), s("a"), s("a"), s("c")], false), expected);
}

/// A type inside `depth` objects.
fn nested(inner: Ty, depth: usize) -> Ty {
    let mut t = inner;
    for _ in 0..depth {
        t = Ty::Object(vec![prop("k", t, false)]);
    }
    t
}

#[test]
fn deep_types_are_assignable() {
    assert!(!assignable(&nested(Ty::Str, 3), &nested(Ty::Num, 3)));
    assert!(!assignable(&nested(Ty::Str, 64), &nested(Ty::Num, 64)));
    assert!(assignable(&nested(Ty::Str, 65), &nested(Ty::Num, 65)));
    assert!(assignable(&nested(Ty::Str, 90), &nested(Ty::Num, 90)));
}

#[test]
fn booleans_are_two_literals() {
    assert_eq!(unused(&Ty::Bool, vec![Ty::BoolLit(true)], false), vec![":false"]);
    assert!(unused(&Ty::Bool, vec![Ty::Bool], false).is_empty());
    let r = analyze_param(&Ty::Bool, &vec![Ty::BoolLit(false)], false, 0);
    assert_eq!(r[0].declared, "boolean");
    assert_eq!(r[0].unused, vec!["true"]);
}

#[test]
fn objects_are_walked_only_for_objects() {
    let declared = Ty::Object(vec![prop("k", Ty::Union(vec![s("a"), s("b")]), false)]);
    let object = || Ty::Object(vec![prop("k", s("a"), false)]);
    assert_eq!(unused(&declared, vec![object()], false), vec![".k:\"b\""]);
    assert!(unused(&declared, vec![object(), Ty::AnyLike], false).is_empty());
    // An optional object is a union with `undefined`, and unions are terminal.
    assert!(unused(&declared, vec![object()], true).is_empty());
    // A property that is missing but not optional proves nothing.
    assert!(unused(&declared, vec![object(), Ty::Object(Vec::new())], false).is_empty());
}

#[test]
fn documents_are_read() {
    let Some(Json::Object(fields)) = read_json(" {\"b\": [1, 2.50, -0.0, \"x\"], \"a\": null} ") else {
        panic!("no object");
    };
    assert_eq!(fields[0].0, "b");
    assert_eq!(fields[1].0, "a");
    assert!(fields[1].1.is_null());
    let Json::Array(items) = &fields[0].1 else { panic!("no array") };
    let texts: Vec<String> = items
        .iter()
        .map(|i| match i {
            Json::Number(t) => t.clone(),
            Json::Str(t) => format!("'{t}'"),
            _ => "?".to_string(),
        })
        .collect();
    // A number stands as it is written.
    assert_eq!(texts, vec!["1", "2.50", "-0.0", "'x'"]);
    assert!(read_json("{\"a\":true}").unwrap().get("a").is_true());
    let Some(Json::Number(t)) = read_json("1E5") else { panic!("no number") };
    assert_eq!(t, "1e+5");
    assert!(read_json("{").is_none());
    assert!(read_json("1 2").is_none());
}

#[test]
fn numbers_are_written_out() {
    assert_eq!(write_out("17"), "17");
    assert_eq!(write_out("0.25"), "0.25");
    assert_eq!(write_out("1e+21"), "1000000000000000000000");
    assert_eq!(write_out("1.5e+3"), "1500");
    assert_eq!(write_out("1.2345e2"), "123.45");
    assert_eq!(write_out("1e-7"), "0.0000001");
    assert_eq!(write_out("12.5e-1"), "1.25");
    assert_eq!(write_out("5e-324").len(), 326);
    assert_eq!(write_out("1e+400"), "inf");
    assert_eq!(write_out("1e-400"), "0");
    // As a double-precision number prints.
    for x in [1e21, 1.7976931348623157e308, 5e-324, 1.5e-9, 1e-7, 123456789012345680000000.0] {
        let scientific = format!("{x:e}");
        assert_eq!(write_out(&scientific), format!("{x}"));
    }
}

#[test]
fn nesting_is_limited_for_one_reader_only() {
    let deep = format!("{}{}", "[".repeat(400), "]".repeat(400));
    assert!(read_json(&deep).is_none());
    assert!(read_nested(&deep).is_some());
    assert!(read_nested("[1] x").is_none());
    assert_eq!(read_output(2, "[1]").errors, 2);
    assert_eq!(read_output(2, "nothing").errors, 3);
    assert!(read_output(2, "nothing").program.is_null());
}

#[test]
fn sources_are_parsed() {
    let p = parse("f(1);", false);
    assert_eq!(p.errors, 0);
    assert!(p.program.is_kind("Program"));
    let call = p.program.get("body").at(0).get("expression");
    assert!(call.is_kind("CallExpression"));
    assert!(call.get("callee").named("f"));
    assert_eq!(call.get("arguments").count(), 1);
    assert!(parse("f(;", false).errors > 0);
    assert_eq!(parse("const e = <a />;", true).errors, 0);
    assert!(parse("const e = <a />;", false).errors > 0);
}

fn mended(text: &str) -> String {
    match replace_surrogates(text) {
        Some(s) => s,
        None => text.to_string(),
    }
}

#[test]
fn surrogates_are_replaced() {
    assert_eq!(mended("[\"\\ud800x\", \"\\uDFFF\"]"), "[\"\u{FFFD}d800x\", \"\u{FFFD}DFFF\"]");
    // Other escapes stay, and so does what only looks like one.
    assert_eq!(mended("\"\\ud7ff\\u0001\\n\""), "\"\\ud7ff\\u0001\\n\"");
    assert_eq!(mended("\"\\\\ud800\""), "\"\\\\ud800\"");
    assert_eq!(mended("\"\\\\\\ud800\""), "\"\\\\\u{FFFD}d800\"");
    assert_eq!(mended("\\ud800"), "\\ud800");
    assert_eq!(mended("\"\\ud8"), "\"\\ud8");
    // A replacement character is told apart only next to a surrogate.
    assert_eq!(
        mended("[\"\u{FFFD}\", \"\u{FFFD}\\udc00\u{FFFD}\", \"\u{FFFD}\"]"),
        "[\"\u{FFFD}\", \"\u{FFFD}fffd\u{FFFD}dc00\u{FFFD}fffd\", \"\u{FFFD}\"]"
    );
    assert_eq!(replace_surrogates("{\"a\": \"b\"}"), None);
    let read = read_output(0, "{\"a\": \"\\udabc\"}");
    assert_eq!(read.errors, 0);
    assert_eq!(read.program.get("a").text(), "\u{FFFD}dabc");
}

#[test]
fn depths_beyond_the_limits_are_answered() {
    let p = parse("f(1); type T = 1; { const x = 1; }", false);
    let body = p.program.get("body");
    let one = body.at(0).get("expression").get("arguments").at(0);
    assert!(literal_observed(one, 200).is_some());
    assert!(literal_observed(one, 201).is_none());
    assert!(literal_observed(one, usize::MAX).is_none());
    let src = Source::new("f(1); type T = 1; { const x = 1; }");
    let ty = body.at(1).get("typeAnnotation");
    assert!(matches!(ts_type_to_expr(ty, &src, 200), TypeExpr::NumLit(_)));
    for depth in [201, usize::MAX] {
        match ts_type_to_expr(ty, &src, depth) {
            TypeExpr::Opaque(text) => assert_eq!(text, "<deep>"),
            _ => panic!("not opaque"),
        }
    }
    for (depth, count) in [(500, 1), (501, 0), (usize::MAX, 0)] {
        let mut values = empty_scope();
        let mut types = file_set(&Vec::new());
        scan_stmts(body.at(2).get("body"), &mut values, &mut types, depth);
        assert_eq!(values.len(), count);
    }
}

#[test]
fn lines_and_spans() {
    let src = Source::new("ab\né\nxyz");
    assert_eq!(src.line_of(0), 1);
    assert_eq!(src.line_of(2), 1);
    assert_eq!(src.line_of(3), 2);
    assert_eq!(src.line_of(6), 3);
    assert_eq!(src.span_text(0, 2), "ab");
    // Offsets count the bytes of the text.
    assert_eq!(src.span_text(3, 5), "é");
    assert_eq!(src.span_text(6, 9), "xyz");
}

#[test]
fn comments_and_commas_go() {
    assert_eq!(strip_jsonc("{\"a\": 1}"), "{\"a\": 1}");
    assert_eq!(strip_jsonc("{ // x\n\"a\": 1, /* y */ }"), "{ \n\"a\": 1  }");
    assert_eq!(strip_jsonc("[1, 2 , ]"), "[1, 2  ]");
    assert_eq!(strip_jsonc("\"// no \\\" comment\""), "\"// no \\\" comment\"");
    assert_eq!(strip_jsonc("[\"a/b/*.ts\", 1 / 2]"), "[\"a/b/*.ts\", 1 / 2]");
    assert_eq!(strip_jsonc("{\"a\": \"./b/c\"}"), "{\"a\": \"./b/c\"}");
    assert_eq!(strip_jsonc("1 /* open"), "1 ");
    assert_eq!(strip_jsonc("a // end"), "a ");
}

#[test]
fn paths() {
    assert_eq!(parent_of("/a/b/c.ts"), "/a/b");
    assert_eq!(parent_of("/c.ts"), "/");
    assert_eq!(parent_of("c.ts"), "");
    assert_eq!(file_name_of("/a/b/c.ts"), "c.ts");
    assert_eq!(join("/a", "b"), "/a/b");
    assert_eq!(join("/a/", "b"), "/a/b");
    assert_eq!(join("/a", "/b"), "/b");
    assert_eq!(join("", "b"), "b");
    assert_eq!(normalize("/a/./b/../c//d"), "/a/c/d");
    assert_eq!(normalize("/../a"), "/a");
    assert_eq!(normalize(&normalize("/a/x/../b")), "/a/b");
    assert!(extension_is("a.tsx", ".tsx"));
    assert!(!extension_is(".tsx", ".tsx"));
    assert!(source_path("x.ts") && source_path("x.tsx") && source_path("x.mts") && source_path("x.cts"));
    assert!(!source_path("x.js") && !source_path("ts"));
}

#[test]
fn candidates_in_order() {
    assert_eq!(
        probe_candidates("/p/a"),
        vec![
            "/p/a.ts",
            "/p/a.tsx",
            "/p/a/index.ts",
            "/p/a/index.tsx",
            "/p/a/src/index.ts",
            "/p/a/src/index.tsx",
        ]
    );
    assert_eq!(
        probe_candidates("/p/a.js")[..4],
        ["/p/a.ts", "/p/a.tsx", "/p/a.js.ts", "/p/a.js.tsx"]
    );
    assert_eq!(probe_candidates("/p/a.ts")[..3], ["/p/a.ts.ts", "/p/a.ts.tsx", "/p/a.ts"]);
    assert_eq!(probe_candidates("/p/a.jsx")[0], "/p/a.tsx");
    assert_eq!(probe_candidates("/p/a.mjs")[0], "/p/a.mts");
    assert_eq!(probe_candidates("/p/a.cjs")[0], "/p/a.cts");
}

fn config(dir: &str, name: &str, text: &str) -> ConfigFile {
    ConfigFile { dir: dir.to_string(), name: name.to_string(), text: text.to_string() }
}

#[test]
fn specifiers_resolve_to_bases() {
    let none: SpecifierMap = SpecifierMap::new();
    assert!(none.is_empty());
    assert!(none.resolve("x").is_empty());
    let map = build(&vec![
        config("/p/pkg", "package.json", "{\"name\": \"@s/pkg\"}"),
        config("/p/late", "package.json", "{\"name\": \"@s/pkg\"}"),
        config("/p/odd", "package.json", "{\"name\": 5}"),
        config(
            "/p",
            "tsconfig.json",
            "{\"compilerOptions\": {\"baseUrl\": \"src\", \"paths\": {\"~/*\": [\"*\", \"gen/*\"], \
             \"exact\": [\"x/y\"], \"a*z\": [\"mid/*\"]}}}",
        ),
    ]);
    assert!(!map.is_empty());
    assert_eq!(map.resolve("exact"), vec!["/p/src/x/y"]);
    assert_eq!(map.resolve("~/q"), vec!["/p/src/q", "/p/src/gen/q"]);
    assert_eq!(map.resolve("aMz"), vec!["/p/src/mid/M"]);
    assert_eq!(map.resolve("az"), vec!["/p/src/mid/"]);
    assert!(map.resolve("a").is_empty());
    assert_eq!(map.resolve("@s/pkg"), vec!["/p/pkg"]);
    assert_eq!(map.resolve("@s/pkg/sub/f"), vec!["/p/pkg/sub/f", "/p/pkg/src/sub/f"]);
    assert!(map.resolve("@s/other").is_empty());
    assert!(map.resolve("@s").is_empty());
}

#[test]
fn imports_resolve_to_the_first_existing_file() {
    let map = SpecifierMap::new();
    let existing =
        file_set(&vec!["/p/b/index.ts".to_string(), "/p/a.tsx".to_string(), "/p/a.ts".to_string()]);
    assert_eq!(resolve_import("/p/x.ts", "./a", &map, &existing), Some("/p/a.ts".to_string()));
    assert_eq!(resolve_import("/p/q/x.ts", "../b", &map, &existing), Some("/p/b/index.ts".to_string()));
    assert_eq!(resolve_import("/p/x.ts", "./none", &map, &existing), None);
    assert_eq!(resolve_import("/p/x.ts", "react", &map, &existing), None);
    assert!(candidate_files("/p/x.ts", "react", &map).is_empty());
}

#[test]
fn files_of_a_project() {
    assert!(skipped_dir("node_modules") && skipped_dir(".git") && skipped_dir("dist"));
    assert!(skipped_dir("target") && !skipped_dir("src"));
    assert!(project_source("a.ts") && project_source("a.tsx") && project_source("a.mts"));
    assert!(!project_source("a.d.ts") && !project_source("a.js"));
    assert!(config_name("package.json") && config_name("tsconfig.json"));
    assert!(config_name("tsconfig.base.json") && !config_name("tsconfig.app.json"));
}

#[test]
fn texts() {
    assert!(has_prefix("abc", "ab") && !has_prefix("a", "ab"));
    assert!(has_suffix("abc", "bc") && !has_suffix("c", "bc"));
    assert_eq!(trim_text(" \t a b \n"), "a b");
    assert_eq!(find_char(&"a,b,c".chars().collect(), ',', 2), Some(3));
    assert_eq!(find_char(&"abc".chars().collect(), ',', 0), None);
    assert_eq!(write_decimal(0), "0");
    assert_eq!(write_decimal(1203), "1203");
    assert_eq!(read_decimal("1203", 2000), Some(1203));
    assert_eq!(read_decimal(&write_decimal(u64::MAX as u128), u64::MAX), Some(u64::MAX));
    assert_eq!(read_decimal("18446744073709551616", u64::MAX), None);
    assert_eq!(read_decimal("2001", 2000), None);
    assert_eq!(read_decimal("", 9), None);
    assert_eq!(read_decimal("1x", 9), None);
}

#[test]
fn findings_sort_by_place() {
    let finding = |file: &str, line: u32, param: &str, path: &str, tag: &str| Finding {
        file: file.to_string(),
        line,
        function_name: tag.to_string(),
        param: param.to_string(),
        path: path.to_string(),
        declared: String::new(),
        unused: Vec::new(),
        call_count: 1,
        sites: Vec::new(),
    };
    let sorted = sort_findings(vec![
        finding("b.ts", 1, "x", "", "1"),
        finding("a.ts", 9, "x", "", "2"),
        finding("a.ts", 2, "y", "", "3"),
        finding("a.ts", 2, "x", ".b", "4"),
        finding("a.ts", 2, "x", ".a", "5"),
        finding("a.ts", 2, "x", ".a", "6"),
    ]);
    let tags: String = sorted.iter().map(|f| f.function_name.as_str()).collect();
    assert_eq!(tags, "564321");
    assert!(text_before("a", "b") && !text_before("b", "a"));
}

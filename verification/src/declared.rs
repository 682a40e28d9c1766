//! What the statements of a module declare, import and export.

use vstd::prelude::*;

use crate::annotation::{object_type, type_expr};
use crate::extract::{finished_decl, finished_decls, module_facts, module_level};
use crate::json::JsonView;
use crate::link::{decl_findings, ScopeView};
use crate::model::{blank_module, DeclView, ImportView, OwnerView, ReExportView};
use crate::param::decl_view;
use crate::prepass::{
    dynamic_import, is_function_value, is_method, is_object_method, member_names, with_class,
    with_declaration, with_default, with_enum, with_exports, with_function, with_import_specifiers,
    with_interface, with_methods, with_object_methods, with_reexports, with_statement,
    with_statements, with_targets, with_type_alias, with_variable, with_variables, PlaceView,
    PreView,
};
use crate::resolve::{home_name, ProjectView};
use crate::scope::BindingView;
use crate::syntax::{export_name, plain_key, string_value};

verus! {

/// The kinds of statements differ.
pub proof fn lemma_statement_kinds()
    ensures
        "VariableDeclaration"@ != "FunctionDeclaration"@,
        "VariableDeclaration"@ != "TSDeclareFunction"@,
        "VariableDeclaration"@ != "ClassDeclaration"@,
        "VariableDeclaration"@ != "TSTypeAliasDeclaration"@,
        "VariableDeclaration"@ != "TSInterfaceDeclaration"@,
        "VariableDeclaration"@ != "TSEnumDeclaration"@,
        "VariableDeclaration"@ != "ImportDeclaration"@,
        "VariableDeclaration"@ != "ExportNamedDeclaration"@,
        "VariableDeclaration"@ != "ExportAllDeclaration"@,
        "VariableDeclaration"@ != "ExportDefaultDeclaration"@,
        "VariableDeclaration"@ != "Identifier"@,
        "FunctionDeclaration"@ != "TSDeclareFunction"@,
        "FunctionDeclaration"@ != "ClassDeclaration"@,
        "FunctionDeclaration"@ != "TSTypeAliasDeclaration"@,
        "FunctionDeclaration"@ != "TSInterfaceDeclaration"@,
        "FunctionDeclaration"@ != "TSEnumDeclaration"@,
        "FunctionDeclaration"@ != "ImportDeclaration"@,
        "FunctionDeclaration"@ != "ExportNamedDeclaration"@,
        "FunctionDeclaration"@ != "ExportAllDeclaration"@,
        "FunctionDeclaration"@ != "ExportDefaultDeclaration"@,
        "FunctionDeclaration"@ != "Identifier"@,
        "TSDeclareFunction"@ != "ClassDeclaration"@,
        "TSDeclareFunction"@ != "TSTypeAliasDeclaration"@,
        "TSDeclareFunction"@ != "TSInterfaceDeclaration"@,
        "TSDeclareFunction"@ != "TSEnumDeclaration"@,
        "TSDeclareFunction"@ != "ImportDeclaration"@,
        "TSDeclareFunction"@ != "ExportNamedDeclaration"@,
        "TSDeclareFunction"@ != "ExportAllDeclaration"@,
        "TSDeclareFunction"@ != "ExportDefaultDeclaration"@,
        "TSDeclareFunction"@ != "Identifier"@,
        "ClassDeclaration"@ != "TSTypeAliasDeclaration"@,
        "ClassDeclaration"@ != "TSInterfaceDeclaration"@,
        "ClassDeclaration"@ != "TSEnumDeclaration"@,
        "ClassDeclaration"@ != "ImportDeclaration"@,
        "ClassDeclaration"@ != "ExportNamedDeclaration"@,
        "ClassDeclaration"@ != "ExportAllDeclaration"@,
        "ClassDeclaration"@ != "ExportDefaultDeclaration"@,
        "ClassDeclaration"@ != "Identifier"@,
        "TSTypeAliasDeclaration"@ != "TSInterfaceDeclaration"@,
        "TSTypeAliasDeclaration"@ != "TSEnumDeclaration"@,
        "TSTypeAliasDeclaration"@ != "ImportDeclaration"@,
        "TSTypeAliasDeclaration"@ != "ExportNamedDeclaration"@,
        "TSTypeAliasDeclaration"@ != "ExportAllDeclaration"@,
        "TSTypeAliasDeclaration"@ != "ExportDefaultDeclaration"@,
        "TSTypeAliasDeclaration"@ != "Identifier"@,
        "TSInterfaceDeclaration"@ != "TSEnumDeclaration"@,
        "TSInterfaceDeclaration"@ != "ImportDeclaration"@,
        "TSInterfaceDeclaration"@ != "ExportNamedDeclaration"@,
        "TSInterfaceDeclaration"@ != "ExportAllDeclaration"@,
        "TSInterfaceDeclaration"@ != "ExportDefaultDeclaration"@,
        "TSInterfaceDeclaration"@ != "Identifier"@,
        "TSEnumDeclaration"@ != "ImportDeclaration"@,
        "TSEnumDeclaration"@ != "ExportNamedDeclaration"@,
        "TSEnumDeclaration"@ != "ExportAllDeclaration"@,
        "TSEnumDeclaration"@ != "ExportDefaultDeclaration"@,
        "TSEnumDeclaration"@ != "Identifier"@,
        "ImportDeclaration"@ != "ExportNamedDeclaration"@,
        "ImportDeclaration"@ != "ExportAllDeclaration"@,
        "ImportDeclaration"@ != "ExportDefaultDeclaration"@,
        "ImportDeclaration"@ != "Identifier"@,
        "ExportNamedDeclaration"@ != "ExportAllDeclaration"@,
        "ExportNamedDeclaration"@ != "ExportDefaultDeclaration"@,
        "ExportNamedDeclaration"@ != "Identifier"@,
        "ExportAllDeclaration"@ != "ExportDefaultDeclaration"@,
        "ExportAllDeclaration"@ != "Identifier"@,
        "ExportDefaultDeclaration"@ != "Identifier"@,
        "VariableDeclaration"@.len() > 0,
        "FunctionDeclaration"@.len() > 0,
        "TSDeclareFunction"@.len() > 0,
        "ClassDeclaration"@.len() > 0,
        "TSTypeAliasDeclaration"@.len() > 0,
        "TSInterfaceDeclaration"@.len() > 0,
        "TSEnumDeclaration"@.len() > 0,
        "ImportDeclaration"@.len() > 0,
        "ExportNamedDeclaration"@.len() > 0,
        "ExportAllDeclaration"@.len() > 0,
        "ExportDefaultDeclaration"@.len() > 0,
        "Identifier"@.len() > 0,
{
    reveal_strlit("VariableDeclaration");
    reveal_strlit("FunctionDeclaration");
    reveal_strlit("TSDeclareFunction");
    reveal_strlit("ClassDeclaration");
    reveal_strlit("TSTypeAliasDeclaration");
    reveal_strlit("TSInterfaceDeclaration");
    reveal_strlit("TSEnumDeclaration");
    reveal_strlit("ImportDeclaration");
    reveal_strlit("ExportNamedDeclaration");
    reveal_strlit("ExportAllDeclaration");
    reveal_strlit("ExportDefaultDeclaration");
    reveal_strlit("Identifier");
    assert("VariableDeclaration"@.len() == 19);
    assert("FunctionDeclaration"@.len() == 19);
    assert("TSDeclareFunction"@.len() == 17);
    assert("ClassDeclaration"@.len() == 16);
    assert("TSTypeAliasDeclaration"@.len() == 22);
    assert("TSInterfaceDeclaration"@.len() == 22);
    assert("TSEnumDeclaration"@.len() == 17);
    assert("ImportDeclaration"@.len() == 17);
    assert("ExportNamedDeclaration"@.len() == 22);
    assert("ExportAllDeclaration"@.len() == 20);
    assert("ExportDefaultDeclaration"@.len() == 24);
    assert("Identifier"@.len() == 10);
    assert("VariableDeclaration"@[0] == 'V');
    assert("FunctionDeclaration"@[0] == 'F');
    assert("TSDeclareFunction"@[2] == 'D');
    assert("TSEnumDeclaration"@[2] == 'E');
    assert("TSDeclareFunction"@[0] == 'T');
    assert("ImportDeclaration"@[0] == 'I');
    assert("TSTypeAliasDeclaration"@[2] == 'T');
    assert("TSInterfaceDeclaration"@[2] == 'I');
    assert("TSTypeAliasDeclaration"@[0] == 'T');
    assert("ExportNamedDeclaration"@[0] == 'E');
    assert("TSInterfaceDeclaration"@[0] == 'T');
    assert("TSEnumDeclaration"@[0] == 'T');
}
/// The kinds of import specifiers differ.
pub proof fn lemma_specifier_kinds()
    ensures
        "ImportSpecifier"@ != "ImportDefaultSpecifier"@,
        "ImportSpecifier"@ != "ImportNamespaceSpecifier"@,
        "ImportDefaultSpecifier"@ != "ImportNamespaceSpecifier"@,
        "ImportSpecifier"@.len() > 0,
        "ImportDefaultSpecifier"@.len() > 0,
        "ImportNamespaceSpecifier"@.len() > 0,
{
    reveal_strlit("ImportSpecifier");
    reveal_strlit("ImportDefaultSpecifier");
    reveal_strlit("ImportNamespaceSpecifier");
    assert("ImportSpecifier"@.len() == 15);
    assert("ImportDefaultSpecifier"@.len() == 22);
    assert("ImportNamespaceSpecifier"@.len() == 24);
}

// ---------------------------------------------------------------------------
// Statements only add
// ---------------------------------------------------------------------------

/// Whether everything that is known in the first state is known in the second.
pub open spec fn grows(a: PreView, b: PreView) -> bool {
    &&& a.exported.subset_of(b.exported)
    &&& a.bodyless.subset_of(b.bodyless)
    &&& a.info.decls.len() <= b.info.decls.len()
    &&& forall|i: int|
        0 <= i < a.info.decls.len() ==> #[trigger] b.info.decls[i] == a.info.decls[i]
    &&& a.info.reexports_named.len() <= b.info.reexports_named.len()
    &&& forall|i: int|
        0 <= i < a.info.reexports_named.len() ==> #[trigger] b.info.reexports_named[i]
            == a.info.reexports_named[i]
    &&& a.info.reexports_star.len() <= b.info.reexports_star.len()
    &&& forall|i: int|
        0 <= i < a.info.reexports_star.len() ==> #[trigger] b.info.reexports_star[i]
            == a.info.reexports_star[i]
    &&& a.info.imports.dom().subset_of(b.info.imports.dom())
    &&& a.info.type_aliases.dom().subset_of(b.info.type_aliases.dom())
    &&& a.info.enums.dom().subset_of(b.info.enums.dom())
    &&& a.info.default_export is Some ==> b.info.default_export is Some
}

proof fn lemma_grows_on(a: PreView, b: PreView, c: PreView)
    requires
        grows(a, b),
        grows(b, c),
    ensures
        grows(a, c),
{
    assert forall|i: int| 0 <= i < a.info.decls.len() implies #[trigger] c.info.decls[i]
        == a.info.decls[i] by {
        assert(b.info.decls[i] == a.info.decls[i]);
    }
    assert forall|i: int|
        0 <= i < a.info.reexports_named.len() implies #[trigger] c.info.reexports_named[i]
        == a.info.reexports_named[i] by {
        assert(b.info.reexports_named[i] == a.info.reexports_named[i]);
    }
    assert forall|i: int|
        0 <= i < a.info.reexports_star.len() implies #[trigger] c.info.reexports_star[i]
        == a.info.reexports_star[i] by {
        assert(b.info.reexports_star[i] == a.info.reexports_star[i]);
    }
}

proof fn lemma_methods_grow(
    s: PreView,
    class: Seq<char>,
    members: Seq<JsonView>,
    k: int,
    exported: bool,
    src: Seq<char>,
)
    ensures
        grows(s, with_methods(s, class, members, k, exported, src)),
    decreases k,
{
    if k > 0 {
        lemma_methods_grow(s, class, members, k - 1, exported, src);
        let before = with_methods(s, class, members, k - 1, exported, src);
        assert(grows(before, with_methods(s, class, members, k, exported, src)));
        lemma_grows_on(s, before, with_methods(s, class, members, k, exported, src));
    }
}

proof fn lemma_class_grows(s: PreView, c: JsonView, exported: bool, src: Seq<char>)
    ensures
        grows(s, with_class(s, c, exported, src)),
{
    if !(c.get("id"@) is Null) {
        let name = c.get("id"@).name();
        let members = c.get("body"@).get("body"@).items();
        let bound = s.bound(name, BindingView::ClassDecl);
        lemma_methods_grow(bound, name, members, members.len() as int, exported, src);
        lemma_grows_on(s, bound, with_class(s, c, exported, src));
    }
}

proof fn lemma_object_methods_grow(
    s: PreView,
    name: Seq<char>,
    props: Seq<JsonView>,
    k: int,
    exported: bool,
    src: Seq<char>,
)
    ensures
        grows(s, with_object_methods(s, name, props, k, exported, src)),
    decreases k,
{
    if k > 0 {
        lemma_object_methods_grow(s, name, props, k - 1, exported, src);
        let before = with_object_methods(s, name, props, k - 1, exported, src);
        assert(grows(before, with_object_methods(s, name, props, k, exported, src)));
        lemma_grows_on(s, before, with_object_methods(s, name, props, k, exported, src));
    }
}

proof fn lemma_variable_grows(
    s: PreView,
    d: JsonView,
    is_const: bool,
    exported: bool,
    src: Seq<char>,
    place: PlaceView,
)
    ensures
        grows(s, with_variable(s, d, is_const, exported, src, place)),
{
    let after = with_variable(s, d, is_const, exported, src, place);
    let props = d.get("init"@).get("properties"@).items();
    lemma_object_methods_grow(s, d.get("id"@).name(), props, props.len() as int, exported, src);
    let t = with_targets(s, d, is_const, exported, src);
    assert(grows(s, t));
    if dynamic_import(d.get("init"@)) is None && d.get("id"@).is_kind("Identifier"@) {
        assert(grows(t, after));
        lemma_grows_on(s, t, after);
    }
}

proof fn lemma_variables_grow(
    s: PreView,
    items: Seq<JsonView>,
    is_const: bool,
    exported: bool,
    src: Seq<char>,
    place: PlaceView,
)
    ensures
        grows(s, with_variables(s, items, is_const, exported, src, place)),
    decreases items.len(),
{
    if items.len() > 0 {
        let before = with_variables(s, items.drop_last(), is_const, exported, src, place);
        lemma_variables_grow(s, items.drop_last(), is_const, exported, src, place);
        lemma_variable_grows(before, items.last(), is_const, exported, src, place);
        lemma_grows_on(s, before, with_variables(s, items, is_const, exported, src, place));
    }
}

proof fn lemma_declaration_grows(
    s: PreView,
    n: JsonView,
    exported: bool,
    src: Seq<char>,
    place: PlaceView,
)
    ensures
        grows(s, with_declaration(s, n, exported, src, place)),
{
    lemma_variables_grow(
        s,
        n.get("declarations"@).items(),
        n.get("kind"@).text() == "const"@,
        exported,
        src,
        place,
    );
    lemma_class_grows(s, n, exported, src);
    assert(grows(s, with_function(s, n, exported, src)));
    assert(grows(s, with_type_alias(s, n, src)));
    assert(grows(s, with_interface(s, n, src)));
    assert(grows(s, with_enum(s, n)));
}

proof fn lemma_lists_grow(s: PreView, items: Seq<JsonView>, path: Option<Seq<char>>, own: Seq<char>)
    ensures
        grows(s, with_import_specifiers(s, items, path)),
        grows(s, with_reexports(s, items, path)),
        grows(s, with_exports(s, items, own)),
    decreases items.len(),
{
    if items.len() > 0 {
        let front = items.drop_last();
        lemma_lists_grow(s, front, path, own);
        let a = with_import_specifiers(s, front, path);
        let b = with_reexports(s, front, path);
        let c = with_exports(s, front, own);
        assert(grows(a, with_import_specifiers(s, items, path)));
        assert(grows(b, with_reexports(s, items, path)));
        let local = export_name(items.last().get("local"@));
        assert(grows(c, c.exporting(local)));
        assert(grows(c.exporting(local), with_exports(s, items, own)));
        lemma_grows_on(c, c.exporting(local), with_exports(s, items, own));
        lemma_grows_on(s, a, with_import_specifiers(s, items, path));
        lemma_grows_on(s, b, with_reexports(s, items, path));
        lemma_grows_on(s, c, with_exports(s, items, own));
    }
}

proof fn lemma_default_grows(s: PreView, d: JsonView, src: Seq<char>)
    ensures
        grows(s, with_default(s, d, src)),
{
    lemma_class_grows(s, d, true, src);
    assert(grows(s, with_function(s, d, true, src)));
    if d.is_kind("Identifier"@) {
    } else if d.is_kind("ClassDeclaration"@) {
        let after = with_class(s, d, true, src);
        assert(grows(after, after.defaulted(d.get("id"@).name())));
        lemma_grows_on(s, after, after.defaulted(d.get("id"@).name()));
    } else {
        let after = with_function(s, d, true, src);
        assert(grows(after, after.defaulted(d.get("id"@).name())));
        lemma_grows_on(s, after, after.defaulted(d.get("id"@).name()));
    }
}

proof fn lemma_statement_grows(s: PreView, n: JsonView, src: Seq<char>, place: PlaceView)
    ensures
        grows(s, with_statement(s, n, src, place)),
{
    let path = place.resolve(n.get("source"@).get("value"@).text());
    let items = n.get("specifiers"@).items();
    lemma_lists_grow(s, items, path, place.path);
    lemma_declaration_grows(s, n, false, src, place);
    lemma_default_grows(s, n.get("declaration"@), src);
    let named = if n.get("source"@) is Null {
        with_exports(s, items, place.path)
    } else {
        with_reexports(s, items, path)
    };
    lemma_declaration_grows(named, n.get("declaration"@), true, src, place);
    lemma_grows_on(
        s,
        named,
        with_declaration(named, n.get("declaration"@), true, src, place),
    );
}

/// The state before the statement at position `i`.
pub open spec fn state_before(s: PreView, items: Seq<JsonView>, i: int, src: Seq<char>, place: PlaceView) -> PreView {
    with_statements(s, items.take(i), src, place)
}

proof fn lemma_statement_counts(
    s: PreView,
    items: Seq<JsonView>,
    i: int,
    src: Seq<char>,
    place: PlaceView,
)
    requires
        0 <= i < items.len(),
    ensures
        grows(
            with_statement(state_before(s, items, i, src, place), items[i], src, place),
            with_statements(s, items, src, place),
        ),
    decreases items.len(),
{
    let front = items.drop_last();
    if i == items.len() - 1 {
        assert(items.take(i) =~= front);
    } else {
        assert(front[i] == items[i]);
        assert(front.take(i) =~= items.take(i));
        lemma_statement_counts(s, front, i, src, place);
        let before = with_statements(s, front, src, place);
        lemma_statement_grows(before, items.last(), src, place);
        lemma_grows_on(
            with_statement(state_before(s, items, i, src, place), items[i], src, place),
            before,
            with_statements(s, items, src, place),
        );
    }
}

/// The start of a module.
pub open spec fn start_of(rel: Seq<char>, errors: nat, place: PlaceView) -> PreView {
    PreView {
        info: blank_module(place.path, rel, errors),
        scope: Map::empty(),
        exported: Set::empty(),
        bodyless: Set::empty(),
    }
}

// ---------------------------------------------------------------------------
// Exports
// ---------------------------------------------------------------------------

proof fn lemma_listed_is_exported(s: PreView, items: Seq<JsonView>, own: Seq<char>, k: int)
    requires
        0 <= k < items.len(),
    ensures
        with_exports(s, items, own).exported.contains(export_name(items[k].get("local"@))),
        with_exports(s, items, own).info.reexports_named.contains(
            ReExportView {
                exported: export_name(items[k].get("exported"@)),
                source: ImportView {
                    path: Some(own),
                    name: export_name(items[k].get("local"@)),
                },
            },
        ),
    decreases items.len(),
{
    let front = items.drop_last();
    let all = with_exports(s, items, own);
    if k < items.len() - 1 {
        assert(front[k] == items[k]);
        lemma_listed_is_exported(s, front, own, k);
        let before = with_exports(s, front, own);
        let want = ReExportView {
            exported: export_name(items[k].get("exported"@)),
            source: ImportView { path: Some(own), name: export_name(items[k].get("local"@)) },
        };
        let j = choose|j: int|
            0 <= j < before.info.reexports_named.len() && before.info.reexports_named[j] == want;
        assert(all.info.reexports_named[j] == want);
    } else {
        let n = all.info.reexports_named.len();
        assert(all.info.reexports_named[n - 1].exported == export_name(items[k].get("exported"@)));
    }
}

/// Whether a statement is a list of exports, `export { a, b as c }`, that names
/// the local name.
pub open spec fn lists(n: JsonView, k: int, local: Seq<char>) -> bool {
    &&& n.is_kind("ExportNamedDeclaration"@)
    &&& n.get("source"@) is Null
    &&& 0 <= k < n.get("specifiers"@).items().len()
    &&& export_name(n.get("specifiers"@).items()[k].get("local"@)) == local
}

/// A function that an export list of its module names, itself or through the
/// class or object that it belongs to, is exported; with exports respected
/// nothing is reported of it.
pub proof fn law_listed_functions_are_exported(
    tree: JsonView,
    errors: nat,
    rel: Seq<char>,
    src: Seq<char>,
    place: PlaceView,
    i: int,
    k: int,
    d: int,
)
    requires
        0 <= i < tree.get("body"@).items().len(),
        0 <= d < module_facts(tree, errors, rel, src, place).decls.len(),
        lists(
            tree.get("body"@).items()[i],
            k,
            home_name(module_facts(tree, errors, rel, src, place).decls[d]),
        ),
    ensures
        module_facts(tree, errors, rel, src, place).decls[d].exported,
{
    let items = tree.get("body"@).items();
    let n = items[i];
    let start = start_of(rel, errors, place);
    let before = state_before(start, items, i, src, place);
    let own = n.get("specifiers"@).items();
    let pre = module_level(tree, errors, rel, src, place);
    lemma_statement_kinds();
    lemma_listed_is_exported(before, own, place.path, k);
    let named = with_exports(before, own, place.path);
    lemma_declaration_grows(named, n.get("declaration"@), true, src, place);
    lemma_statement_counts(start, items, i, src, place);
    lemma_grows_on(named, with_statement(before, n, src, place), pre);
    assert(finished_decls(pre)[d] == finished_decl(pre, d));
    let local = export_name(own[k].get("local"@));
    assert(named.exported.contains(local));
    assert(pre.exported.contains(local));
}

/// With exports respected, nothing is reported of an exported function.
pub proof fn law_exported_functions_are_not_reported(
    p: ProjectView,
    m: int,
    d: int,
    s: ScopeView,
)
    requires
        s.respect_exports,
        p.modules[m].decls[d].exported,
    ensures
        decl_findings(p, m, d, s).len() == 0,
{
}

/// The default export of a name exports the function of that name.
pub proof fn law_default_name_is_exported(s: PreView, n: JsonView, src: Seq<char>, place: PlaceView)
    requires
        n.is_kind("ExportDefaultDeclaration"@),
        n.get("declaration"@).is_kind("Identifier"@),
    ensures
        ({
            let after = with_statement(s, n, src, place);
            let name = n.get("declaration"@).name();
            after.info.default_export == Some(name) && after.exported.contains(name)
        }),
{
    lemma_statement_kinds();
}

/// Whether a state holds a declaration.
pub open spec fn declares(s: PreView, d: DeclView) -> bool {
    s.info.decls.contains(d)
}

proof fn lemma_still_declares(a: PreView, b: PreView, d: DeclView)
    requires
        grows(a, b),
        declares(a, d),
    ensures
        declares(b, d),
{
    let i = choose|i: int| 0 <= i < a.info.decls.len() && a.info.decls[i] == d;
    assert(b.info.decls[i] == d);
}

/// A function with a body is declared under its name, exported just if an
/// `export` stands before it.
pub proof fn law_functions_are_declared(
    s: PreView,
    f: JsonView,
    outer: JsonView,
    src: Seq<char>,
    place: PlaceView,
)
    requires
        f.is_kind("FunctionDeclaration"@),
        !(f.get("id"@) is Null),
        !(f.get("body"@) is Null),
        outer.is_kind("ExportNamedDeclaration"@) || outer.is_kind("ExportDefaultDeclaration"@),
        outer.get("declaration"@) == f,
    ensures
        ({
            let name = f.get("id"@).name();
            &&& declares(
                with_statement(s, f, src, place),
                decl_view(name, OwnerView::Free, f, f, false, false, src),
            )
            &&& declares(
                with_statement(s, outer, src, place),
                decl_view(name, OwnerView::Free, f, f, true, false, src),
            )
            &&& with_statement(s, f, src, place).scope[name] == BindingView::Fn
        }),
{
    lemma_statement_kinds();
    let a = with_statement(s, f, src, place);
    assert(a.info.decls.last() == decl_view(
        f.get("id"@).name(),
        OwnerView::Free,
        f,
        f,
        false,
        false,
        src,
    ));
    assert(a.info.decls[a.info.decls.len() - 1] == a.info.decls.last());
    let b = with_statement(s, outer, src, place);
    assert(b.info.decls.last() == decl_view(
        f.get("id"@).name(),
        OwnerView::Free,
        f,
        f,
        true,
        false,
        src,
    ));
    assert(b.info.decls[b.info.decls.len() - 1] == b.info.decls.last());
}

/// What a statement of a module declares, the module declares: with what the
/// module says about exports and overloads.
pub proof fn law_declared_functions_are_kept(
    tree: JsonView,
    errors: nat,
    rel: Seq<char>,
    src: Seq<char>,
    place: PlaceView,
    i: int,
    d: DeclView,
)
    requires
        0 <= i < tree.get("body"@).items().len(),
        ({
            let items = tree.get("body"@).items();
            let before = state_before(start_of(rel, errors, place), items, i, src, place);
            declares(with_statement(before, items[i], src, place), d)
        }),
    ensures
        exists|k: int|
            0 <= k < module_facts(tree, errors, rel, src, place).decls.len() && {
                let kept = #[trigger] module_facts(tree, errors, rel, src, place).decls[k];
                kept.name == d.name && kept.owner == d.owner && kept.params == d.params && kept.line
                    == d.line && kept.end_line == d.end_line && (d.exported ==> kept.exported) && (
                kept.eligible ==> d.eligible)
            },
{
    let items = tree.get("body"@).items();
    let start = start_of(rel, errors, place);
    let pre = module_level(tree, errors, rel, src, place);
    lemma_statement_counts(start, items, i, src, place);
    let before = state_before(start, items, i, src, place);
    lemma_still_declares(with_statement(before, items[i], src, place), pre, d);
    let k = choose|k: int| 0 <= k < pre.info.decls.len() && pre.info.decls[k] == d;
    assert(finished_decls(pre)[k] == finished_decl(pre, k));
    assert(module_facts(tree, errors, rel, src, place).decls[k] == finished_decl(pre, k));
}

/// A signature without a body makes the functions of its name overloaded, and
/// none of them is analyzed.
pub proof fn law_overloads_are_not_analyzed(
    tree: JsonView,
    errors: nat,
    rel: Seq<char>,
    src: Seq<char>,
    place: PlaceView,
    i: int,
    d: int,
)
    requires
        0 <= i < tree.get("body"@).items().len(),
        ({
            let n = tree.get("body"@).items()[i];
            let f = if n.is_kind("ExportNamedDeclaration"@) {
                n.get("declaration"@)
            } else {
                n
            };
            &&& f.is_kind("TSDeclareFunction"@) || f.is_kind("FunctionDeclaration"@)
            &&& !(f.get("id"@) is Null)
            &&& f.get("body"@) is Null
            &&& 0 <= d < module_facts(tree, errors, rel, src, place).decls.len()
            &&& module_facts(tree, errors, rel, src, place).decls[d].owner is Free
            &&& module_facts(tree, errors, rel, src, place).decls[d].name == f.get("id"@).name()
        }),
    ensures
        !module_facts(tree, errors, rel, src, place).decls[d].eligible,
{
    let items = tree.get("body"@).items();
    let n = items[i];
    let f = if n.is_kind("ExportNamedDeclaration"@) {
        n.get("declaration"@)
    } else {
        n
    };
    let start = start_of(rel, errors, place);
    let before = state_before(start, items, i, src, place);
    let pre = module_level(tree, errors, rel, src, place);
    lemma_statement_kinds();
    lemma_statement_counts(start, items, i, src, place);
    let after = with_statement(before, n, src, place);
    assert(after.bodyless.contains(f.get("id"@).name()));
    assert(pre.bodyless.contains(f.get("id"@).name()));
    assert(finished_decls(pre)[d] == finished_decl(pre, d));
}

/// A variable of the module level that holds a function declares it.
pub proof fn law_function_variables_are_declared(
    s: PreView,
    d: JsonView,
    is_const: bool,
    exported: bool,
    src: Seq<char>,
    place: PlaceView,
)
    requires
        d.get("id"@).is_kind("Identifier"@),
        is_function_value(d.get("init"@)),
        dynamic_import(d.get("init"@)) is None,
    ensures
        ({
            let init = d.get("init"@);
            declares(
                with_variable(s, d, is_const, exported, src, place),
                decl_view(
                    d.get("id"@).name(),
                    OwnerView::Free,
                    init,
                    init,
                    exported,
                    init.get("body"@) is Null,
                    src,
                ),
            )
        }),
{
    let after = with_variable(s, d, is_const, exported, src, place);
    let n = after.info.decls.len();
    assert(n == s.info.decls.len() + 1);
    assert(after.info.decls[n - 1].name == d.get("id"@).name());
}

/// The methods of a class are declared as its members, those with a body.
pub proof fn law_methods_are_declared(
    s: PreView,
    class: Seq<char>,
    members: Seq<JsonView>,
    n: int,
    k: int,
    exported: bool,
    src: Seq<char>,
)
    requires
        0 <= k < n <= members.len(),
        members[k].is_kind("MethodDefinition"@),
        members[k].get("kind"@).text() == "method"@,
        !members[k].get("static"@).is_true(),
        plain_key(members[k]) is Some,
        !(members[k].get("value"@).get("body"@) is Null),
    ensures
        exists|i: int|
            0 <= i < with_methods(s, class, members, n, exported, src).info.decls.len() && {
                let d = #[trigger] with_methods(s, class, members, n, exported, src).info.decls[i];
                &&& d.name == plain_key(members[k])->0
                &&& d.owner == OwnerView::Class(class)
                &&& d.exported == exported
                &&& d.line == members[k].start_line(src)
                &&& d.params == decl_view(
                    d.name,
                    d.owner,
                    members[k].get("value"@),
                    members[k],
                    exported,
                    false,
                    src,
                ).params
                &&& (exists|j: int|
                    0 <= j < members.len() && is_method(#[trigger] members[j]) && plain_key(
                        members[j],
                    ) == plain_key(members[k]) && members[j].get("value"@).get("body"@) is Null)
                    ==> !d.eligible
            },
    decreases n,
{
    let all = with_methods(s, class, members, n, exported, src);
    let before = with_methods(s, class, members, n - 1, exported, src);
    if k == n - 1 {
        let last = all.info.decls[all.info.decls.len() - 1];
        assert(last.name == plain_key(members[k])->0);
    } else {
        law_methods_are_declared(s, class, members, n - 1, k, exported, src);
        let i = choose|i: int|
            0 <= i < before.info.decls.len() && {
                let d = #[trigger] before.info.decls[i];
                &&& d.name == plain_key(members[k])->0
                &&& d.owner == OwnerView::Class(class)
                &&& d.exported == exported
                &&& d.line == members[k].start_line(src)
                &&& d.params == decl_view(
                    d.name,
                    d.owner,
                    members[k].get("value"@),
                    members[k],
                    exported,
                    false,
                    src,
                ).params
                &&& (exists|j: int|
                    0 <= j < members.len() && is_method(#[trigger] members[j]) && plain_key(
                        members[j],
                    ) == plain_key(members[k]) && members[j].get("value"@).get("body"@) is Null)
                    ==> !d.eligible
            };
        assert(all.info.decls[i] == before.info.decls[i]);
    }
}

/// The methods of a constant object are declared as its members.
pub proof fn law_object_methods_are_declared(
    s: PreView,
    name: Seq<char>,
    props: Seq<JsonView>,
    n: int,
    k: int,
    exported: bool,
    src: Seq<char>,
)
    requires
        0 <= k < n <= props.len(),
        is_object_method(props[k]),
    ensures
        declares(
            with_object_methods(s, name, props, n, exported, src),
            decl_view(
                plain_key(props[k])->0,
                OwnerView::ObjectConst(name),
                props[k].get("value"@),
                props[k],
                exported,
                false,
                src,
            ),
        ),
    decreases n,
{
    let all = with_object_methods(s, name, props, n, exported, src);
    let before = with_object_methods(s, name, props, n - 1, exported, src);
    let want = decl_view(
        plain_key(props[k])->0,
        OwnerView::ObjectConst(name),
        props[k].get("value"@),
        props[k],
        exported,
        false,
        src,
    );
    if k == n - 1 {
        assert(all.info.decls[all.info.decls.len() - 1] == want);
    } else {
        law_object_methods_are_declared(s, name, props, n - 1, k, exported, src);
        let i = choose|i: int| 0 <= i < before.info.decls.len() && before.info.decls[i] == want;
        assert(all.info.decls[i] == want);
    }
}

// ---------------------------------------------------------------------------
// Nothing is exported unasked
// ---------------------------------------------------------------------------

/// Whether a statement exports nothing.
pub open spec fn exports_nothing(n: JsonView) -> bool {
    !n.is_kind("ExportNamedDeclaration"@) && !n.is_kind("ExportDefaultDeclaration"@)
}

/// Whether nothing is exported so far.
pub open spec fn unexported(s: PreView) -> bool {
    &&& forall|i: int| 0 <= i < s.info.decls.len() ==> !(#[trigger] s.info.decls[i]).exported
    &&& forall|name: Seq<char>| !(#[trigger] s.exported.contains(name))
    &&& s.info.default_export is None
}

proof fn lemma_methods_unexported(
    s: PreView,
    class: Seq<char>,
    members: Seq<JsonView>,
    k: int,
    src: Seq<char>,
)
    requires
        unexported(s),
    ensures
        unexported(with_methods(s, class, members, k, false, src)),
    decreases k,
{
    if k > 0 {
        lemma_methods_unexported(s, class, members, k - 1, src);
    }
}

proof fn lemma_object_methods_unexported(
    s: PreView,
    name: Seq<char>,
    props: Seq<JsonView>,
    k: int,
    src: Seq<char>,
)
    requires
        unexported(s),
    ensures
        unexported(with_object_methods(s, name, props, k, false, src)),
    decreases k,
{
    if k > 0 {
        lemma_object_methods_unexported(s, name, props, k - 1, src);
    }
}

proof fn lemma_variables_unexported(
    s: PreView,
    items: Seq<JsonView>,
    is_const: bool,
    src: Seq<char>,
    place: PlaceView,
)
    requires
        unexported(s),
    ensures
        unexported(with_variables(s, items, is_const, false, src, place)),
    decreases items.len(),
{
    if items.len() > 0 {
        lemma_variables_unexported(s, items.drop_last(), is_const, src, place);
        let before = with_variables(s, items.drop_last(), is_const, false, src, place);
        let d = items.last();
        let props = d.get("init"@).get("properties"@).items();
        lemma_object_methods_unexported(
            before,
            d.get("id"@).name(),
            props,
            props.len() as int,
            src,
        );
        assert(unexported(with_targets(before, d, is_const, false, src)));
    }
}

proof fn lemma_imports_unexported(s: PreView, items: Seq<JsonView>, path: Option<Seq<char>>)
    requires
        unexported(s),
    ensures
        unexported(with_import_specifiers(s, items, path)),
    decreases items.len(),
{
    if items.len() > 0 {
        lemma_imports_unexported(s, items.drop_last(), path);
    }
}

proof fn lemma_statements_unexported(
    s: PreView,
    items: Seq<JsonView>,
    src: Seq<char>,
    place: PlaceView,
)
    requires
        unexported(s),
        forall|i: int| 0 <= i < items.len() ==> exports_nothing(#[trigger] items[i]),
    ensures
        unexported(with_statements(s, items, src, place)),
    decreases items.len(),
{
    if items.len() > 0 {
        let front = items.drop_last();
        assert forall|i: int| 0 <= i < front.len() implies exports_nothing(
            #[trigger] front[i],
        ) by {
            assert(items[i] == front[i]);
        }
        lemma_statements_unexported(s, front, src, place);
        let before = with_statements(s, front, src, place);
        let n = items.last();
        assert(exports_nothing(items[items.len() - 1]));
        lemma_imports_unexported(
            before,
            n.get("specifiers"@).items(),
            place.resolve(n.get("source"@).get("value"@).text()),
        );
        lemma_variables_unexported(
            before,
            n.get("declarations"@).items(),
            n.get("kind"@).text() == "const"@,
            src,
            place,
        );
        if !(n.get("id"@) is Null) {
            let name = n.get("id"@).name();
            let members = n.get("body"@).get("body"@).items();
            lemma_methods_unexported(
                before.bound(name, BindingView::ClassDecl),
                name,
                members,
                members.len() as int,
                src,
            );
        }
    }
}

/// A module without export statements exports none of its functions.
pub proof fn law_nothing_is_exported_unasked(
    tree: JsonView,
    errors: nat,
    rel: Seq<char>,
    src: Seq<char>,
    place: PlaceView,
    d: int,
)
    requires
        forall|i: int|
            0 <= i < tree.get("body"@).items().len() ==> exports_nothing(
                #[trigger] tree.get("body"@).items()[i],
            ),
        0 <= d < module_facts(tree, errors, rel, src, place).decls.len(),
    ensures
        !module_facts(tree, errors, rel, src, place).decls[d].exported,
{
    let start = start_of(rel, errors, place);
    lemma_statements_unexported(start, tree.get("body"@).items(), src, place);
    let pre = module_level(tree, errors, rel, src, place);
    assert(unexported(pre));
    assert(finished_decls(pre)[d] == finished_decl(pre, d));
    assert(!pre.info.decls[d].exported);
    assert(!pre.exported.contains(home_name(pre.info.decls[d])));
}

// ---------------------------------------------------------------------------
// Imports and re-exports
// ---------------------------------------------------------------------------

/// What an import specifier binds its local name to: the name it imports, the
/// default export, or the whole module.
pub open spec fn imported_name(i: JsonView) -> Option<Seq<char>> {
    if i.is_kind("ImportSpecifier"@) {
        Some(export_name(i.get("imported"@)))
    } else if i.is_kind("ImportDefaultSpecifier"@) {
        Some("default"@)
    } else if i.is_kind("ImportNamespaceSpecifier"@) {
        Some("*"@)
    } else {
        None
    }
}

/// Each specifier of an import binds its local name, the last of a name counts.
pub proof fn law_imports_are_recorded(
    s: PreView,
    items: Seq<JsonView>,
    path: Option<Seq<char>>,
    k: int,
)
    requires
        0 <= k < items.len(),
        imported_name(items[k]) is Some,
        forall|j: int|
            k < j < items.len() ==> (#[trigger] items[j]).get("local"@).name() != items[k].get(
                "local"@,
            ).name(),
    ensures
        ({
            let after = with_import_specifiers(s, items, path);
            let local = items[k].get("local"@).name();
            &&& after.info.imports.contains_key(local)
            &&& after.info.imports[local] == (ImportView { path, name: imported_name(items[k])->0 })
            &&& after.scope.contains_key(local)
            &&& after.scope[local] == if items[k].is_kind("ImportNamespaceSpecifier"@) {
                BindingView::Namespace
            } else {
                BindingView::Import
            }
        }),
    decreases items.len(),
{
    lemma_specifier_kinds();
    if k < items.len() - 1 {
        let front = items.drop_last();
        assert(front[k] == items[k]);
        assert forall|j: int| k < j < front.len() implies (#[trigger] front[j]).get(
            "local"@,
        ).name() != front[k].get("local"@).name() by {
            assert(items[j] == front[j]);
        }
        law_imports_are_recorded(s, front, path, k);
        assert(items[items.len() - 1].get("local"@).name() != items[k].get("local"@).name());
    }
}

/// An import statement imports from the file that its source means.
pub proof fn law_import_statements(s: PreView, n: JsonView, src: Seq<char>, place: PlaceView)
    requires
        n.is_kind("ImportDeclaration"@),
    ensures
        with_statement(s, n, src, place) == with_import_specifiers(
            s,
            n.get("specifiers"@).items(),
            place.resolve(n.get("source"@).get("value"@).text()),
        ),
{
}

/// A re-export with a source hands on the name of that file under the exported
/// name; it exports nothing of the module itself.
pub proof fn law_reexports_are_recorded(
    s: PreView,
    items: Seq<JsonView>,
    path: Option<Seq<char>>,
    k: int,
)
    requires
        0 <= k < items.len(),
    ensures
        with_reexports(s, items, path).info.reexports_named.contains(
            ReExportView {
                exported: export_name(items[k].get("exported"@)),
                source: ImportView { path, name: export_name(items[k].get("local"@)) },
            },
        ),
        with_reexports(s, items, path).exported == s.exported,
    decreases items.len(),
{
    let front = items.drop_last();
    let all = with_reexports(s, items, path);
    let want = ReExportView {
        exported: export_name(items[k].get("exported"@)),
        source: ImportView { path, name: export_name(items[k].get("local"@)) },
    };
    if k < items.len() - 1 {
        assert(front[k] == items[k]);
        law_reexports_are_recorded(s, front, path, k);
        let before = with_reexports(s, front, path);
        let j = choose|j: int|
            0 <= j < before.info.reexports_named.len() && before.info.reexports_named[j] == want;
        assert(all.info.reexports_named[j] == want);
    } else {
        assert(all.info.reexports_named[all.info.reexports_named.len() - 1] == want);
        if front.len() > 0 {
            law_reexports_are_recorded(s, front, path, 0);
        }
    }
}

/// A re-export statement hands on from the file that its source means, and a
/// star re-export hands on all of it; one under a name hands on no names.
pub proof fn law_reexport_statements(s: PreView, n: JsonView, src: Seq<char>, place: PlaceView)
    ensures
        n.is_kind("ExportNamedDeclaration"@) && !(n.get("source"@) is Null) && n.get(
            "declaration"@,
        ) is Null ==> with_statement(s, n, src, place) == with_reexports(
            s,
            n.get("specifiers"@).items(),
            place.resolve(n.get("source"@).get("value"@).text()),
        ),
        n.is_kind("ExportAllDeclaration"@) && n.get("exported"@) is Null ==> with_statement(
            s,
            n,
            src,
            place,
        ).info.reexports_star == s.info.reexports_star.push(
            place.resolve(n.get("source"@).get("value"@).text()),
        ),
        n.is_kind("ExportAllDeclaration"@) && !(n.get("exported"@) is Null) ==> with_statement(
            s,
            n,
            src,
            place,
        ).info.reexports_star == s.info.reexports_star.push(None),
{
    lemma_statement_kinds();
}

/// `const x = require("./m")`, `import("./m")` and `await import("./m")` import
/// the whole module.
pub proof fn law_dynamic_imports_are_recorded(
    s: PreView,
    d: JsonView,
    is_const: bool,
    exported: bool,
    src: Seq<char>,
    place: PlaceView,
)
    requires
        d.get("id"@).is_kind("Identifier"@),
        dynamic_import(d.get("init"@)) is Some,
    ensures
        ({
            let after = with_variable(s, d, is_const, exported, src, place);
            let local = d.get("id"@).name();
            &&& after.info.imports.contains_key(local)
            &&& after.info.imports[local].path == place.resolve(dynamic_import(d.get("init"@))->0)
            &&& after.info.imports[local].name == "*"@
            &&& after.scope[local] == BindingView::Namespace
        }),
{
}

/// Which initializers import a module: a literal specifier in `import` or in a
/// `require` with that one argument, awaited or not.
pub proof fn law_dynamic_imports(e: JsonView, wrapped: JsonView, spec: Seq<char>)
    requires
        !e.is_kind("AwaitExpression"@),
        wrapped.is_kind("AwaitExpression"@),
        wrapped.get("argument"@) == e,
    ensures
        dynamic_import(wrapped) == dynamic_import(e),
        e.is_kind("ImportExpression"@) ==> dynamic_import(e) == string_value(e.get("source"@)),
        dynamic_import(e) is Some && !e.is_kind("ImportExpression"@) ==> e.is_kind(
            "CallExpression"@,
        ) && e.get("callee"@).is_kind("Identifier"@) && e.get("callee"@).name() == "require"@
            && e.get("arguments"@).items().len() == 1 && dynamic_import(e) == string_value(
            e.get("arguments"@).items()[0],
        ),
{
}

// ---------------------------------------------------------------------------
// Types
// ---------------------------------------------------------------------------

/// An alias stands for what it is declared as, unless it is generic or its
/// name is declared twice: then it is not modelled.
pub proof fn law_aliases_are_recorded(s: PreView, n: JsonView, src: Seq<char>, place: PlaceView)
    requires
        n.is_kind("TSTypeAliasDeclaration"@),
    ensures
        ({
            let after = with_statement(s, n, src, place).info.type_aliases;
            let name = n.get("id"@).name();
            &&& after.contains_key(name)
            &&& if n.get("typeParameters"@) is Null && !s.info.type_aliases.contains_key(name) {
                after[name] == type_expr(n.get("typeAnnotation"@), src, 0)
            } else {
                after[name] is Opaque
            }
            &&& forall|other: Seq<char>|
                other != name && s.info.type_aliases.contains_key(other) ==> after.contains_key(
                    other,
                ) && #[trigger] after[other] == s.info.type_aliases[other]
        }),
{
    lemma_statement_kinds();
}

/// An interface stands for the object of its properties, unless it is generic,
/// extends another or is declared twice.
pub proof fn law_interfaces_are_recorded(s: PreView, n: JsonView, src: Seq<char>, place: PlaceView)
    requires
        n.is_kind("TSInterfaceDeclaration"@),
    ensures
        ({
            let after = with_statement(s, n, src, place).info.type_aliases;
            let name = n.get("id"@).name();
            &&& after.contains_key(name)
            &&& if n.get("typeParameters"@) is Null && n.get("extends"@).items().len() == 0
                && !s.info.type_aliases.contains_key(name) {
                after[name] == object_type(n.get("body"@).get("body"@).items(), src, 0)
            } else {
                after[name] is Opaque
            }
        }),
{
    lemma_statement_kinds();
}

proof fn lemma_member_is_named(items: Seq<JsonView>, k: int)
    requires
        0 <= k < items.len(),
        !items[k].get("computed"@).is_true(),
        items[k].get("id"@).is_kind("Identifier"@),
    ensures
        member_names(items).contains(items[k].get("id"@).name()),
    decreases items.len(),
{
    let all = member_names(items);
    let before = member_names(items.drop_last());
    if k == items.len() - 1 {
        assert(all[before.len() as int] == items[k].get("id"@).name());
    } else {
        assert(items.drop_last()[k] == items[k]);
        lemma_member_is_named(items.drop_last(), k);
        let j = choose|j: int|
            0 <= j < before.len() && before[j] == items[k].get("id"@).name();
        assert(all[j] == before[j]);
    }
}

/// An enum has the members that it declares, together with those of earlier
/// declarations of its name.
pub proof fn law_enums_are_recorded(
    s: PreView,
    n: JsonView,
    src: Seq<char>,
    place: PlaceView,
    k: int,
    old: Seq<char>,
)
    requires
        n.is_kind("TSEnumDeclaration"@),
        0 <= k < n.get("body"@).get("members"@).items().len(),
        !n.get("body"@).get("members"@).items()[k].get("computed"@).is_true(),
        n.get("body"@).get("members"@).items()[k].get("id"@).is_kind("Identifier"@),
    ensures
        ({
            let after = with_statement(s, n, src, place);
            let name = n.get("id"@).name();
            &&& after.info.enums.contains_key(name)
            &&& after.info.enums[name].contains(
                n.get("body"@).get("members"@).items()[k].get("id"@).name(),
            )
            &&& s.info.enums.contains_key(name) && s.info.enums[name].contains(old)
                ==> after.info.enums[name].contains(old)
            &&& after.scope[name] == BindingView::EnumDecl
        }),
{
    lemma_statement_kinds();
    let items = n.get("body"@).get("members"@).items();
    lemma_member_is_named(items, k);
    let after = with_statement(s, n, src, place).info.enums[n.get("id"@).name()];
    let name = n.get("id"@).name();
    let known = if s.info.enums.contains_key(name) {
        s.info.enums[name]
    } else {
        Seq::empty()
    };
    let more = member_names(items);
    assert(after == known + more);
    let j = choose|j: int| 0 <= j < more.len() && more[j] == items[k].get("id"@).name();
    assert(after[known.len() + j] == more[j]);
    if s.info.enums.contains_key(name) && s.info.enums[name].contains(old) {
        let q = choose|q: int| 0 <= q < known.len() && known[q] == old;
        assert(after[q] == old);
    }
}

} // verus!

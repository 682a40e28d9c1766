//! Lookups end for want of new steps alone: the number of steps they may take
//! is never in the way.

use vstd::prelude::*;

use crate::json::JsonView;
use crate::model::{blank_module, ImportView, ModuleView, ReExportView};
use crate::path::has_extension;
use crate::prepass::{
    with_class, with_declaration, with_exports, with_import_specifiers, with_methods,
    with_object_methods, with_reexports, with_statements, with_variables, PlaceView, PreView,
};
use crate::project::{all_facts, FileView};
use crate::report::project_of;
use crate::resolve::{
    all_steps, defines, find_definition, find_in_stars, find_reexport, handed_on, import_module,
    mention_steps, next_step, route, star_module, Key, NameKind, ProjectView,
};
use crate::scope::BindingView;
use crate::syntax::{parser_output, tree_in};
use crate::workspace::SpecView;

verus! {

// ---------------------------------------------------------------------------
// The names and the steps that a lookup may come to
// ---------------------------------------------------------------------------

/// The names that imports hand on.
pub open spec fn import_names(m: ModuleView) -> Set<Seq<char>> {
    m.imports.dom().map(|k: Seq<char>| m.imports[k].name)
}

/// The names that named re-exports hand on.
pub open spec fn reexport_names(m: ModuleView) -> Set<Seq<char>> {
    m.reexports_named.map_values(|r: ReExportView| r.source.name).to_set()
}

/// The names that a module hands on.
pub open spec fn own_names(m: ModuleView) -> Set<Seq<char>> {
    import_names(m).union(reexport_names(m)).insert(m.default_export->0)
}

/// The names that modules hand on, and the one that is sought.
pub open spec fn pool(ms: Seq<ModuleView>, sought: Seq<char>) -> Set<Seq<char>>
    decreases ms.len(),
{
    if ms.len() == 0 {
        Set::empty().insert(sought)
    } else {
        pool(ms.drop_last(), sought).union(own_names(ms.last()))
    }
}

/// The steps through the first `n` modules.
pub open spec fn steps(n: int, names: Set<Seq<char>>) -> Set<Key>
    decreases n,
{
    if n <= 0 {
        Set::empty()
    } else {
        steps(n - 1, names).union(names.map(|x: Seq<char>| ((n - 1) as usize, x)))
    }
}

/// Whether every module has finitely many imports.
pub open spec fn imports_finite(ms: Seq<ModuleView>) -> bool {
    forall|i: int| 0 <= i < ms.len() ==> (#[trigger] ms[i]).imports.dom().finite()
}

proof fn lemma_own_names(m: ModuleView)
    requires
        m.imports.dom().finite(),
    ensures
        own_names(m).finite(),
        own_names(m).len() <= 1 + m.imports.len() + m.reexports_named.len(),
{
    broadcast use vstd::set::group_set_axioms;

    let a = import_names(m);
    let list = m.reexports_named.map_values(|r: ReExportView| r.source.name);
    vstd::set_lib::lemma_map_size_bound(
        m.imports.dom(),
        a,
        |k: Seq<char>| m.imports[k].name,
    );
    vstd::seq_lib::seq_to_set_is_finite(list);
    list.lemma_cardinality_of_set();
    vstd::set_lib::lemma_len_union(a, reexport_names(m));
    assert(a.union(reexport_names(m)).finite());
}

proof fn lemma_pool(ms: Seq<ModuleView>, sought: Seq<char>)
    requires
        imports_finite(ms),
    ensures
        pool(ms, sought).finite(),
        pool(ms, sought).len() <= 1 + handed_on(ms),
        pool(ms, sought).contains(sought),
    decreases ms.len(),
{
    broadcast use vstd::set::group_set_axioms;

    if ms.len() > 0 {
        assert(imports_finite(ms.drop_last())) by {
            assert forall|i: int| 0 <= i < ms.drop_last().len() implies (
            #[trigger] ms.drop_last()[i]).imports.dom().finite() by {
                assert(ms.drop_last()[i] == ms[i]);
            }
        }
        lemma_pool(ms.drop_last(), sought);
        assert(ms[ms.len() - 1].imports.dom().finite());
        lemma_own_names(ms.last());
        vstd::set_lib::lemma_len_union(pool(ms.drop_last(), sought), own_names(ms.last()));
    }
}

/// What a module hands on is in the pool.
proof fn lemma_in_pool(ms: Seq<ModuleView>, sought: Seq<char>, i: int, name: Seq<char>)
    requires
        0 <= i < ms.len(),
        own_names(ms[i]).contains(name),
    ensures
        pool(ms, sought).contains(name),
    decreases ms.len(),
{
    if i < ms.len() - 1 {
        assert(ms.drop_last()[i] == ms[i]);
        lemma_in_pool(ms.drop_last(), sought, i, name);
    }
}

proof fn lemma_import_name(m: ModuleView, local: Seq<char>)
    requires
        m.imports.contains_key(local),
    ensures
        own_names(m).contains(m.imports[local].name),
{
    let f = |k: Seq<char>| m.imports[k].name;
    assert(m.imports.dom().contains(local));
    assert(f(local) == m.imports[local].name);
    assert(import_names(m).contains(f(local)));
}

proof fn lemma_reexport_source(list: Seq<ReExportView>, name: Seq<char>) -> (i: int)
    requires
        find_reexport(list, name) is Some,
    ensures
        0 <= i < list.len(),
        find_reexport(list, name) == Some(list[i].source),
    decreases list.len(),
{
    if list.last().exported == name {
        list.len() - 1
    } else {
        lemma_reexport_source(list.drop_last(), name)
    }
}

proof fn lemma_reexport_name(m: ModuleView, name: Seq<char>)
    requires
        find_reexport(m.reexports_named, name) is Some,
    ensures
        own_names(m).contains(find_reexport(m.reexports_named, name)->0.name),
{
    let i = lemma_reexport_source(m.reexports_named, name);
    let list = m.reexports_named.map_values(|r: ReExportView| r.source.name);
    assert(list[i] == m.reexports_named[i].source.name);
    assert(list.to_set().contains(list[i]));
}

proof fn lemma_steps(n: int, names: Set<Seq<char>>)
    requires
        0 <= n <= usize::MAX,
        names.finite(),
    ensures
        steps(n, names).finite(),
        steps(n, names).len() <= n * names.len(),
        forall|mid: usize, x: Seq<char>|
            mid < n && names.contains(x) ==> #[trigger] steps(n, names).contains((mid, x)),
    decreases n,
{
    if n > 0 {
        lemma_steps(n - 1, names);
        let f = |x: Seq<char>| ((n - 1) as usize, x);
        let here = names.map(f);
        vstd::set_lib::lemma_map_size_bound(names, here, f);
        vstd::set_lib::lemma_len_union(steps(n - 1, names), here);
        assert(n * names.len() == (n - 1) * names.len() + names.len()) by (nonlinear_arith);
        assert forall|mid: usize, x: Seq<char>| mid < n && names.contains(x) implies
            #[trigger] steps(n, names).contains((mid, x)) by {
            if mid == n - 1 {
                assert(f(x) == (mid, x));
                assert(here.contains(f(x)));
            } else {
                assert(steps(n - 1, names).contains((mid, x)));
            }
        }
    } else {
        assert(0 * names.len() == 0) by (nonlinear_arith);
    }
}

/// Whether the steps taken are steps through the modules, none taken twice.
pub open spec fn taken(p: ProjectView, sought: Seq<char>, seen: Seq<Key>) -> bool {
    &&& seen.no_duplicates()
    &&& forall|i: int|
        0 <= i < seen.len() ==> (#[trigger] seen[i]).0 < p.modules.len() && pool(
            p.modules,
            sought,
        ).contains(seen[i].1)
}

/// There is room for a new step.
proof fn lemma_room(p: ProjectView, sought: Seq<char>, seen: Seq<Key>, mid: usize, name: Seq<char>)
    requires
        p.modules.len() <= usize::MAX,
        imports_finite(p.modules),
        p.limit >= all_steps(p.modules),
        taken(p, sought, seen),
        mid < p.modules.len(),
        pool(p.modules, sought).contains(name),
        !seen.contains((mid, name)),
    ensures
        seen.len() < p.limit,
        taken(p, sought, seen.push((mid, name))),
{
    let more = seen.push((mid, name));
    let names = pool(p.modules, sought);
    let n = p.modules.len() as int;
    assert(more.no_duplicates()) by {
        assert forall|i: int, j: int| 0 <= i < more.len() && 0 <= j < more.len() && i != j implies
            more[i] != more[j] by {
            if i == seen.len() {
                assert(seen.contains(seen[j]));
            } else if j == seen.len() {
                assert(seen.contains(seen[i]));
            }
        }
    }
    assert(taken(p, sought, more));
    lemma_pool(p.modules, sought);
    lemma_steps(n, names);
    assert(more.to_set().subset_of(steps(n, names))) by {
        assert forall|k: Key| more.to_set().contains(k) implies steps(n, names).contains(k) by {
            let i = choose|i: int| 0 <= i < more.len() && more[i] == k;
            assert(more[i].0 < p.modules.len() && names.contains(more[i].1));
            assert(steps(n, names).contains((k.0, k.1)));
        }
    }
    vstd::set_lib::lemma_len_subset(more.to_set(), steps(n, names));
    more.unique_seq_to_set();
    assert(n * names.len() <= n * (1 + handed_on(p.modules))) by (nonlinear_arith)
        requires
            names.len() <= 1 + handed_on(p.modules),
            n >= 0,
    ;
}

// ---------------------------------------------------------------------------
// The limit is idle
// ---------------------------------------------------------------------------

pub open spec fn with_limit(p: ProjectView, limit: nat) -> ProjectView {
    ProjectView { limit, ..p }
}

proof fn lemma_lookup(
    p: ProjectView,
    limit: nat,
    sought: Seq<char>,
    mid: usize,
    name: Seq<char>,
    kind: NameKind,
    seen: Seq<Key>,
)
    requires
        p.modules.len() <= usize::MAX,
        imports_finite(p.modules),
        all_steps(p.modules) <= p.limit <= limit,
        taken(p, sought, seen),
        pool(p.modules, sought).contains(name),
    ensures
        find_definition(p, mid, name, kind, seen) == find_definition(
            with_limit(p, limit),
            mid,
            name,
            kind,
            seen,
        ),
    decreases p.limit - seen.len(), 0int,
{
    let q = with_limit(p, limit);
    if mid < p.modules.len() && !seen.contains((mid, name)) {
        lemma_room(p, sought, seen, mid, name);
        let m = p.modules[mid as int];
        let seen2 = seen.push((mid, name));
        if defines(m, name, kind) {
        } else if name == "default"@ && m.default_export is Some {
            assert(own_names(m).contains(m.default_export->0));
            lemma_in_pool(p.modules, sought, mid as int, m.default_export->0);
            lemma_lookup(p, limit, sought, mid, m.default_export->0, kind, seen2);
        } else if m.imports.contains_key(name) {
            lemma_import_name(m, name);
            lemma_source(p, limit, sought, mid, m.imports[name], kind, seen2);
        } else if find_reexport(m.reexports_named, name) is Some {
            lemma_reexport_name(m, name);
            lemma_source(
                p,
                limit,
                sought,
                mid,
                find_reexport(m.reexports_named, name)->0,
                kind,
                seen2,
            );
        } else if name != "default"@ {
            lemma_lookup_in_stars(p, limit, sought, m.reexports_star, name, kind, seen2);
        }
    }
}

proof fn lemma_source(
    p: ProjectView,
    limit: nat,
    sought: Seq<char>,
    mid: usize,
    source: ImportView,
    kind: NameKind,
    seen: Seq<Key>,
)
    requires
        p.modules.len() <= usize::MAX,
        imports_finite(p.modules),
        all_steps(p.modules) <= p.limit <= limit,
        taken(p, sought, seen),
        mid < p.modules.len(),
        own_names(p.modules[mid as int]).contains(source.name),
    ensures
        source.path is Some && p.by_path.contains_key(source.path->0) ==> find_definition(
            p,
            p.by_path[source.path->0],
            source.name,
            kind,
            seen,
        ) == find_definition(
            with_limit(p, limit),
            p.by_path[source.path->0],
            source.name,
            kind,
            seen,
        ),
    decreases p.limit - seen.len(), 1int,
{
    lemma_in_pool(p.modules, sought, mid as int, source.name);
    if source.path is Some && p.by_path.contains_key(source.path->0) {
        lemma_lookup(p, limit, sought, p.by_path[source.path->0], source.name, kind, seen);
    }
}

proof fn lemma_lookup_in_stars(
    p: ProjectView,
    limit: nat,
    sought: Seq<char>,
    stars: Seq<Option<Seq<char>>>,
    name: Seq<char>,
    kind: NameKind,
    seen: Seq<Key>,
)
    requires
        p.modules.len() <= usize::MAX,
        imports_finite(p.modules),
        all_steps(p.modules) <= p.limit <= limit,
        taken(p, sought, seen),
        pool(p.modules, sought).contains(name),
    ensures
        find_in_stars(p, stars, name, kind, seen) == find_in_stars(
            with_limit(p, limit),
            stars,
            name,
            kind,
            seen,
        ),
    decreases p.limit - seen.len(), 1 + stars.len(),
{
    if stars.len() > 0 {
        lemma_lookup_in_stars(p, limit, sought, stars.drop_last(), name, kind, seen);
        if stars.last() is Some && p.by_path.contains_key(stars.last()->0) {
            lemma_lookup(p, limit, sought, p.by_path[stars.last()->0], name, kind, seen);
        }
    }
}

/// However long a chain of imports and re-exports is, it is followed to its
/// end: a lookup that may take as many steps as there are finds what one with
/// any larger limit finds.
pub proof fn law_chains_are_followed(
    p: ProjectView,
    limit: nat,
    mid: usize,
    name: Seq<char>,
    kind: NameKind,
)
    requires
        p.modules.len() <= usize::MAX,
        imports_finite(p.modules),
        all_steps(p.modules) <= p.limit <= limit,
    ensures
        find_definition(p, mid, name, kind, Seq::empty()) == find_definition(
            with_limit(p, limit),
            mid,
            name,
            kind,
            Seq::empty(),
        ),
{
    lemma_pool(p.modules, name);
    lemma_lookup(p, limit, name, mid, name, kind, Seq::empty());
}

proof fn lemma_star_modules_agree(
    p: ProjectView,
    limit: nat,
    sought: Seq<char>,
    stars: Seq<Option<Seq<char>>>,
    name: Seq<char>,
    seen: Seq<Key>,
)
    requires
        p.modules.len() <= usize::MAX,
        imports_finite(p.modules),
        all_steps(p.modules) <= p.limit <= limit,
        taken(p, sought, seen),
        pool(p.modules, sought).contains(name),
    ensures
        star_module(p, stars, name, seen) == star_module(with_limit(p, limit), stars, name, seen),
    decreases stars.len(),
{
    if stars.len() > 0 {
        lemma_star_modules_agree(p, limit, sought, stars.drop_last(), name, seen);
        if stars.last() is Some && p.by_path.contains_key(stars.last()->0) {
            lemma_lookup(
                p,
                limit,
                sought,
                p.by_path[stars.last()->0],
                name,
                NameKind::Type,
                seen,
            );
        }
    }
}

proof fn lemma_routes_agree(
    p: ProjectView,
    limit: nat,
    sought: Seq<char>,
    mid: usize,
    name: Seq<char>,
    seen: Seq<Key>,
)
    requires
        p.modules.len() <= usize::MAX,
        imports_finite(p.modules),
        all_steps(p.modules) <= p.limit <= limit,
        taken(p, sought, seen),
        pool(p.modules, sought).contains(name),
    ensures
        route(p, mid, name, seen) == route(with_limit(p, limit), mid, name, seen),
    decreases p.limit - seen.len(),
{
    if mid < p.modules.len() && !seen.contains((mid, name)) {
        lemma_room(p, sought, seen, mid, name);
        let m = p.modules[mid as int];
        let seen2 = seen.push((mid, name));
        lemma_star_modules_agree(p, limit, sought, m.reexports_star, name, seen2);
        if m.default_export is Some {
            assert(own_names(m).contains(m.default_export->0));
            lemma_in_pool(p.modules, sought, mid as int, m.default_export->0);
        }
        if m.imports.contains_key(name) {
            lemma_import_name(m, name);
            lemma_in_pool(p.modules, sought, mid as int, m.imports[name].name);
        }
        if find_reexport(m.reexports_named, name) is Some {
            lemma_reexport_name(m, name);
            lemma_in_pool(
                p.modules,
                sought,
                mid as int,
                find_reexport(m.reexports_named, name)->0.name,
            );
        }
        if let Some((m2, n2)) = next_step(p, mid, name, seen2) {
            lemma_routes_agree(p, limit, sought, m2, n2, seen2);
        }
    }
}

/// However long the chain behind a mention of a type is, the steps of the
/// mention are those with any larger limit.
pub proof fn law_mentions_are_followed(p: ProjectView, limit: nat, mid: usize, name: Seq<char>)
    requires
        p.modules.len() <= usize::MAX,
        imports_finite(p.modules),
        all_steps(p.modules) <= p.limit <= limit,
    ensures
        mention_steps(p, mid, name) == mention_steps(with_limit(p, limit), mid, name),
{
    if let Some(m2) = import_module(p, mid, name) {
        let n2 = p.modules[mid as int].imports[name].name;
        lemma_pool(p.modules, n2);
        lemma_routes_agree(p, limit, n2, m2, n2, Seq::empty());
    }
}

// ---------------------------------------------------------------------------
// Modules that are read from sources
// ---------------------------------------------------------------------------

proof fn lemma_methods_import_nothing(
    s: PreView,
    class: Seq<char>,
    members: Seq<JsonView>,
    k: int,
    exported: bool,
    src: Seq<char>,
)
    ensures
        with_methods(s, class, members, k, exported, src).info.imports == s.info.imports,
    decreases k,
{
    if k > 0 {
        lemma_methods_import_nothing(s, class, members, k - 1, exported, src);
    }
}

proof fn lemma_object_methods_import_nothing(
    s: PreView,
    name: Seq<char>,
    props: Seq<JsonView>,
    k: int,
    exported: bool,
    src: Seq<char>,
)
    ensures
        with_object_methods(s, name, props, k, exported, src).info.imports == s.info.imports,
    decreases k,
{
    if k > 0 {
        lemma_object_methods_import_nothing(s, name, props, k - 1, exported, src);
    }
}

proof fn lemma_class_imports_nothing(s: PreView, c: JsonView, exported: bool, src: Seq<char>)
    ensures
        with_class(s, c, exported, src).info.imports == s.info.imports,
{
    let name = c.get("id"@).name();
    let members = c.get("body"@).get("body"@).items();
    lemma_methods_import_nothing(
        s.bound(name, BindingView::ClassDecl),
        name,
        members,
        members.len() as int,
        exported,
        src,
    );
}

proof fn lemma_variables_finite(
    s: PreView,
    items: Seq<JsonView>,
    is_const: bool,
    exported: bool,
    src: Seq<char>,
    place: PlaceView,
)
    requires
        s.info.imports.dom().finite(),
    ensures
        with_variables(s, items, is_const, exported, src, place).info.imports.dom().finite(),
    decreases items.len(),
{
    if items.len() > 0 {
        lemma_variables_finite(s, items.drop_last(), is_const, exported, src, place);
        let before = with_variables(s, items.drop_last(), is_const, exported, src, place);
        let d = items.last();
        let props = d.get("init"@).get("properties"@).items();
        lemma_object_methods_import_nothing(
            before,
            d.get("id"@).name(),
            props,
            props.len() as int,
            exported,
            src,
        );
    }
}

proof fn lemma_declaration_finite(
    s: PreView,
    n: JsonView,
    exported: bool,
    src: Seq<char>,
    place: PlaceView,
)
    requires
        s.info.imports.dom().finite(),
    ensures
        with_declaration(s, n, exported, src, place).info.imports.dom().finite(),
{
    lemma_variables_finite(
        s,
        n.get("declarations"@).items(),
        n.get("kind"@).text() == "const"@,
        exported,
        src,
        place,
    );
    lemma_class_imports_nothing(s, n, exported, src);
}

proof fn lemma_import_specifiers_finite(
    s: PreView,
    items: Seq<JsonView>,
    path: Option<Seq<char>>,
)
    requires
        s.info.imports.dom().finite(),
    ensures
        with_import_specifiers(s, items, path).info.imports.dom().finite(),
    decreases items.len(),
{
    if items.len() > 0 {
        lemma_import_specifiers_finite(s, items.drop_last(), path);
    }
}

proof fn lemma_reexports_import_nothing(s: PreView, items: Seq<JsonView>, path: Option<Seq<char>>)
    ensures
        with_reexports(s, items, path).info.imports == s.info.imports,
    decreases items.len(),
{
    if items.len() > 0 {
        lemma_reexports_import_nothing(s, items.drop_last(), path);
    }
}

proof fn lemma_exports_import_nothing(s: PreView, items: Seq<JsonView>, path: Seq<char>)
    ensures
        with_exports(s, items, path).info.imports == s.info.imports,
    decreases items.len(),
{
    if items.len() > 0 {
        lemma_exports_import_nothing(s, items.drop_last(), path);
    }
}

proof fn lemma_statements_finite(
    s: PreView,
    items: Seq<JsonView>,
    src: Seq<char>,
    place: PlaceView,
)
    requires
        s.info.imports.dom().finite(),
    ensures
        with_statements(s, items, src, place).info.imports.dom().finite(),
    decreases items.len(),
{
    if items.len() > 0 {
        lemma_statements_finite(s, items.drop_last(), src, place);
        let before = with_statements(s, items.drop_last(), src, place);
        let n = items.last();
        let list = n.get("specifiers"@).items();
        let source = n.get("source"@).get("value"@).text();
        lemma_import_specifiers_finite(before, list, place.resolve(source));
        lemma_reexports_import_nothing(before, list, place.resolve(source));
        lemma_exports_import_nothing(before, list, place.path);
        lemma_declaration_finite(before, n, false, src, place);
        lemma_declaration_finite(
            with_exports(before, list, place.path),
            n.get("declaration"@),
            true,
            src,
            place,
        );
        lemma_declaration_finite(
            with_reexports(before, list, place.resolve(source)),
            n.get("declaration"@),
            true,
            src,
            place,
        );
        lemma_class_imports_nothing(before, n.get("declaration"@), true, src);
    }
}

proof fn lemma_facts_finite(fs: Seq<FileView>, specs: SpecView, existing: Set<Seq<char>>)
    ensures
        imports_finite(all_facts(fs, specs, existing)),
{
    assert forall|i: int| 0 <= i < fs.len() implies (#[trigger] all_facts(
        fs,
        specs,
        existing,
    )[i]).imports.dom().finite() by {
        let f = fs[i];
        let out = tree_in(parser_output(f.text, has_extension(f.path, ".tsx"@)));
        let place = PlaceView { path: f.path, specs, existing };
        lemma_statements_finite(
            PreView {
                info: blank_module(f.path, f.rel, out.1),
                scope: Map::empty(),
                exported: Set::empty(),
                bodyless: Set::empty(),
            },
            out.0.get("body"@).items(),
            f.text,
            place,
        );
    }
}

/// In a project that is read from sources a lookup is cut short by no limit,
/// as long as its steps can be counted.
pub proof fn law_project_chains_are_followed(
    fs: Seq<FileView>,
    specs: SpecView,
    existing: Set<Seq<char>>,
    limit: nat,
    mid: usize,
    name: Seq<char>,
    kind: NameKind,
)
    requires
        fs.len() <= usize::MAX,
        all_steps(all_facts(fs, specs, existing)) <= usize::MAX,
        limit >= all_steps(all_facts(fs, specs, existing)),
    ensures
        find_definition(
            project_of(all_facts(fs, specs, existing)),
            mid,
            name,
            kind,
            Seq::empty(),
        ) == find_definition(
            with_limit(project_of(all_facts(fs, specs, existing)), limit),
            mid,
            name,
            kind,
            Seq::empty(),
        ),
{
    lemma_facts_finite(fs, specs, existing);
    law_chains_are_followed(
        project_of(all_facts(fs, specs, existing)),
        limit,
        mid,
        name,
        kind,
    );
}

} // verus!

//! The files that the imports of a module may mean: what has to be looked up
//! before the module can be extracted.

use vstd::prelude::*;

use crate::extract::{module_facts, module_level};
use crate::json::{Json, JsonView};
use crate::model::{blank_module, views};
use crate::prepass::{
    dynamic_import, dynamic_import_specifier, with_declaration, with_statement, with_statements,
    with_exports, with_reexports, with_variables, PlaceView, PreView,
};
use crate::specifier::{candidate_files, first_existing, import_candidates};
use crate::syntax::Parsed;
use crate::workspace::{SpecView, SpecifierMap};

verus! {

/// The specifiers of the modules that variables import dynamically.
pub open spec fn variable_specifiers(items: Seq<JsonView>) -> Seq<Seq<char>>
    decreases items.len(),
{
    if items.len() == 0 {
        Seq::empty()
    } else {
        let before = variable_specifiers(items.drop_last());
        let d = items.last();
        if d.get("id"@).is_kind("Identifier"@) && dynamic_import(d.get("init"@)) is Some {
            before.push(dynamic_import(d.get("init"@))->0)
        } else {
            before
        }
    }
}

/// The specifiers in a declaration.
pub open spec fn declaration_specifiers(n: JsonView) -> Seq<Seq<char>> {
    if n.is_kind("VariableDeclaration"@) {
        variable_specifiers(n.get("declarations"@).items())
    } else {
        Seq::empty()
    }
}

/// The specifiers in a statement.
pub open spec fn statement_specifiers(n: JsonView) -> Seq<Seq<char>> {
    let source = n.get("source"@).get("value"@).text();
    if n.is_kind("ImportDeclaration"@) {
        seq![source]
    } else if n.is_kind("ExportNamedDeclaration"@) {
        (if n.get("source"@) is Null {
            Seq::empty()
        } else {
            seq![source]
        }) + declaration_specifiers(n.get("declaration"@))
    } else if n.is_kind("ExportAllDeclaration"@) {
        if n.get("exported"@) is Null {
            seq![source]
        } else {
            Seq::empty()
        }
    } else {
        declaration_specifiers(n)
    }
}

pub open spec fn all_specifiers(items: Seq<JsonView>) -> Seq<Seq<char>>
    decreases items.len(),
{
    if items.len() == 0 {
        Seq::empty()
    } else {
        all_specifiers(items.drop_last()) + statement_specifiers(items.last())
    }
}

/// The files that the specifiers of a module may mean.
pub open spec fn files_for(specifiers: Seq<Seq<char>>, path: Seq<char>, m: SpecView) -> Seq<
    Seq<char>,
>
    decreases specifiers.len(),
{
    if specifiers.len() == 0 {
        Seq::empty()
    } else {
        files_for(specifiers.drop_last(), path, m) + import_candidates(path, specifiers.last(), m)
    }
}

/// The files that the imports of a tree may mean.
pub open spec fn import_files_of(tree: JsonView, path: Seq<char>, m: SpecView) -> Seq<Seq<char>> {
    files_for(all_specifiers(tree.get("body"@).items()), path, m)
}

/// Whether two sets agree on which of the files exist.
pub open spec fn agree_on(files: Seq<Seq<char>>, a: Set<Seq<char>>, b: Set<Seq<char>>) -> bool {
    forall|i: int|
        0 <= i < files.len() ==> a.contains(#[trigger] files[i]) == b.contains(files[i])
}

/// Whether specifiers resolve to the same files at two places.
spec fn resolve_alike(specifiers: Seq<Seq<char>>, p: PlaceView, q: PlaceView) -> bool {
    forall|i: int|
        0 <= i < specifiers.len() ==> p.resolve(#[trigger] specifiers[i]) == q.resolve(
            specifiers[i],
        )
}

proof fn lemma_first_alike(files: Seq<Seq<char>>, a: Set<Seq<char>>, b: Set<Seq<char>>)
    requires
        agree_on(files, a, b),
    ensures
        first_existing(files, a) == first_existing(files, b),
    decreases files.len(),
{
    if files.len() > 0 {
        assert(a.contains(files[0]) == b.contains(files[0]));
        let rest = files.drop_first();
        assert(agree_on(rest, a, b)) by {
            assert forall|i: int| 0 <= i < rest.len() implies a.contains(#[trigger] rest[i])
                == b.contains(rest[i]) by {
                assert(rest[i] == files[i + 1]);
            }
        }
        lemma_first_alike(rest, a, b);
    }
}

proof fn lemma_specifiers_alike(specifiers: Seq<Seq<char>>, p: PlaceView, q: PlaceView)
    requires
        p.path == q.path,
        p.specs == q.specs,
        agree_on(files_for(specifiers, p.path, p.specs), p.existing, q.existing),
    ensures
        resolve_alike(specifiers, p, q),
    decreases specifiers.len(),
{
    if specifiers.len() > 0 {
        let shorter = specifiers.drop_last();
        let before = files_for(shorter, p.path, p.specs);
        let last = import_candidates(p.path, specifiers.last(), p.specs);
        let all = files_for(specifiers, p.path, p.specs);
        assert(agree_on(before, p.existing, q.existing)) by {
            assert forall|i: int| 0 <= i < before.len() implies p.existing.contains(
                #[trigger] before[i],
            ) == q.existing.contains(before[i]) by {
                assert(all[i] == before[i]);
            }
        }
        assert(agree_on(last, p.existing, q.existing)) by {
            assert forall|i: int| 0 <= i < last.len() implies p.existing.contains(
                #[trigger] last[i],
            ) == q.existing.contains(last[i]) by {
                assert(all[before.len() + i] == last[i]);
            }
        }
        lemma_specifiers_alike(shorter, p, q);
        lemma_first_alike(last, p.existing, q.existing);
        assert forall|i: int| 0 <= i < specifiers.len() implies p.resolve(
            #[trigger] specifiers[i],
        ) == q.resolve(specifiers[i]) by {
            if i < shorter.len() {
                assert(shorter[i] == specifiers[i]);
            }
        }
    }
}

proof fn lemma_variables_alike(
    s: PreView,
    items: Seq<JsonView>,
    is_const: bool,
    exported: bool,
    src: Seq<char>,
    p: PlaceView,
    q: PlaceView,
)
    requires
        resolve_alike(variable_specifiers(items), p, q),
    ensures
        with_variables(s, items, is_const, exported, src, p) == with_variables(
            s,
            items,
            is_const,
            exported,
            src,
            q,
        ),
    decreases items.len(),
{
    if items.len() > 0 {
        let all = variable_specifiers(items);
        let before = variable_specifiers(items.drop_last());
        assert(resolve_alike(before, p, q)) by {
            assert forall|i: int| 0 <= i < before.len() implies p.resolve(#[trigger] before[i])
                == q.resolve(before[i]) by {
                assert(all[i] == before[i]);
            }
        }
        lemma_variables_alike(s, items.drop_last(), is_const, exported, src, p, q);
        if all.len() > before.len() {
            assert(p.resolve(all[before.len() as int]) == q.resolve(all[before.len() as int]));
        }
    }
}

proof fn lemma_declaration_alike(
    s: PreView,
    n: JsonView,
    exported: bool,
    src: Seq<char>,
    p: PlaceView,
    q: PlaceView,
)
    requires
        resolve_alike(declaration_specifiers(n), p, q),
    ensures
        with_declaration(s, n, exported, src, p) == with_declaration(s, n, exported, src, q),
{
    if n.is_kind("VariableDeclaration"@) {
        lemma_variables_alike(
            s,
            n.get("declarations"@).items(),
            n.get("kind"@).text() == "const"@,
            exported,
            src,
            p,
            q,
        );
    }
}

proof fn lemma_statement_alike(
    s: PreView,
    n: JsonView,
    src: Seq<char>,
    p: PlaceView,
    q: PlaceView,
)
    requires
        p.path == q.path,
        resolve_alike(statement_specifiers(n), p, q),
    ensures
        with_statement(s, n, src, p) == with_statement(s, n, src, q),
{
    let all = statement_specifiers(n);
    if all.len() > 0 {
        assert(p.resolve(all[0]) == q.resolve(all[0]));
    }
    if n.is_kind("ImportDeclaration"@) {
    } else if n.is_kind("ExportNamedDeclaration"@) {
        let inner = declaration_specifiers(n.get("declaration"@));
        let skip = all.len() - inner.len();
        assert(resolve_alike(inner, p, q)) by {
            assert forall|i: int| 0 <= i < inner.len() implies p.resolve(#[trigger] inner[i])
                == q.resolve(inner[i]) by {
                assert(all[skip + i] == inner[i]);
            }
        }
        let items = n.get("specifiers"@).items();
        let source = n.get("source"@).get("value"@).text();
        let named = if n.get("source"@) is Null {
            with_exports(s, items, p.path)
        } else {
            with_reexports(s, items, p.resolve(source))
        };
        lemma_declaration_alike(named, n.get("declaration"@), true, src, p, q);
    } else if n.is_kind("ExportAllDeclaration"@) || n.is_kind("ExportDefaultDeclaration"@) {
    } else {
        lemma_declaration_alike(s, n, false, src, p, q);
    }
}

proof fn lemma_statements_alike(
    s: PreView,
    items: Seq<JsonView>,
    src: Seq<char>,
    p: PlaceView,
    q: PlaceView,
)
    requires
        p.path == q.path,
        resolve_alike(all_specifiers(items), p, q),
    ensures
        with_statements(s, items, src, p) == with_statements(s, items, src, q),
    decreases items.len(),
{
    if items.len() > 0 {
        let all = all_specifiers(items);
        let before = all_specifiers(items.drop_last());
        let last = statement_specifiers(items.last());
        assert(resolve_alike(before, p, q)) by {
            assert forall|i: int| 0 <= i < before.len() implies p.resolve(#[trigger] before[i])
                == q.resolve(before[i]) by {
                assert(all[i] == before[i]);
            }
        }
        assert(resolve_alike(last, p, q)) by {
            assert forall|i: int| 0 <= i < last.len() implies p.resolve(#[trigger] last[i])
                == q.resolve(last[i]) by {
                assert(all[before.len() + i] == last[i]);
            }
        }
        lemma_statements_alike(s, items.drop_last(), src, p, q);
        lemma_statement_alike(
            with_statements(s, items.drop_last(), src, p),
            items.last(),
            src,
            p,
            q,
        );
    }
}

/// Looking up the files that the imports of a module may mean is enough: the
/// facts about the module depend on no other file.
pub proof fn law_probing_suffices(
    tree: JsonView,
    errors: nat,
    rel: Seq<char>,
    src: Seq<char>,
    p: PlaceView,
    q: PlaceView,
)
    requires
        p.path == q.path,
        p.specs == q.specs,
        agree_on(import_files_of(tree, p.path, p.specs), p.existing, q.existing),
    ensures
        module_facts(tree, errors, rel, src, p) == module_facts(tree, errors, rel, src, q),
{
    let items = tree.get("body"@).items();
    lemma_specifiers_alike(all_specifiers(items), p, q);
    lemma_statements_alike(
        PreView {
            info: blank_module(p.path, rel, errors),
            scope: Map::empty(),
            exported: Set::empty(),
            bodyless: Set::empty(),
        },
        items,
        src,
        p,
        q,
    );
    assert(module_level(tree, errors, rel, src, p) == module_level(tree, errors, rel, src, q));
}

// ---------------------------------------------------------------------------
// Execution
// ---------------------------------------------------------------------------

fn push_spec(out: &mut Vec<String>, spec: String)
    ensures
        views(final(out)@) == views(old(out)@).push(spec@),
{
    let ghost before = views(out@);
    out.push(spec);
    assert(views(out@) =~= before.push(spec@));
}

fn collect_declaration(n: &Json, out: &mut Vec<String>)
    ensures
        views(final(out)@) == views(old(out)@) + declaration_specifiers(n@),
{
    let ghost before = views(out@);
    if !n.is_kind("VariableDeclaration") {
        assert(before + Seq::<Seq<char>>::empty() =~= before);
        return ;
    }
    let list = n.get("declarations");
    let ghost all = list@.items();
    assert(before + variable_specifiers(all.take(0)) =~= before);
    let total: usize = list.count();
    let mut i: usize = 0;
    while i < total
        invariant
            all == list@.items(),
            total == all.len(),
            i <= total,
            views(out@) == before + variable_specifiers(all.take(i as int)),
        decreases total - i,
    {
        let d = list.at(i);
        proof {
            assert(all.take(i + 1).drop_last() =~= all.take(i as int));
            assert(all.take(i + 1).last() == d@);
        }
        if d.get("id").is_kind("Identifier") {
            if let Some(spec) = dynamic_import_specifier(d.get("init")) {
                push_spec(out, spec);
            }
        }
        assert(views(out@) =~= before + variable_specifiers(all.take(i + 1)));
        i += 1;
    }
    assert(all.take(i as int) =~= all);
}

fn collect_statement(n: &Json, out: &mut Vec<String>)
    ensures
        views(final(out)@) == views(old(out)@) + statement_specifiers(n@),
{
    let ghost before = views(out@);
    let source = n.get("source").get("value").text();
    if n.is_kind("ImportDeclaration") {
        push_spec(out, source.to_owned());
    } else if n.is_kind("ExportNamedDeclaration") {
        if !n.get("source").is_null() {
            push_spec(out, source.to_owned());
        }
        collect_declaration(n.get("declaration"), out);
    } else if n.is_kind("ExportAllDeclaration") {
        if n.get("exported").is_null() {
            push_spec(out, source.to_owned());
        }
    } else {
        collect_declaration(n, out);
    }
    assert(views(out@) =~= before + statement_specifiers(n@));
}

/// The files that the imports of a module may mean.
pub fn import_files(parsed: &Parsed, path: &str, map: &SpecifierMap) -> (r: Vec<String>)
    ensures
        views(r@) == import_files_of(parsed.program@, path@, map@),
{
    let list = parsed.program.get("body");
    let ghost items = list@.items();
    let mut specs: Vec<String> = Vec::new();
    assert(views(specs@) =~= all_specifiers(items.take(0)));
    let total: usize = list.count();
    let mut i: usize = 0;
    while i < total
        invariant
            items == list@.items(),
            total == items.len(),
            i <= total,
            views(specs@) == all_specifiers(items.take(i as int)),
        decreases total - i,
    {
        collect_statement(list.at(i), &mut specs);
        proof {
            assert(items.take(i + 1).drop_last() =~= items.take(i as int));
            assert(items.take(i + 1).last() == items[i as int]);
        }
        i += 1;
    }
    assert(items.take(i as int) =~= items);
    let ghost all = views(specs@);
    let mut out: Vec<String> = Vec::new();
    assert(views(out@) =~= files_for(all.take(0), path@, map@));
    i = 0;
    while i < specs.len()
        invariant
            all == views(specs@),
            i <= specs@.len(),
            views(out@) == files_for(all.take(i as int), path@, map@),
        decreases specs@.len() - i,
    {
        let mut more = candidate_files(path, specs[i].as_str(), map);
        let ghost so_far = views(out@);
        let ghost added = views(more@);
        out.append(&mut more);
        proof {
            assert(views(out@) =~= so_far + added);
            assert(all.take(i + 1).drop_last() =~= all.take(i as int));
            assert(all.take(i + 1).last() == specs@[i as int]@);
        }
        i += 1;
    }
    assert(all.take(i as int) =~= all);
    out
}

} // verus!

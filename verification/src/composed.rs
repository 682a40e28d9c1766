//! What is put together: the names of parameters, generated sources, lists of
//! specifiers, and the names that a module starts with.

use vstd::prelude::*;

use crate::annotation::mentions;
use crate::bound::{declares_value, law_a_statement_declares, lemma_statement_kinds};
use crate::diff::{changed_in, git_outcome};
use crate::extract::{is_compound, module_names, nested_names};
use crate::followed::names_nothing;
use crate::genproj::{
    drawn, expanded, file_draft, findings_in, function_findings, function_text, functions_draft,
    generated_file, state_after, variant, variant_calls, variant_union,
};
use crate::json::{nested_document, JsonView};
use crate::model::TypeExprView;
use crate::order::text_le;
use crate::param::{comma_list, has_rest, pattern_display, pattern_props, plain_keys};
use crate::prepass::{dynamic_import, PreView};
use crate::probe::{declaration_specifiers, files_for, statement_specifiers, variable_specifiers};
use crate::project::path_set;
use crate::scope::BindingView;
use crate::specifier::import_candidates;
use crate::surrogate::without_surrogates;
use crate::syntax::{plain_key, tree_in};
use crate::text::{decimal, is_space};
use crate::textual::{blank, law_trimmed};
use crate::workspace::{
    entry_place, is_config_file, is_package_file, path_entries, texts_in, EntryView, SpecView,
};

verus! {

// ---------------------------------------------------------------------------
// Parameters as texts
// ---------------------------------------------------------------------------

/// A list is written with a comma and a space between its texts.
pub proof fn law_comma_lists(list: Seq<Seq<char>>, t: Seq<char>)
    ensures
        comma_list(Seq::empty()) == Seq::<char>::empty(),
        comma_list(seq![t]) == t,
        list.len() > 0 ==> comma_list(list.push(t)) == comma_list(list) + seq![',', ' '] + t,
{
    reveal_strlit(", ");
    assert(", "@ =~= seq![',', ' ']);
    let more = list.push(t);
    assert(more.drop_last() =~= list);
    let one = seq![t];
    assert(one[0] == t);
}

/// Whether all items are properties with plain keys.
pub open spec fn all_keyed(items: Seq<JsonView>, keys: Seq<Seq<char>>) -> bool {
    &&& items.len() == keys.len()
    &&& forall|i: int|
        0 <= i < items.len() ==> (#[trigger] items[i]).is_kind("Property"@) && plain_key(items[i])
            == Some(keys[i])
}

proof fn lemma_keyed(items: Seq<JsonView>, keys: Seq<Seq<char>>)
    requires
        all_keyed(items, keys),
    ensures
        pattern_props(items) == items,
        plain_keys(items) == keys,
        !has_rest(items),
    decreases items.len(),
{
    reveal_strlit("Property");
    reveal_strlit("RestElement");
    assert("Property"@.len() == 8);
    assert("RestElement"@.len() == 11);
    if items.len() > 0 {
        let front = items.drop_last();
        let n = items.len() - 1;
        assert forall|i: int| 0 <= i < front.len() implies (#[trigger] front[i]).is_kind(
            "Property"@,
        ) && plain_key(front[i]) == Some(keys.drop_last()[i]) by {
            assert(front[i] == items[i]);
        }
        lemma_keyed(front, keys.drop_last());
        assert(items[n].is_kind("Property"@));
        assert(pattern_props(items) =~= items);
        assert(plain_keys(items) =~= keys);
    } else {
        assert(plain_keys(items) =~= keys);
        assert(pattern_props(items) =~= items);
    }
}

/// A parameter that is a name is shown by it; one that takes an object apart
/// by its keys between braces, the first three of them and dots for more.
pub proof fn law_parameter_names(p: JsonView, keys: Seq<Seq<char>>)
    ensures
        p.is_kind("Identifier"@) ==> pattern_display(p) == p.name(),
        p.is_kind("ArrayPattern"@) ==> pattern_display(p) == seq!['[', '…', ']'],
        p.is_kind("ObjectPattern"@) && all_keyed(p.get("properties"@).items(), keys) && keys.len()
            <= 3 ==> pattern_display(p) == seq!['{'] + comma_list(keys) + seq!['}'],
        p.is_kind("ObjectPattern"@) && all_keyed(p.get("properties"@).items(), keys) && keys.len()
            > 3 ==> pattern_display(p) == seq!['{'] + comma_list(keys.take(3)) + seq![',', ' ', '…']
            + seq!['}'],
{
    crate::reading::lemma_parameter_kinds();
    reveal_strlit("{");
    reveal_strlit("}");
    reveal_strlit("[…]");
    reveal_strlit(", …");
    assert("{"@ =~= seq!['{']);
    assert("}"@ =~= seq!['}']);
    assert("[…]"@ =~= seq!['[', '…', ']']);
    assert(", …"@ =~= seq![',', ' ', '…']);
    let items = p.get("properties"@).items();
    if p.is_kind("ObjectPattern"@) && all_keyed(items, keys) {
        lemma_keyed(items, keys);
        if keys.len() > 3 {
            let first = items.take(3);
            assert forall|i: int| 0 <= i < 3 implies (#[trigger] first[i]).is_kind("Property"@)
                && plain_key(first[i]) == Some(keys.take(3)[i]) by {
                assert(first[i] == items[i]);
            }
            lemma_keyed(first, keys.take(3));
        } else {
            assert(seq!['{'] + comma_list(keys) + Seq::<char>::empty() + seq!['}'] =~= seq!['{']
                + comma_list(keys) + seq!['}']);
        }
    }
}

/// Dots stand for what a pattern leaves over.
pub proof fn law_rest_is_shown_by_dots(p: JsonView, items: Seq<JsonView>, keys: Seq<Seq<char>>, rest: JsonView)
    requires
        p.is_kind("ObjectPattern"@),
        p.get("properties"@).items() == items.push(rest),
        all_keyed(items, keys),
        keys.len() <= 3,
        rest.is_kind("RestElement"@),
    ensures
        pattern_display(p) == seq!['{'] + comma_list(keys) + seq![',', ' ', '…'] + seq!['}'],
{
    crate::reading::lemma_parameter_kinds();
    reveal_strlit("{");
    reveal_strlit("}");
    reveal_strlit(", …");
    assert("{"@ =~= seq!['{']);
    assert("}"@ =~= seq!['}']);
    assert(", …"@ =~= seq![',', ' ', '…']);
    let all = items.push(rest);
    assert(all.drop_last() =~= items);
    assert(all.last() == rest);
    lemma_keyed(items, keys);
    assert(all[items.len() as int].is_kind("RestElement"@));
    assert(has_rest(all));
}

// ---------------------------------------------------------------------------
// Types that name others
// ---------------------------------------------------------------------------

/// A type mentions a local name if a reference in it, at any depth, is to one.
pub proof fn law_mentions(te: TypeExprView, sets: Seq<Set<Seq<char>>>, name: Seq<char>, i: int)
    ensures
        names_nothing(te) ==> !mentions(te, sets),
        0 <= i < sets.len() && sets[i].contains(name) ==> mentions(TypeExprView::Ref(name), sets),
        (forall|k: int| 0 <= k < sets.len() ==> !(#[trigger] sets[k]).contains(name))
            ==> !mentions(TypeExprView::Ref(name), sets),
    decreases te,
{
    if names_nothing(te) {
        match te {
            TypeExprView::Union(parts) => {
                let u = TypeExprView::Union(parts);
                assert forall|k: int| 0 <= k < parts.len() implies !mentions(
                    #[trigger] parts[k],
                    sets,
                ) by {
                    assert(names_nothing(u->Union_0[k]));
                    law_mentions(parts[k], sets, name, i);
                }
            },
            TypeExprView::ObjectLit(props) => {
                let u = TypeExprView::ObjectLit(props);
                assert forall|k: int| 0 <= k < props.len() implies !mentions(
                    (#[trigger] props[k]).ty,
                    sets,
                ) by {
                    assert(names_nothing(u->ObjectLit_0[k].ty));
                    law_mentions(props[k].ty, sets, name, i);
                }
            },
            TypeExprView::Proj(base, _) => {
                law_mentions(*base, sets, name, i);
            },
            _ => {},
        }
    }
}

/// What a part of a type mentions, the type mentions.
pub proof fn law_parts_mention(te: TypeExprView, sets: Seq<Set<Seq<char>>>, k: int)
    ensures
        te is Union && 0 <= k < te->Union_0.len() && mentions(te->Union_0[k], sets) ==> mentions(
            te,
            sets,
        ),
        te is ObjectLit && 0 <= k < te->ObjectLit_0.len() && mentions(te->ObjectLit_0[k].ty, sets)
            ==> mentions(te, sets),
{
}

// ---------------------------------------------------------------------------
// Names at the start of a module
// ---------------------------------------------------------------------------

/// Whether a statement is one that holds others.
pub open spec fn holds_statements(kind: Seq<char>) -> bool {
    ||| kind == "BlockStatement"@
    ||| kind == "IfStatement"@
    ||| kind == "ForStatement"@
    ||| kind == "ForInStatement"@
    ||| kind == "ForOfStatement"@
    ||| kind == "WhileStatement"@
    ||| kind == "DoWhileStatement"@
    ||| kind == "SwitchStatement"@
    ||| kind == "TryStatement"@
    ||| kind == "LabeledStatement"@
}

proof fn lemma_nested(items: Seq<JsonView>, name: Seq<char>)
    ensures
        nested_names(items).values.contains_key(name) <==> exists|i: int|
            0 <= i < items.len() && holds_statements((#[trigger] items[i]).get("type"@).text())
                && declares_value(items[i], 0, name),
        nested_names(items).values.contains_key(name) ==> nested_names(items).values[name]
            == BindingView::LocalOther,
    decreases items.len(),
{
    if items.len() > 0 {
        let front = items.drop_last();
        let n = items.len() - 1;
        lemma_nested(front, name);
        law_a_statement_declares(items.last(), 0, nested_names(front), name);
        if exists|i: int|
            0 <= i < front.len() && holds_statements((#[trigger] front[i]).get("type"@).text())
                && declares_value(front[i], 0, name) {
            let i = choose|i: int|
                0 <= i < front.len() && holds_statements((#[trigger] front[i]).get("type"@).text())
                    && declares_value(front[i], 0, name);
            assert(items[i] == front[i]);
        }
        if exists|i: int|
            0 <= i < items.len() && holds_statements((#[trigger] items[i]).get("type"@).text())
                && declares_value(items[i], 0, name) {
            let i = choose|i: int|
                0 <= i < items.len() && holds_statements((#[trigger] items[i]).get("type"@).text())
                    && declares_value(items[i], 0, name);
            if i < n {
                assert(front[i] == items[i]);
            }
        }
        if is_compound(items.last()) && declares_value(items.last(), 0, name) {
            assert(holds_statements(items[n].get("type"@).text()));
        }
    }
}

/// A name that a block at the level of the module declares is local wherever
/// it is used; every other name means what the module level makes of it.
pub proof fn law_names_at_the_start(pre: PreView, tree: JsonView, name: Seq<char>)
    ensures
        ({
            let items = tree.get("body"@).items();
            let scope = module_names(pre, tree).scopes[0];
            if exists|i: int|
                0 <= i < items.len() && holds_statements((#[trigger] items[i]).get("type"@).text())
                    && declares_value(items[i], 0, name) {
                scope.contains_key(name) && scope[name] == BindingView::LocalOther
            } else {
                &&& scope.contains_key(name) == pre.scope.contains_key(name)
                &&& scope.contains_key(name) ==> scope[name] == pre.scope[name]
            }
        }),
        module_names(pre, tree).scopes.len() == 1,
        module_names(pre, tree).shadows.len() == 1,
{
    lemma_nested(tree.get("body"@).items(), name);
}

// ---------------------------------------------------------------------------
// Specifiers
// ---------------------------------------------------------------------------

/// The specifiers of a statement: that of an import, of a re-export, and of
/// what its variables import dynamically.
pub proof fn law_specifiers(n: JsonView)
    ensures
        ({
            let source = n.get("source"@).get("value"@).text();
            &&& n.is_kind("ImportDeclaration"@) ==> statement_specifiers(n) == seq![source]
            &&& n.is_kind("ExportAllDeclaration"@) && n.get("exported"@) is Null
                ==> statement_specifiers(n) == seq![source]
            &&& n.is_kind("ExportNamedDeclaration"@) && !(n.get("source"@) is Null)
                && n.get("declaration"@) is Null ==> statement_specifiers(n) == seq![source]
            &&& n.is_kind("ExportNamedDeclaration"@) && n.get("source"@) is Null
                ==> statement_specifiers(n) == declaration_specifiers(n.get("declaration"@))
            &&& n.is_kind("VariableDeclaration"@) ==> statement_specifiers(n)
                == variable_specifiers(n.get("declarations"@).items())
        }),
{
    crate::declared::lemma_statement_kinds();
    assert(declaration_specifiers(JsonView::Null) =~= Seq::<Seq<char>>::empty()) by {
        assert(JsonView::Null.get("type"@).text() =~= Seq::<char>::empty());
    }
    let source = n.get("source"@).get("value"@).text();
    assert(seq![source] + Seq::<Seq<char>>::empty() =~= seq![source]);
    assert(Seq::<Seq<char>>::empty() + declaration_specifiers(n.get("declaration"@))
        =~= declaration_specifiers(n.get("declaration"@)));
}

/// A variable that is given what a dynamic import gives names its module.
pub proof fn law_dynamic_specifiers(items: Seq<JsonView>, d: JsonView, spec: Seq<char>)
    requires
        d.get("id"@).is_kind("Identifier"@),
        dynamic_import(d.get("init"@)) == Some(spec),
    ensures
        variable_specifiers(items.push(d)) == variable_specifiers(items).push(spec),
{
    let more = items.push(d);
    assert(more.drop_last() =~= items);
    assert(more.last() == d);
}

/// All files that any of the specifiers may mean are looked up.
pub proof fn law_files_are_looked_up(
    specifiers: Seq<Seq<char>>,
    path: Seq<char>,
    m: SpecView,
    i: int,
    k: int,
)
    requires
        0 <= i < specifiers.len(),
        0 <= k < import_candidates(path, specifiers[i], m).len(),
    ensures
        files_for(specifiers, path, m).contains(import_candidates(path, specifiers[i], m)[k]),
    decreases specifiers.len(),
{
    let front = specifiers.drop_last();
    let before = files_for(front, path, m);
    let all = files_for(specifiers, path, m);
    let file = import_candidates(path, specifiers[i], m)[k];
    if i < front.len() {
        law_files_are_looked_up(front, path, m, i, k);
        let j = choose|j: int| 0 <= j < before.len() && before[j] == file;
        assert(all[j] == file);
    } else {
        assert(all[before.len() + k] == file);
    }
}

// ---------------------------------------------------------------------------
// Files
// ---------------------------------------------------------------------------

/// The changed lines are those of the diff, below the directory that git
/// names; an error of either command is handed on, the first one first.
pub proof fn law_git_outcomes(
    top: Seq<char>,
    front: Seq<char>,
    back: Seq<char>,
    diff: Seq<char>,
    e: Seq<char>,
    other: Result<Seq<char>, Seq<char>>,
)
    requires
        blank(front),
        blank(back),
        top.len() > 0,
        !is_space(top[0]),
        !is_space(top[top.len() - 1]),
    ensures
        git_outcome(Ok(front + top + back), Ok(diff)) == Ok::<
            Map<Seq<char>, Seq<(u32, u32)>>,
            Seq<char>,
        >(changed_in(diff, top)),
        git_outcome(Err(e), other) == Err::<Map<Seq<char>, Seq<(u32, u32)>>, Seq<char>>(e),
        git_outcome(Ok(top), Err(e)) == Err::<Map<Seq<char>, Seq<(u32, u32)>>, Seq<char>>(e),
{
    law_trimmed(front, top, back);
}

/// The first field of a name counts; a missing one is null.
pub proof fn law_fields(fields: Seq<(Seq<char>, JsonView)>, name: Seq<char>, i: int)
    requires
        0 <= i <= fields.len(),
        forall|j: int| 0 <= j < i ==> (#[trigger] fields[j]).0 != name,
    ensures
        i < fields.len() && fields[i].0 == name ==> JsonView::Object(fields).get(name)
            == fields[i].1,
        i == fields.len() ==> JsonView::Object(fields).get(name) == JsonView::Null,
    decreases i,
{
    if i > 0 {
        assert(fields[0].0 != name);
        let rest = fields.drop_first();
        assert forall|j: int| 0 <= j < i - 1 implies (#[trigger] rest[j]).0 != name by {
            assert(rest[j] == fields[j + 1]);
        }
        law_fields(rest, name, i - 1);
    }
}

/// The files of a list are those that are in it.
pub proof fn law_listed_files(list: Seq<Seq<char>>, path: Seq<char>)
    ensures
        path_set(list).contains(path) <==> list.contains(path),
    decreases list.len(),
{
    if list.len() > 0 {
        let front = list.drop_last();
        law_listed_files(front, path);
        if front.contains(path) {
            let i = choose|i: int| 0 <= i < front.len() && front[i] == path;
            assert(list[i] == path);
        }
        if list.contains(path) {
            let i = choose|i: int| 0 <= i < list.len() && list[i] == path;
            if i < front.len() {
                assert(front[i] == path);
            }
        }
        assert(list[list.len() - 1] == list.last());
    }
}

/// A package is described by its manifest, a configuration of the compiler by
/// one of two files.
pub proof fn law_configuration_files(name: Seq<char>)
    ensures
        is_package_file("package.json"@),
        is_config_file("tsconfig.json"@),
        is_config_file("tsconfig.base.json"@),
        is_package_file(name) ==> !is_config_file(name),
        is_config_file(name) ==> name.len() == 13 || name.len() == 18,
{
    reveal_strlit("package.json");
    reveal_strlit("tsconfig.json");
    reveal_strlit("tsconfig.base.json");
    assert("package.json"@.len() == 12);
    assert("tsconfig.json"@.len() == 13);
    assert("tsconfig.base.json"@.len() == 18);
}

/// Whether the keys of entries are in the order of a dictionary.
pub open spec fn keys_in_order(entries: Seq<EntryView>) -> bool {
    forall|i: int, j: int|
        0 <= i < j < entries.len() ==> text_le(
            (#[trigger] entries[i]).0,
            (#[trigger] entries[j]).0,
        )
}

proof fn lemma_place(entries: Seq<EntryView>, key: Seq<char>)
    requires
        keys_in_order(entries),
    ensures
        0 <= entry_place(entries, key) <= entries.len(),
        forall|i: int|
            0 <= i < entry_place(entries, key) ==> text_le((#[trigger] entries[i]).0, key),
        forall|i: int|
            entry_place(entries, key) <= i < entries.len() ==> text_le(
                key,
                (#[trigger] entries[i]).0,
            ),
    decreases entries.len(),
{
    if entries.len() > 0 {
        let front = entries.drop_last();
        let last = entries.last().0;
        let k = entry_place(entries, key);
        assert forall|i: int, j: int| 0 <= i < j < front.len() implies text_le(
            (#[trigger] front[i]).0,
            (#[trigger] front[j]).0,
        ) by {
            assert(front[i] == entries[i] && front[j] == entries[j]);
        }
        if text_le(last, key) {
            assert forall|i: int| 0 <= i < k implies text_le((#[trigger] entries[i]).0, key) by {
                if i < entries.len() - 1 {
                    assert(text_le(entries[i].0, entries[entries.len() - 1].0));
                    lemma_text_le_chain(entries[i].0, last, key);
                }
            }
        } else {
            lemma_place(front, key);
            lemma_text_le_total(key, last);
            assert forall|i: int| 0 <= i < k implies text_le((#[trigger] entries[i]).0, key) by {
                assert(front[i] == entries[i]);
            }
            assert forall|i: int| k <= i < entries.len() implies text_le(
                key,
                (#[trigger] entries[i]).0,
            ) by {
                if i < front.len() {
                    assert(front[i] == entries[i]);
                }
            }
        }
    }
}

proof fn lemma_text_le_total(a: Seq<char>, b: Seq<char>)
    ensures
        text_le(a, b) || text_le(b, a),
    decreases a.len(),
{
    if a.len() > 0 && b.len() > 0 {
        lemma_text_le_total(a.drop_first(), b.drop_first());
    }
}

proof fn lemma_text_le_chain(a: Seq<char>, b: Seq<char>, c: Seq<char>)
    requires
        text_le(a, b),
        text_le(b, c),
    ensures
        text_le(a, c),
    decreases a.len(),
{
    if a.len() > 0 && b.len() > 0 && c.len() > 0 && a[0] == b[0] && b[0] == c[0] {
        lemma_text_le_chain(a.drop_first(), b.drop_first(), c.drop_first());
    }
}

/// The entries of `paths` are tried in the order of their keys, and none is
/// lost.
pub proof fn law_entries_are_in_order(fields: Seq<(Seq<char>, JsonView)>)
    ensures
        keys_in_order(path_entries(fields)),
        path_entries(fields).len() == fields.len(),
    decreases fields.len(),
{
    if fields.len() > 0 {
        let front = fields.drop_last();
        law_entries_are_in_order(front);
        let before = path_entries(front);
        let e = (fields.last().0, texts_in(fields.last().1.items()));
        let k = entry_place(before, e.0);
        lemma_place(before, e.0);
        let all = before.insert(k, e);
        assert forall|i: int, j: int| 0 <= i < j < all.len() implies text_le(
            (#[trigger] all[i]).0,
            (#[trigger] all[j]).0,
        ) by {
            if i < k {
                assert(all[i] == before[i]);
            } else if i > k {
                assert(all[i] == before[i - 1]);
            }
            if j < k {
                assert(all[j] == before[j]);
            } else if j > k {
                assert(all[j] == before[j - 1]);
            }
        }
    }
}

/// A tree that cannot be read counts as one more error, and holds nothing.
pub proof fn law_unreadable_trees(errors: nat, text: Seq<char>)
    requires
        errors < usize::MAX,
    ensures
        nested_document(without_surrogates(text)) is None ==> tree_in((errors, text)) == (
            JsonView::Null,
            errors + 1,
        ),
        nested_document(without_surrogates(text)) is Some ==> tree_in((errors, text)) == (
            nested_document(without_surrogates(text))->0,
            errors,
        ),
{
}

// ---------------------------------------------------------------------------
// Generated sources
// ---------------------------------------------------------------------------

/// A template is filled character by character: numbers for the marks of file
/// and function, the given text for the mark of a type, and anything else as
/// it stands.
pub proof fn law_templates(t: Seq<char>, c: char, file: nat, func: nat, u: Seq<char>)
    ensures
        expanded(Seq::empty(), file, func, u) == Seq::<char>::empty(),
        expanded(t.push('@'), file, func, u) == expanded(t, file, func, u) + decimal(file),
        expanded(t.push('#'), file, func, u) == expanded(t, file, func, u) + decimal(func),
        expanded(t.push('%'), file, func, u) == expanded(t, file, func, u) + u,
        c != '@' && c != '#' && c != '%' ==> expanded(t.push(c), file, func, u) == expanded(
            t,
            file,
            func,
            u,
        ).push(c),
{
    assert(t.push('@').drop_last() =~= t);
    assert(t.push('#').drop_last() =~= t);
    assert(t.push('%').drop_last() =~= t);
    assert(t.push(c).drop_last() =~= t);
    assert(expanded(t, file, func, u) + seq![c] =~= expanded(t, file, func, u).push(c));
}

/// A number that is drawn is below the limit it is drawn with.
pub proof fn law_drawn_numbers(x: u64, n: nat)
    requires
        n > 0,
    ensures
        drawn(x, n) < n,
{
}

/// The variants of a file differ in their last number; a union of more
/// variants goes on where one of fewer ends.
pub proof fn law_variants(file: nat, n: nat)
    ensures
        variant(file, n) == seq!['"', 'v'] + decimal(file) + seq!['_'] + decimal(n) + seq!['"'],
        variant_union(file, 1) == variant(file, 0),
        n > 0 ==> variant_union(file, n + 1) == variant_union(file, n) + seq![' ', '|', ' ']
            + variant(file, n),
        variant_calls(file, 0, 0) == Seq::<char>::empty(),
{
    reveal_strlit("\"v");
    reveal_strlit("_");
    reveal_strlit("\"");
    reveal_strlit(" | ");
    assert("\"v"@ =~= seq!['"', 'v']);
    assert("_"@ =~= seq!['_']);
    assert("\""@ =~= seq!['"']);
    assert(" | "@ =~= seq![' ', '|', ' ']);
}

/// A function counts for as many findings as unions of its parameter have a
/// variant that no call passes: none where every variant is passed, where the
/// function escapes or gets an argument of any variant; one where the last
/// variant is left out; three where each of the nested unions leaves one out.
pub proof fn law_expected_findings(file: nat, func: nat, variants: nat, style: nat)
    requires
        variants > 1,
        style < 10,
    ensures
        function_text(file, func, variants, 3) == function_text(file, func, variants, 4),
        function_text(file, func, variants, 4) == function_text(file, func, variants, 5),
        function_text(file, func, variants, 6) == function_text(
            file,
            func,
            (variants - 1) as nat,
            3,
        ),
        6 <= style ==> function_text(file, func, variants, style) == function_text(
            file,
            func,
            variants,
            6,
        ) && function_findings(style) == 1,
        1 <= style <= 5 ==> function_findings(style) == 0,
        style == 0 ==> function_findings(style) == 3,
{
}

/// The files of a project are numbered, and each draws its numbers where the
/// one before it stopped.
pub proof fn law_generated_files(file: nat, fns: nat, seed: u64)
    ensures
        generated_file(file, fns, seed).path == seq!['s', 'r', 'c', '/', 'f', 'i', 'l', 'e']
            + decimal(file) + seq!['.', 't', 's'],
        generated_file(file, fns, seed).text == file_draft(
            file,
            fns,
            state_after(file, fns, seed),
        ).text,
        state_after(0, fns, seed) == seed | 1,
        findings_in(0, fns, seed) == 0,
        findings_in(file + 1, fns, seed) == findings_in(file, fns, seed) + file_draft(
            file,
            fns,
            state_after(file, fns, seed),
        ).findings,
        functions_draft(file, 0, 4, seed).findings == 0,
{
    reveal_strlit("src/file");
    reveal_strlit(".ts");
    assert("src/file"@ =~= seq!['s', 'r', 'c', '/', 'f', 'i', 'l', 'e']);
    assert(".ts"@ =~= seq!['.', 't', 's']);
}

} // verus!

//! Which file an import means: what holds of paths, specifiers and packages.

use vstd::prelude::*;

use crate::json::{json_document, JsonView};
use crate::path::{
    all_plain, candidates, file_name, has_extension, is_source_path, joined, kept, name_start,
    normalized, parent, pieces, slashed,
};
use crate::specifier::{all_candidates, first_existing, import_bases};
use crate::text::{ends_with, index_from, starts_with};
use crate::workspace::{
    all_pattern_bases, base_url, entry_place, filled, fits, is_project_source, is_skipped_dir,
    package_and_subpath, package_bases, path_entries, pattern_bases, specifier_bases, texts_in,
    with_config, with_entries, with_entry, with_packages, ConfigView, EntryView, PatternView,
    SpecView,
};

verus! {

proof fn lemma_index_is(text: Seq<char>, c: char, from: int, k: int)
    requires
        0 <= from <= k < text.len(),
        text[k] == c,
        forall|j: int| from <= j < k ==> text[j] != c,
    ensures
        index_from(text, c, from) == Some(k),
    decreases k - from,
{
    if from < k {
        lemma_index_is(text, c, from + 1, k);
    }
}

proof fn lemma_index_none(text: Seq<char>, c: char, from: int)
    requires
        0 <= from,
        forall|j: int| from <= j < text.len() ==> text[j] != c,
    ensures
        index_from(text, c, from) is None,
    decreases text.len() - from,
{
    if from < text.len() {
        lemma_index_none(text, c, from + 1);
    }
}

// ---------------------------------------------------------------------------
// Packages
// ---------------------------------------------------------------------------

/// Whether a text holds no slash.
pub open spec fn no_slash(text: Seq<char>) -> bool {
    forall|i: int| 0 <= i < text.len() ==> text[i] != '/'
}

/// A package without a scope and a path below it.
pub open spec fn below(name: Seq<char>, sub: Seq<char>) -> Seq<char> {
    name + seq!['/'] + sub
}

/// The name of a package with a scope.
pub open spec fn scoped(scope: Seq<char>, name: Seq<char>) -> Seq<char> {
    seq!['@'] + scope + seq!['/'] + name
}

/// A specifier with a path below a package is taken apart into the package and
/// that path.
pub proof fn law_subpaths_are_split(name: Seq<char>, sub: Seq<char>)
    requires
        no_slash(name),
        name.len() > 0 ==> name[0] != '@',
    ensures
        package_and_subpath(below(name, sub)) == Some((name, sub)),
{
    reveal_strlit("@");
    let spec = below(name, sub);
    assert forall|j: int| 0 <= j < name.len() implies spec[j] != '/' by {
        assert(spec[j] == name[j]);
    }
    assert(spec[name.len() as int] == '/');
    assert("@"@.len() == 1 && "@"@[0] == '@');
    assert(spec[0] != '@') by {
        if name.len() > 0 {
            assert(spec[0] == name[0]);
        }
    }
    if starts_with(spec, "@"@) {
        assert(spec.subrange(0, 1)[0] == spec[0]);
    }
    lemma_index_is(spec, '/', 0, name.len() as int);
    assert(spec.take(name.len() as int) =~= name);
    assert(spec.skip((name.len() + 1) as int) =~= sub);
}

/// A package of a scope keeps its scope when a path below it is taken off.
pub proof fn law_scoped_subpaths_are_split(scope: Seq<char>, name: Seq<char>, sub: Seq<char>)
    requires
        no_slash(scope),
        no_slash(name),
    ensures
        package_and_subpath(below(scoped(scope, name), sub)) == Some((scoped(scope, name), sub)),
        package_and_subpath(scoped(scope, name)) is None,
{
    reveal_strlit("@");
    let whole = scoped(scope, name);
    let spec = below(whole, sub);
    let first = scope.len() as int + 1;
    let second = whole.len() as int;
    assert("@"@.len() == 1 && "@"@[0] == '@');
    assert(spec[0] == '@' && whole[0] == '@');
    assert(spec.subrange(0, 1) =~= "@"@);
    assert(whole.subrange(0, 1) =~= "@"@);
    assert forall|j: int| 0 <= j < first implies spec[j] != '/' && whole[j] != '/' by {
        if j > 0 {
            assert(spec[j] == scope[j - 1] && whole[j] == scope[j - 1]);
        }
    }
    assert(spec[first] == '/' && whole[first] == '/');
    lemma_index_is(spec, '/', 0, first);
    lemma_index_is(whole, '/', 0, first);
    assert forall|j: int| first < j < second implies spec[j] != '/' && whole[j] != '/' by {
        assert(spec[j] == name[j - first - 1] && whole[j] == name[j - first - 1]);
    }
    assert(spec[second] == '/');
    lemma_index_is(spec, '/', first + 1, second);
    lemma_index_none(whole, '/', first + 1);
    assert(spec.take(second) =~= whole);
    assert(spec.skip(second + 1) =~= sub);
}

/// A workspace package is found under its name; a path below it is looked for
/// below its directory and below its `src`.
pub proof fn law_packages_are_found(
    packages: Map<Seq<char>, Seq<char>>,
    name: Seq<char>,
    sub: Seq<char>,
)
    requires
        packages.contains_key(name),
        no_slash(name) && (name.len() > 0 ==> name[0] != '@') || exists|s: Seq<char>, n: Seq<char>|
            no_slash(s) && no_slash(n) && name == #[trigger] scoped(s, n),
        !packages.contains_key(below(name, sub)),
    ensures
        package_bases(packages, name) == seq![packages[name]],
        package_bases(packages, below(name, sub)).len() == 2,
        package_bases(packages, below(name, sub))[0] == joined(packages[name], sub),
        package_bases(packages, below(name, sub))[1] == joined(
            joined(packages[name], "src"@),
            sub,
        ),
{
    if no_slash(name) && (name.len() > 0 ==> name[0] != '@') {
        law_subpaths_are_split(name, sub);
    } else {
        let (s, n) = choose|s: Seq<char>, n: Seq<char>|
            no_slash(s) && no_slash(n) && name == #[trigger] scoped(s, n);
        law_scoped_subpaths_are_split(s, n, sub);
    }
}

/// A specifier that is neither a known package nor below one has no base there.
pub proof fn law_other_packages_are_not_found(
    packages: Map<Seq<char>, Seq<char>>,
    name: Seq<char>,
    sub: Seq<char>,
)
    requires
        no_slash(name),
        name.len() > 0 ==> name[0] != '@',
        !packages.contains_key(name),
        !packages.contains_key(below(name, sub)),
    ensures
        package_bases(packages, name).len() == 0,
        package_bases(packages, below(name, sub)).len() == 0,
{
    reveal_strlit("@");
    law_subpaths_are_split(name, sub);
    assert("@"@.len() == 1 && "@"@[0] == '@');
    if starts_with(name, "@"@) {
        assert(name.subrange(0, 1)[0] == name[0]);
    }
    lemma_index_none(name, '/', 0);
}

/// A package is known by the name in its manifest; the first of a name stays.
pub proof fn law_packages_are_known(files: Seq<ConfigView>, i: int, name: Seq<char>)
    requires
        0 <= i < files.len(),
        files[i].name == "package.json"@,
        json_document(files[i].text) is Some,
        json_document(files[i].text)->0.get("name"@) == JsonView::Str(name),
        forall|j: int|
            0 <= j < i && (#[trigger] files[j]).name == "package.json"@ && json_document(
                files[j].text,
            ) is Some ==> json_document(files[j].text)->0.get("name"@) != JsonView::Str(name),
    ensures
        with_packages(files).packages.contains_key(name),
        with_packages(files).packages[name] == files[i].dir,
    decreases files.len(),
{
    let front = files.drop_last();
    if i < files.len() - 1 {
        assert(front[i] == files[i]);
        assert forall|j: int|
            0 <= j < i && (#[trigger] front[j]).name == "package.json"@ && json_document(
                front[j].text,
            ) is Some implies json_document(front[j].text)->0.get("name"@) != JsonView::Str(
            name,
        ) by {
            assert(files[j] == front[j]);
        }
        law_packages_are_known(front, i, name);
    } else {
        lemma_package_unknown(front, name);
    }
}

proof fn lemma_package_unknown(files: Seq<ConfigView>, name: Seq<char>)
    requires
        forall|j: int|
            0 <= j < files.len() && (#[trigger] files[j]).name == "package.json"@ && json_document(
                files[j].text,
            ) is Some ==> json_document(files[j].text)->0.get("name"@) != JsonView::Str(name),
    ensures
        !with_packages(files).packages.contains_key(name),
    decreases files.len(),
{
    if files.len() > 0 {
        let front = files.drop_last();
        assert forall|j: int|
            0 <= j < front.len() && (#[trigger] front[j]).name == "package.json"@
                && json_document(front[j].text) is Some implies json_document(front[j].text)->0.get(
            "name"@,
        ) != JsonView::Str(name) by {
            assert(files[j] == front[j]);
        }
        lemma_package_unknown(front, name);
        assert(files[files.len() - 1] == files.last());
    }
}

// ---------------------------------------------------------------------------
// `paths` entries
// ---------------------------------------------------------------------------

/// Whether a text holds no star.
pub open spec fn no_star(text: Seq<char>) -> bool {
    forall|i: int| 0 <= i < text.len() ==> text[i] != '*'
}

proof fn lemma_filled_plain(text: Seq<char>, star: Seq<char>)
    requires
        no_star(text),
    ensures
        filled(text, star) == text,
    decreases text.len(),
{
    if text.len() > 0 {
        assert(no_star(text.drop_last()));
        lemma_filled_plain(text.drop_last(), star);
        assert(text.drop_last() + seq![text.last()] =~= text);
    } else {
        assert(text =~= Seq::empty());
    }
}

proof fn lemma_filled_joined(a: Seq<char>, b: Seq<char>, star: Seq<char>)
    ensures
        filled(a + b, star) == filled(a, star) + filled(b, star),
    decreases b.len(),
{
    if b.len() == 0 {
        assert(a + b =~= a);
        assert(filled(a, star) + Seq::<char>::empty() =~= filled(a, star));
    } else {
        lemma_filled_joined(a, b.drop_last(), star);
        assert((a + b).drop_last() =~= a + b.drop_last());
        assert((a + b).last() == b.last());
        let end = if b.last() == '*' {
            star
        } else {
            seq![b.last()]
        };
        assert(filled(a, star) + filled(b.drop_last(), star) + end =~= filled(a, star) + (filled(
            b.drop_last(),
            star,
        ) + end));
    }
}

/// The star of a target is replaced by what the star of the key stands for; a
/// target without one stays as it is.
pub proof fn law_stars_are_filled(a: Seq<char>, b: Seq<char>, star: Seq<char>)
    requires
        no_star(a),
        no_star(b),
    ensures
        filled(a + seq!['*'] + b, star) == a + star + b,
        filled(a, star) == a,
{
    lemma_filled_plain(a, star);
    lemma_filled_plain(b, star);
    lemma_filled_joined(a + seq!['*'], b, star);
    lemma_filled_joined(a, seq!['*'], star);
    assert(seq!['*'].drop_last() =~= Seq::<char>::empty());
    assert(filled(Seq::<char>::empty(), star) =~= Seq::<char>::empty());
    assert(filled(seq!['*'], star) =~= star);
}

/// A pattern fits just the specifiers that something can be put into its star
/// to make.
pub proof fn law_pattern_fits(p: PatternView, spec: Seq<char>)
    ensures
        fits(p, spec) <==> exists|star: Seq<char>|
            spec == #[trigger] (p.prefix + star + p.suffix),
{
    if fits(p, spec) {
        let star = spec.subrange(p.prefix.len() as int, spec.len() - p.suffix.len());
        let whole = p.prefix + star + p.suffix;
        assert(spec.subrange(0, p.prefix.len() as int) =~= p.prefix);
        assert(spec.subrange(spec.len() - p.suffix.len(), spec.len() as int) =~= p.suffix);
        assert forall|i: int| 0 <= i < spec.len() implies spec[i] == whole[i] by {
            if i < p.prefix.len() {
                assert(spec.subrange(0, p.prefix.len() as int)[i] == spec[i]);
            } else if i >= spec.len() - p.suffix.len() {
                let k = i - (spec.len() - p.suffix.len());
                assert(spec.subrange(spec.len() - p.suffix.len(), spec.len() as int)[k] == spec[i]);
            }
        }
        assert(spec =~= whole);
    }
    if exists|star: Seq<char>| spec == #[trigger] (p.prefix + star + p.suffix) {
        let star = choose|star: Seq<char>| spec == #[trigger] (p.prefix + star + p.suffix);
        assert(spec.subrange(0, p.prefix.len() as int) =~= p.prefix);
        assert(spec.subrange(spec.len() - p.suffix.len(), spec.len() as int) =~= p.suffix);
    }
}

proof fn lemma_last_pattern(ps: Seq<PatternView>, p: PatternView, spec: Seq<char>, i: int)
    requires
        0 <= i < pattern_bases(p, spec).len(),
    ensures
        all_pattern_bases(ps.push(p), spec).contains(pattern_bases(p, spec)[i]),
{
    let all = all_pattern_bases(ps.push(p), spec);
    assert(ps.push(p).drop_last() =~= ps);
    let before = all_pattern_bases(ps, spec);
    assert(all[before.len() + i] == pattern_bases(p, spec)[i]);
}

/// A `paths` entry with a star leads every specifier of its form to each of
/// its targets.
pub proof fn law_star_entries_lead_to_their_targets(
    m: SpecView,
    base: Seq<char>,
    before: Seq<char>,
    behind: Seq<char>,
    targets: Seq<Seq<char>>,
    star: Seq<char>,
    i: int,
)
    requires
        no_star(before),
        0 <= i < targets.len(),
    ensures
        specifier_bases(
            with_entry(m, base, (before + seq!['*'] + behind, targets)),
            before + star + behind,
        ).contains(joined(base, filled(targets[i], star))),
{
    let key = before + seq!['*'] + behind;
    let k = before.len() as int;
    let spec = before + star + behind;
    assert forall|j: int| 0 <= j < k implies key[j] != '*' by {
        assert(key[j] == before[j]);
    }
    assert(key[k] == '*');
    lemma_index_is(key, '*', 0, k);
    assert(key.take(k) =~= before);
    assert(key.skip(k + 1) =~= behind);
    let after = with_entry(m, base, (key, targets));
    let p = after.patterns.last();
    assert(p.prefix == before && p.suffix == behind);
    law_pattern_fits(p, spec);
    assert(spec == p.prefix + star + p.suffix);
    assert(fits(p, spec));
    assert(spec.subrange(k, spec.len() - behind.len()) =~= star);
    let found = pattern_bases(p, spec);
    assert(found[i] == joined(base, filled(targets[i], star)));
    assert(after.patterns =~= m.patterns.push(p));
    lemma_last_pattern(m.patterns, p, spec, i);
    let all = all_pattern_bases(after.patterns, spec);
    let j = choose|j: int| 0 <= j < all.len() && all[j] == found[i];
    let exact = if after.exact.contains_key(spec) {
        after.exact[spec]
    } else {
        Seq::empty()
    };
    assert(specifier_bases(after, spec)[exact.len() + j] == found[i]);
}

/// A `paths` entry without a star leads just its key to each of its targets.
pub proof fn law_exact_entries_lead_to_their_targets(
    m: SpecView,
    base: Seq<char>,
    key: Seq<char>,
    targets: Seq<Seq<char>>,
    i: int,
)
    requires
        no_star(key),
        0 <= i < targets.len(),
    ensures
        specifier_bases(with_entry(m, base, (key, targets)), key).contains(
            joined(base, targets[i]),
        ),
        with_entry(m, base, (key, targets)).patterns == m.patterns,
{
    lemma_index_none(key, '*', 0);
    let after = with_entry(m, base, (key, targets));
    let known = if m.exact.contains_key(key) {
        m.exact[key]
    } else {
        Seq::empty()
    };
    assert(after.exact[key][known.len() + i] == joined(base, targets[i]));
    assert(specifier_bases(after, key)[known.len() + i] == joined(base, targets[i]));
}

proof fn lemma_pattern_bases_grow(a: Seq<PatternView>, p: PatternView, spec: Seq<char>, t: Seq<char>)
    requires
        all_pattern_bases(a, spec).contains(t),
    ensures
        all_pattern_bases(a.push(p), spec).contains(t),
{
    assert(a.push(p).drop_last() =~= a);
    let before = all_pattern_bases(a, spec);
    let j = choose|j: int| 0 <= j < before.len() && before[j] == t;
    assert(all_pattern_bases(a.push(p), spec)[j] == t);
}

/// An entry takes nothing away from those before it.
pub proof fn law_entries_only_add(
    m: SpecView,
    base: Seq<char>,
    e: EntryView,
    spec: Seq<char>,
    t: Seq<char>,
)
    requires
        specifier_bases(m, spec).contains(t),
    ensures
        specifier_bases(with_entry(m, base, e), spec).contains(t),
        with_entry(m, base, e).packages == m.packages,
{
    let after = with_entry(m, base, e);
    let exact = if m.exact.contains_key(spec) {
        m.exact[spec]
    } else {
        Seq::empty()
    };
    let exact2 = if after.exact.contains_key(spec) {
        after.exact[spec]
    } else {
        Seq::empty()
    };
    let pats = all_pattern_bases(m.patterns, spec);
    let pats2 = all_pattern_bases(after.patterns, spec);
    let packs = package_bases(m.packages, spec);
    let all = specifier_bases(m, spec);
    let all2 = specifier_bases(after, spec);
    let j = choose|j: int| 0 <= j < all.len() && all[j] == t;
    if j < exact.len() {
        assert(exact2[j] == exact[j]);
        assert(all2[j] == t);
    } else if j < exact.len() + pats.len() {
        assert(pats[j - exact.len()] == t);
        if index_from(e.0, '*', 0) is Some {
            assert(after.patterns =~= m.patterns.push(after.patterns.last()));
            lemma_pattern_bases_grow(m.patterns, after.patterns.last(), spec, t);
        }
        assert(pats2.contains(t));
        let k = choose|k: int| 0 <= k < pats2.len() && pats2[k] == t;
        assert(all2[exact2.len() + k] == t);
    } else {
        let k = j - exact.len() - pats.len();
        assert(packs[k] == t);
        assert(all2[exact2.len() + pats2.len() + k] == t);
    }
}

/// Targets are relative to `baseUrl` where it is given, below the directory of
/// the configuration, and else to that directory.
pub proof fn law_base_url(dir: Seq<char>, doc: JsonView, url: Seq<char>)
    ensures
        doc.get("compilerOptions"@).get("baseUrl"@) == JsonView::Str(url) ==> base_url(dir, doc)
            == joined(dir, url),
        !(doc.get("compilerOptions"@).get("baseUrl"@) is Str) ==> base_url(dir, doc) == dir,
{
}

proof fn lemma_text_is_kept(items: Seq<JsonView>, i: int)
    requires
        0 <= i < items.len(),
        items[i] is Str,
    ensures
        texts_in(items).contains(items[i]->Str_0),
    decreases items.len(),
{
    let all = texts_in(items);
    let before = texts_in(items.drop_last());
    if i == items.len() - 1 {
        assert(all[before.len() as int] == items[i]->Str_0);
    } else {
        assert(items.drop_last()[i] == items[i]);
        lemma_text_is_kept(items.drop_last(), i);
        let k = choose|k: int| 0 <= k < before.len() && before[k] == items[i]->Str_0;
        assert(all[k] == before[k]);
    }
}

proof fn lemma_place_in_range(entries: Seq<EntryView>, key: Seq<char>)
    ensures
        0 <= entry_place(entries, key) <= entries.len(),
    decreases entries.len(),
{
    if entries.len() > 0 {
        lemma_place_in_range(entries.drop_last(), key);
    }
}

proof fn lemma_entry_is_kept(fields: Seq<(Seq<char>, JsonView)>, i: int)
    requires
        0 <= i < fields.len(),
    ensures
        path_entries(fields).contains((fields[i].0, texts_in(fields[i].1.items()))),
    decreases fields.len(),
{
    let e = (fields[i].0, texts_in(fields[i].1.items()));
    let before = path_entries(fields.drop_last());
    let all = path_entries(fields);
    let last = (fields.last().0, texts_in(fields.last().1.items()));
    let at = entry_place(before, last.0);
    lemma_place_in_range(before, last.0);
    if i == fields.len() - 1 {
        assert(all[at] == e);
    } else {
        assert(fields.drop_last()[i] == fields[i]);
        lemma_entry_is_kept(fields.drop_last(), i);
        let k = choose|k: int| 0 <= k < before.len() && before[k] == e;
        if k < at {
            assert(all[k] == e);
        } else {
            assert(all[k + 1] == e);
        }
    }
}

proof fn lemma_entries_lead(
    m: SpecView,
    base: Seq<char>,
    es: Seq<EntryView>,
    i: int,
    spec: Seq<char>,
    t: Seq<char>,
)
    requires
        0 <= i < es.len(),
        forall|x: SpecView| (#[trigger] specifier_bases(with_entry(x, base, es[i]), spec)).contains(t),
    ensures
        specifier_bases(with_entries(m, base, es), spec).contains(t),
    decreases es.len(),
{
    let before = with_entries(m, base, es.drop_last());
    if i == es.len() - 1 {
        assert(specifier_bases(with_entry(before, base, es[i]), spec).contains(t));
    } else {
        assert(es.drop_last()[i] == es[i]);
        lemma_entries_lead(m, base, es.drop_last(), i, spec, t);
        law_entries_only_add(before, base, es.last(), spec, t);
    }
}

/// Each target of each entry of the `paths` of a configuration is a base of
/// the specifiers that the entry is about.
pub proof fn law_configured_paths_are_followed(
    m: SpecView,
    dir: Seq<char>,
    doc: JsonView,
    f: int,
    i: int,
    before: Seq<char>,
    behind: Seq<char>,
    star: Seq<char>,
)
    requires
        ({
            let fields = doc.get("compilerOptions"@).get("paths"@).fields();
            &&& 0 <= f < fields.len()
            &&& 0 <= i < fields[f].1.items().len()
            &&& fields[f].1.items()[i] is Str
            &&& fields[f].0 == before + seq!['*'] + behind
        }),
        no_star(before),
    ensures
        ({
            let fields = doc.get("compilerOptions"@).get("paths"@).fields();
            let target = fields[f].1.items()[i]->Str_0;
            specifier_bases(with_config(m, dir, Some(doc)), before + star + behind).contains(
                joined(base_url(dir, doc), filled(target, star)),
            )
        }),
{
    let fields = doc.get("compilerOptions"@).get("paths"@).fields();
    let items = fields[f].1.items();
    let target = items[i]->Str_0;
    let base = base_url(dir, doc);
    let es = path_entries(fields);
    let texts = texts_in(items);
    let t = joined(base, filled(target, star));
    lemma_entry_is_kept(fields, f);
    lemma_text_is_kept(items, i);
    let e = choose|e: int| 0 <= e < es.len() && es[e] == (fields[f].0, texts);
    let k = choose|k: int| 0 <= k < texts.len() && texts[k] == target;
    assert forall|x: SpecView| (#[trigger] specifier_bases(
        with_entry(x, base, es[e]),
        before + star + behind,
    )).contains(t) by {
        law_star_entries_lead_to_their_targets(x, base, before, behind, texts, star, k);
    }
    lemma_entries_lead(m, base, es, e, before + star + behind, t);
}

// ---------------------------------------------------------------------------
// Paths
// ---------------------------------------------------------------------------

/// A path below a directory has one slash between the two; an absolute path
/// stays, and so does one below no directory.
pub proof fn law_joined_paths(dir: Seq<char>, rest: Seq<char>)
    requires
        dir.len() > 0,
        rest.len() > 0 ==> rest[0] != '/',
    ensures
        dir.last() != '/' ==> joined(dir, rest) == dir + seq!['/'] + rest,
        dir.last() == '/' ==> joined(dir, rest) == dir + rest,
        joined(dir, seq!['/'] + rest) == seq!['/'] + rest,
        joined(Seq::empty(), rest) == rest,
{
    reveal_strlit("/");
    assert("/"@ =~= seq!['/']);
    if starts_with(rest, "/"@) {
        assert(rest.subrange(0, 1)[0] == rest[0]);
    }
    let n = dir.len() as int;
    assert(dir.subrange(n - 1, n)[0] == dir.last());
    if dir.last() == '/' {
        assert(dir.subrange(n - 1, n) =~= "/"@);
    }
    let abs = seq!['/'] + rest;
    assert(abs.subrange(0, 1) =~= "/"@);
}

proof fn lemma_name_start(front: Seq<char>, name: Seq<char>)
    requires
        no_slash(name),
        front.len() == 0 || front.last() == '/',
    ensures
        name_start(front + name) == front.len(),
    decreases name.len(),
{
    if name.len() == 0 {
        assert(front + name =~= front);
    } else {
        assert((front + name).last() == name.last());
        assert((front + name).drop_last() =~= front + name.drop_last());
        assert(no_slash(name.drop_last()));
        lemma_name_start(front, name.drop_last());
    }
}

/// A file stands in the directory in front of its name.
pub proof fn law_files_stand_in_their_directory(dir: Seq<char>, name: Seq<char>)
    requires
        dir.len() > 0,
        no_slash(name),
    ensures
        parent(dir + seq!['/'] + name) == dir,
        file_name(dir + seq!['/'] + name) == name,
        parent(seq!['/'] + name) == seq!['/'],
        parent(name) == Seq::<char>::empty(),
{
    let front = dir + seq!['/'];
    lemma_name_start(front, name);
    lemma_name_start(seq!['/'], name);
    lemma_name_start(Seq::empty(), name);
    assert(Seq::<char>::empty() + name =~= name);
    assert((front + name).take(front.len() - 1) =~= dir);
    assert((front + name).skip(front.len() as int) =~= name);
    assert((seq!['/'] + name).take(1) =~= seq!['/']);
}

proof fn lemma_kept_joined(a: Seq<Seq<char>>, b: Seq<Seq<char>>)
    requires
        all_plain(b),
    ensures
        kept(a + b) == kept(a) + b,
    decreases b.len(),
{
    if b.len() == 0 {
        assert(a + b =~= a);
        assert(kept(a) + b =~= kept(a));
    } else {
        assert((a + b).drop_last() =~= a + b.drop_last());
        assert((a + b).last() == b[b.len() - 1]);
        assert(all_plain(b.drop_last())) by {
            assert forall|i: int| 0 <= i < b.drop_last().len() implies (
            #[trigger] b.drop_last()[i]).len() > 0 && b.drop_last()[i] != "."@ && b.drop_last()[i]
                != ".."@ by {
                assert(b.drop_last()[i] == b[i]);
            }
        }
        lemma_kept_joined(a, b.drop_last());
        assert(kept(a) + b =~= (kept(a) + b.drop_last()).push(b.last()));
    }
}

/// `.` and empty parts mean nothing, `..` goes one part up, and at the root
/// nowhere; all other parts stay, in order.
pub proof fn law_parts_are_resolved(a: Seq<Seq<char>>, x: Seq<char>, b: Seq<Seq<char>>)
    requires
        all_plain(b),
        x.len() > 0,
        x != "."@,
        x != ".."@,
    ensures
        kept(a + seq!["."@] + b) == kept(a) + b,
        kept(a + seq![Seq::<char>::empty()] + b) == kept(a) + b,
        kept(a + seq![x] + b) == kept(a) + seq![x] + b,
        kept(a + seq![x, ".."@] + b) == kept(a) + b,
        kept(seq![".."@] + b) == b,
{
    reveal_strlit(".");
    reveal_strlit("..");
    assert("."@.len() == 1 && ".."@.len() == 2);
    lemma_kept_joined(a + seq!["."@], b);
    lemma_kept_joined(a + seq![Seq::<char>::empty()], b);
    lemma_kept_joined(a + seq![x], b);
    lemma_kept_joined(a + seq![x, ".."@], b);
    lemma_kept_joined(seq![".."@], b);
    assert((a + seq!["."@]).drop_last() =~= a);
    assert((a + seq![Seq::<char>::empty()]).drop_last() =~= a);
    assert((a + seq![x]).drop_last() =~= a);
    assert((a + seq![x, ".."@]).drop_last() =~= a + seq![x]);
    assert(kept(a + seq![x]).drop_last() =~= kept(a));
    assert(kept(a + seq![x]) =~= kept(a) + seq![x]);
    assert(seq![".."@].drop_last() =~= Seq::<Seq<char>>::empty());
    assert(kept(Seq::<Seq<char>>::empty()).len() == 0);
    assert(kept(seq![".."@]) =~= Seq::<Seq<char>>::empty());
    assert(Seq::<Seq<char>>::empty() + b =~= b);
}

/// Whether no part holds a slash.
pub open spec fn slash_free(parts: Seq<Seq<char>>) -> bool {
    forall|i: int| 0 <= i < parts.len() ==> no_slash(#[trigger] parts[i])
}

proof fn lemma_pieces_len(path: Seq<char>)
    ensures
        pieces(path).len() > 0,
    decreases path.len(),
{
    if path.len() > 0 {
        lemma_pieces_len(path.drop_last());
    }
}

proof fn lemma_pieces_append(path: Seq<char>, name: Seq<char>)
    requires
        no_slash(name),
    ensures
        pieces(path + seq!['/'] + name) == pieces(path).push(name),
    decreases name.len(),
{
    let front = path + seq!['/'];
    let whole = front + name;
    if name.len() == 0 {
        assert(whole =~= front);
        assert(front.drop_last() =~= path);
        assert(name =~= Seq::empty());
    } else {
        assert(no_slash(name.drop_last()));
        lemma_pieces_append(path, name.drop_last());
        assert(whole.drop_last() =~= front + name.drop_last());
        assert(whole.last() == name.last());
        let before = pieces(path).push(name.drop_last());
        assert(before.last().push(name.last()) =~= name);
        assert(before.update(before.len() - 1, name) =~= pieces(path).push(name));
    }
}

proof fn lemma_pieces_of_name(name: Seq<char>)
    requires
        no_slash(name),
    ensures
        pieces(name) == seq![name],
    decreases name.len(),
{
    if name.len() > 0 {
        assert(no_slash(name.drop_last()));
        lemma_pieces_of_name(name.drop_last());
        assert(name.drop_last().push(name.last()) =~= name);
        assert(seq![name.drop_last()].update(0, name) =~= seq![name]);
    } else {
        assert(name =~= Seq::empty());
    }
}

/// The parts of a path are what stands between its slashes.
pub proof fn law_parts_between_slashes(parts: Seq<Seq<char>>)
    requires
        slash_free(parts),
        parts.len() > 0,
    ensures
        pieces(slashed(parts)) == parts,
    decreases parts.len(),
{
    reveal_strlit("/");
    assert("/"@ =~= seq!['/']);
    if parts.len() == 1 {
        lemma_pieces_of_name(parts[0]);
        assert(parts =~= seq![parts[0]]);
    } else {
        let front = parts.drop_last();
        assert forall|i: int| 0 <= i < front.len() implies no_slash(#[trigger] front[i]) by {
            assert(front[i] == parts[i]);
        }
        law_parts_between_slashes(front);
        assert(no_slash(parts[parts.len() - 1]));
        lemma_pieces_append(slashed(front), parts.last());
        assert(front.push(parts.last()) =~= parts);
    }
}

/// An absolute path of plain parts is normal already.
pub proof fn law_plain_paths_stay(parts: Seq<Seq<char>>)
    requires
        slash_free(parts),
        all_plain(parts),
        parts.len() > 0,
    ensures
        normalized(seq!['/'] + slashed(parts)) == seq!['/'] + slashed(parts),
{
    reveal_strlit("/");
    assert("/"@ =~= seq!['/']);
    let whole = seq![Seq::<char>::empty()] + parts;
    assert(slash_free(whole)) by {
        assert forall|i: int| 0 <= i < whole.len() implies no_slash(#[trigger] whole[i]) by {
            if i > 0 {
                assert(whole[i] == parts[i - 1]);
            }
        }
    }
    lemma_slashed_absolute(parts);
    law_parts_between_slashes(whole);
    assert(Seq::<Seq<char>>::empty() + seq![Seq::<char>::empty()] + parts =~= whole);
    lemma_kept_joined(seq![Seq::<char>::empty()], parts);
    assert(seq![Seq::<char>::empty()].drop_last() =~= Seq::<Seq<char>>::empty());
    assert(kept(Seq::<Seq<char>>::empty()).len() == 0);
    assert(kept(seq![Seq::<char>::empty()]) =~= Seq::<Seq<char>>::empty());
    assert(Seq::<Seq<char>>::empty() + parts =~= parts);
    let path = seq!['/'] + slashed(parts);
    assert(path.subrange(0, 1) =~= "/"@);
}

proof fn lemma_slashed_absolute(parts: Seq<Seq<char>>)
    requires
        parts.len() > 0,
    ensures
        slashed(seq![Seq::<char>::empty()] + parts) == seq!['/'] + slashed(parts),
    decreases parts.len(),
{
    reveal_strlit("/");
    assert("/"@ =~= seq!['/']);
    let whole = seq![Seq::<char>::empty()] + parts;
    assert(whole.drop_last() =~= seq![Seq::<char>::empty()] + parts.drop_last());
    assert(whole.last() == parts.last());
    if parts.len() == 1 {
        assert(whole.drop_last() =~= seq![Seq::<char>::empty()]);
        assert(slashed(whole.drop_last()) =~= Seq::<char>::empty());
        assert(slashed(parts) =~= parts[0]);
        assert(slashed(whole) =~= seq!['/'] + parts[0]);
    } else {
        lemma_slashed_absolute(parts.drop_last());
        assert(slashed(whole) =~= seq!['/'] + slashed(parts));
    }
}

// ---------------------------------------------------------------------------
// Files
// ---------------------------------------------------------------------------

/// Of the files that a specifier may mean, the first that exists is taken; if
/// none exists, none.
pub proof fn law_first_existing_is_taken(files: Seq<Seq<char>>, existing: Set<Seq<char>>)
    ensures
        (match first_existing(files, existing) {
            Some(f) => exists|i: int|
                0 <= i < files.len() && files[i] == f && existing.contains(f) && forall|j: int|
                    0 <= j < i ==> !existing.contains(#[trigger] files[j]),
            None => forall|j: int| 0 <= j < files.len() ==> !existing.contains(#[trigger] files[j]),
        }),
    decreases files.len(),
{
    if files.len() > 0 && !existing.contains(files[0]) {
        let rest = files.drop_first();
        law_first_existing_is_taken(rest, existing);
        match first_existing(rest, existing) {
            Some(f) => {
                let i = choose|i: int|
                    0 <= i < rest.len() && rest[i] == f && existing.contains(f) && forall|j: int|
                        0 <= j < i ==> !existing.contains(#[trigger] rest[j]);
                assert(files[i + 1] == f);
                assert forall|j: int| 0 <= j < i + 1 implies !existing.contains(
                    #[trigger] files[j],
                ) by {
                    if j > 0 {
                        assert(files[j] == rest[j - 1]);
                    }
                }
            },
            None => {
                assert forall|j: int| 0 <= j < files.len() implies !existing.contains(
                    #[trigger] files[j],
                ) by {
                    if j > 0 {
                        assert(files[j] == rest[j - 1]);
                    }
                }
            },
        }
    } else if files.len() > 0 {
        assert(files[0] == first_existing(files, existing)->0);
    }
}

/// Whether a path ends in one of the suffixes of JavaScript files.
pub open spec fn has_script_suffix(base: Seq<char>) -> bool {
    ends_with(base, ".js"@) || ends_with(base, ".jsx"@) || ends_with(base, ".mjs"@) || ends_with(
        base,
        ".cjs"@,
    )
}

/// A base without the suffix of a script means, in this order, the TypeScript
/// file of its name, the one with elements, the file itself if it is a source,
/// and an index file below it or below its `src`.
pub proof fn law_candidates_in_order(base: Seq<char>)
    requires
        !has_script_suffix(base),
    ensures
        candidates(base)[0] == base + ".ts"@,
        candidates(base)[1] == base + ".tsx"@,
        is_source_path(base) ==> candidates(base)[2] == base,
        ({
            let n = candidates(base).len();
            &&& n == if is_source_path(base) {
                7int
            } else {
                6int
            }
            &&& candidates(base)[n - 4] == joined(base, "index.ts"@)
            &&& candidates(base)[n - 3] == joined(base, "index.tsx"@)
            &&& candidates(base)[n - 2] == joined(base, "src/index.ts"@)
            &&& candidates(base)[n - 1] == joined(base, "src/index.tsx"@)
        }),
{
}

proof fn lemma_suffix(stem: Seq<char>, suffix: Seq<char>)
    ensures
        ends_with(stem + suffix, suffix),
        (stem + suffix).take((stem + suffix).len() - suffix.len()) == stem,
{
    let t = stem + suffix;
    assert(t.subrange(t.len() - suffix.len(), t.len() as int) =~= suffix);
    assert(t.take(t.len() - suffix.len()) =~= stem);
}

proof fn lemma_last_two(t: Seq<char>, suffix: Seq<char>)
    requires
        ends_with(t, suffix),
        suffix.len() >= 2,
    ensures
        t.len() >= suffix.len(),
        t[t.len() - 1] == suffix[suffix.len() - 1],
        t[t.len() - 2] == suffix[suffix.len() - 2],
        suffix.len() >= 3 ==> t[t.len() - 3] == suffix[suffix.len() - 3],
{
    let part = t.subrange(t.len() - suffix.len(), t.len() as int);
    assert(part == suffix);
    assert(part[suffix.len() - 1] == t[t.len() - 1]);
    assert(part[suffix.len() - 2] == t[t.len() - 2]);
    if suffix.len() >= 3 {
        assert(part[suffix.len() - 3] == t[t.len() - 3]);
    }
}

/// A script suffix is taken for that of the TypeScript file, before anything
/// else is tried.
pub proof fn law_script_suffixes_mean_sources(stem: Seq<char>)
    ensures
        candidates(stem + ".js"@)[0] == stem + ".ts"@,
        candidates(stem + ".js"@)[1] == stem + ".tsx"@,
        candidates(stem + ".jsx"@)[0] == stem + ".tsx"@,
        candidates(stem + ".mjs"@)[0] == stem + ".mts"@,
        candidates(stem + ".cjs"@)[0] == stem + ".cts"@,
{
    reveal_strlit(".js");
    reveal_strlit(".jsx");
    reveal_strlit(".mjs");
    reveal_strlit(".cjs");
    assert(".js"@.len() == 3 && ".jsx"@.len() == 4 && ".mjs"@.len() == 4 && ".cjs"@.len() == 4);
    assert(".js"@[0] == '.' && ".js"@[1] == 'j' && ".js"@[2] == 's');
    assert(".jsx"@[1] == 'j' && ".jsx"@[2] == 's' && ".jsx"@[3] == 'x');
    assert(".mjs"@[1] == 'm' && ".mjs"@[2] == 'j' && ".mjs"@[3] == 's');
    assert(".cjs"@[1] == 'c' && ".cjs"@[2] == 'j' && ".cjs"@[3] == 's');
    lemma_suffix(stem, ".js"@);
    lemma_suffix(stem, ".jsx"@);
    lemma_suffix(stem, ".mjs"@);
    lemma_suffix(stem, ".cjs"@);
    lemma_swaps(stem, ".js"@);
    lemma_swaps(stem, ".jsx"@);
    lemma_swaps(stem, ".mjs"@);
    lemma_swaps(stem, ".cjs"@);
}

proof fn lemma_swaps(stem: Seq<char>, suffix: Seq<char>)
    requires
        suffix == ".js"@ || suffix == ".jsx"@ || suffix == ".mjs"@ || suffix == ".cjs"@,
    ensures
        ends_with(stem + suffix, ".js"@) <==> suffix == ".js"@,
        ends_with(stem + suffix, ".jsx"@) <==> suffix == ".jsx"@,
        ends_with(stem + suffix, ".mjs"@) <==> suffix == ".mjs"@,
        ends_with(stem + suffix, ".cjs"@) <==> suffix == ".cjs"@,
{
    reveal_strlit(".js");
    reveal_strlit(".jsx");
    reveal_strlit(".mjs");
    reveal_strlit(".cjs");
    assert(".js"@.len() == 3 && ".jsx"@.len() == 4 && ".mjs"@.len() == 4 && ".cjs"@.len() == 4);
    assert(".js"@[0] == '.' && ".js"@[1] == 'j' && ".js"@[2] == 's');
    assert(".jsx"@[1] == 'j' && ".jsx"@[2] == 's' && ".jsx"@[3] == 'x');
    assert(".mjs"@[1] == 'm' && ".mjs"@[2] == 'j' && ".mjs"@[3] == 's');
    assert(".cjs"@[1] == 'c' && ".cjs"@[2] == 'j' && ".cjs"@[3] == 's');
    let t = stem + suffix;
    let n = t.len() as int;
    lemma_suffix(stem, suffix);
    lemma_last_two(t, suffix);
    if ends_with(t, ".js"@) {
        lemma_last_two(t, ".js"@);
    }
    if ends_with(t, ".jsx"@) {
        lemma_last_two(t, ".jsx"@);
    }
    if ends_with(t, ".mjs"@) {
        lemma_last_two(t, ".mjs"@);
    }
    if ends_with(t, ".cjs"@) {
        lemma_last_two(t, ".cjs"@);
    }
}

/// A relative specifier is looked for below the directory of the importing
/// file, and nowhere else; any other specifier goes by the configuration.
pub proof fn law_relative_specifiers(
    dir: Seq<char>,
    name: Seq<char>,
    rest: Seq<char>,
    spec: Seq<char>,
    m: SpecView,
)
    requires
        dir.len() > 0,
        no_slash(name),
    ensures
        import_bases(dir + seq!['/'] + name, seq!['.'] + rest, m) == seq![
            joined(dir, seq!['.'] + rest),
        ],
        spec.len() > 0 && spec[0] != '.' ==> import_bases(dir + seq!['/'] + name, spec, m)
            == specifier_bases(m, spec),
{
    reveal_strlit(".");
    assert("."@ =~= seq!['.']);
    law_files_stand_in_their_directory(dir, name);
    let dotted = seq!['.'] + rest;
    assert(dotted.subrange(0, 1) =~= "."@);
    if spec.len() > 0 && starts_with(spec, "."@) {
        assert(spec.subrange(0, 1)[0] == spec[0]);
    }
}

/// The first base whose file exists decides: what a later base may mean is
/// asked only then.
pub proof fn law_bases_are_tried_in_order(bases: Seq<Seq<char>>, more: Seq<char>)
    ensures
        all_candidates(bases.push(more)) == all_candidates(bases) + candidates(normalized(more)),
{
    assert(bases.push(more).drop_last() =~= bases);
}

proof fn lemma_source_suffix(name: Seq<char>, suffix: Seq<char>)
    requires
        no_slash(name),
        no_slash(suffix),
        name.len() > 0,
    ensures
        has_extension(name + suffix, suffix),
{
    lemma_suffix(name, suffix);
    let t = name + suffix;
    lemma_name_start(Seq::empty(), t);
    assert(Seq::<char>::empty() + t =~= t);
    assert(t.skip(0) =~= t);
}

/// The sources of a project are its TypeScript files, without declaration
/// files.
pub proof fn law_project_sources(name: Seq<char>)
    requires
        no_slash(name),
        name.len() > 0,
    ensures
        is_source_path(name + ".ts"@),
        is_source_path(name + ".tsx"@),
        is_source_path(name + ".mts"@),
        is_source_path(name + ".cts"@),
        !is_project_source(name + ".d.ts"@),
        is_project_source(name + ".tsx"@),
        !is_source_path(name + ".js"@),
        !is_source_path(name + ".json"@),
{
    reveal_strlit(".ts");
    reveal_strlit(".tsx");
    reveal_strlit(".mts");
    reveal_strlit(".cts");
    reveal_strlit(".d.ts");
    reveal_strlit(".js");
    reveal_strlit(".json");
    assert(".ts"@.len() == 3 && ".tsx"@.len() == 4 && ".mts"@.len() == 4 && ".cts"@.len() == 4);
    assert(".d.ts"@.len() == 5 && ".js"@.len() == 3 && ".json"@.len() == 5);
    assert(".ts"@[1] == 't' && ".ts"@[2] == 's' && ".tsx"@[3] == 'x' && ".mts"@[3] == 's');
    assert(".cts"@[3] == 's' && ".d.ts"@[4] == 's' && ".js"@[2] == 's' && ".js"@[1] == 'j');
    assert(".mts"@[2] == 't' && ".cts"@[2] == 't' && ".tsx"@[2] == 's' && ".json"@[4] == 'n');
    lemma_source_suffix(name, ".ts"@);
    lemma_source_suffix(name, ".tsx"@);
    lemma_source_suffix(name, ".mts"@);
    lemma_source_suffix(name, ".cts"@);
    lemma_suffix(name, ".d.ts"@);
    let a = name + ".tsx"@;
    assert(a.last() == 'x');
    if ends_with(a, ".d.ts"@) {
        lemma_last_two(a, ".d.ts"@);
    }
    let b = name + ".js"@;
    assert(b[b.len() - 1] == 's' && b[b.len() - 2] == 'j');
    let c = name + ".json"@;
    assert(c[c.len() - 1] == 'n');
    if ends_with(b, ".ts"@) {
        lemma_last_two(b, ".ts"@);
    }
    if ends_with(b, ".tsx"@) {
        lemma_last_two(b, ".tsx"@);
    }
    if ends_with(b, ".mts"@) {
        lemma_last_two(b, ".mts"@);
    }
    if ends_with(b, ".cts"@) {
        lemma_last_two(b, ".cts"@);
    }
    if ends_with(c, ".ts"@) {
        lemma_last_two(c, ".ts"@);
    }
    if ends_with(c, ".tsx"@) {
        lemma_last_two(c, ".tsx"@);
    }
    if ends_with(c, ".mts"@) {
        lemma_last_two(c, ".mts"@);
    }
    if ends_with(c, ".cts"@) {
        lemma_last_two(c, ".cts"@);
    }
}

/// What is installed, built or hidden is not part of a project.
pub proof fn law_skipped_directories(name: Seq<char>)
    ensures
        is_skipped_dir("node_modules"@),
        is_skipped_dir("dist"@),
        is_skipped_dir("target"@),
        is_skipped_dir(seq!['.'] + name),
        name.len() > 0 && name[0] != '.' && name != "node_modules"@ && name != "dist"@ && name
            != "target"@ ==> !is_skipped_dir(name),
{
    reveal_strlit(".");
    assert("."@ =~= seq!['.']);
    let dotted = seq!['.'] + name;
    assert(dotted.subrange(0, 1) =~= "."@);
    if name.len() > 0 && starts_with(name, "."@) {
        assert(name.subrange(0, 1)[0] == name[0]);
    }
}

} // verus!

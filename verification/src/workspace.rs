//! Non-relative import resolution: tsconfig `paths`/`baseUrl` mappings and
//! workspace package names (monorepo `package.json` `name` fields).
//!
//! Anything that cannot be resolved here stays unresolved, and linking taints
//! by name instead of dropping calls.

use vstd::hash_map::StringHashMap;
use vstd::prelude::*;
use vstd::string::*;

use crate::json::{json_document, read_json, Json, JsonView};
use crate::jsonc::{plain_json, strip_jsonc};
use crate::model::{map_view, views};
use crate::order::{text_before, text_le};
use crate::path::{is_source_path, join, joined, source_path};
use crate::text::{
    chars_of, ends_with, find_char, has_prefix, has_suffix, index_from, same_text, starts_with,
    text_between,
};

verus! {

broadcast use crate::json::group_json_views;

/// A list of texts.
#[derive(Debug)]
pub struct Texts {
    pub items: Vec<String>,
}

impl View for Texts {
    type V = Seq<Seq<char>>;

    open spec fn view(&self) -> Seq<Seq<char>> {
        views(self.items@)
    }
}

/// A wildcard `paths` entry: what stands before and after the `*` of its key,
/// and its targets, each a directory and a template with a `*`.
#[derive(Debug)]
pub struct PathPattern {
    pub prefix: String,
    pub suffix: String,
    pub targets: Vec<(String, String)>,
}

#[verifier::ext_equal]
pub struct PatternView {
    pub prefix: Seq<char>,
    pub suffix: Seq<char>,
    pub targets: Seq<(Seq<char>, Seq<char>)>,
}

impl View for PathPattern {
    type V = PatternView;

    open spec fn view(&self) -> PatternView {
        PatternView {
            prefix: self.prefix@,
            suffix: self.suffix@,
            targets: views(self.targets@),
        }
    }
}

pub struct SpecifierMap {
    /// Exact tsconfig `paths` keys (no `*`) to target bases.
    exact: StringHashMap<Texts>,
    patterns: Vec<PathPattern>,
    /// Workspace package name to package directory.
    packages: StringHashMap<String>,
}

#[verifier::ext_equal]
pub struct SpecView {
    pub exact: Map<Seq<char>, Seq<Seq<char>>>,
    pub patterns: Seq<PatternView>,
    pub packages: Map<Seq<char>, Seq<char>>,
}

impl View for SpecifierMap {
    type V = SpecView;

    closed spec fn view(&self) -> SpecView {
        SpecView {
            exact: map_view(self.exact@),
            patterns: views(self.patterns@),
            packages: map_view(self.packages@),
        }
    }
}

pub open spec fn empty_specs() -> SpecView {
    SpecView { exact: Map::empty(), patterns: Seq::empty(), packages: Map::empty() }
}

// ---------------------------------------------------------------------------
// Looking specifiers up
// ---------------------------------------------------------------------------

/// The template with every `*` replaced.
pub open spec fn filled(template: Seq<char>, star: Seq<char>) -> Seq<char>
    decreases template.len(),
{
    if template.len() == 0 {
        Seq::empty()
    } else {
        filled(template.drop_last(), star) + (if template.last() == '*' {
            star
        } else {
            seq![template.last()]
        })
    }
}

/// Whether a specifier fits around the `*` of a pattern.
pub open spec fn fits(p: PatternView, spec: Seq<char>) -> bool {
    spec.len() >= p.prefix.len() + p.suffix.len() && starts_with(spec, p.prefix) && ends_with(
        spec,
        p.suffix,
    )
}

/// The bases that a pattern gives for a specifier.
pub open spec fn pattern_bases(p: PatternView, spec: Seq<char>) -> Seq<Seq<char>> {
    if fits(p, spec) {
        let star = spec.subrange(p.prefix.len() as int, spec.len() - p.suffix.len());
        Seq::new(
            p.targets.len(),
            |i: int| joined(p.targets[i].0, filled(p.targets[i].1, star)),
        )
    } else {
        Seq::empty()
    }
}

pub open spec fn all_pattern_bases(ps: Seq<PatternView>, spec: Seq<char>) -> Seq<Seq<char>>
    decreases ps.len(),
{
    if ps.len() == 0 {
        Seq::empty()
    } else {
        all_pattern_bases(ps.drop_last(), spec) + pattern_bases(ps.last(), spec)
    }
}

/// Where the subpath of a specifier starts: at its first slash, or at its
/// second if it has a scope.
pub open spec fn subpath_slash(spec: Seq<char>) -> Option<int> {
    if starts_with(spec, "@"@) {
        match index_from(spec, '/', 0) {
            Some(first) => index_from(spec, '/', first + 1),
            None => None,
        }
    } else {
        index_from(spec, '/', 0)
    }
}

/// `@scope/pkg/sub/path` is `@scope/pkg` and `sub/path`; `pkg/sub` is `pkg` and `sub`.
pub open spec fn package_and_subpath(spec: Seq<char>) -> Option<(Seq<char>, Seq<char>)> {
    match subpath_slash(spec) {
        Some(k) => Some((spec.take(k), spec.skip(k + 1))),
        None => None,
    }
}

/// The bases that the workspace packages give for a specifier.
pub open spec fn package_bases(packages: Map<Seq<char>, Seq<char>>, spec: Seq<char>) -> Seq<
    Seq<char>,
> {
    if packages.contains_key(spec) {
        seq![packages[spec]]
    } else {
        match package_and_subpath(spec) {
            Some((name, sub)) => if packages.contains_key(name) {
                seq![
                    joined(packages[name], sub),
                    joined(joined(packages[name], "src"@), sub),
                ]
            } else {
                Seq::empty()
            },
            None => Seq::empty(),
        }
    }
}

/// The base paths that a specifier may mean, best first.
pub open spec fn specifier_bases(m: SpecView, spec: Seq<char>) -> Seq<Seq<char>> {
    (if m.exact.contains_key(spec) {
        m.exact[spec]
    } else {
        Seq::empty()
    }) + all_pattern_bases(m.patterns, spec) + package_bases(m.packages, spec)
}

fn fill(template: &str, star: &str) -> (r: String)
    ensures
        r@ == filled(template@, star@),
{
    let c = chars_of(template);
    let mut out: String = String::new();
    assert(out@ =~= filled(c@.take(0), star@));
    let mut i: usize = 0;
    while i < c.len()
        invariant
            i <= c@.len(),
            out@ == filled(c@.take(i as int), star@),
        decreases c@.len() - i,
    {
        let ghost before = out@;
        if c[i] == '*' {
            out.append(star);
        } else {
            out.push(c[i]);
        }
        proof {
            assert(c@.take(i + 1).drop_last() =~= c@.take(i as int));
            assert(out@ =~= filled(c@.take(i + 1), star@));
        }
        i += 1;
    }
    assert(c@.take(i as int) =~= c@);
    out
}

fn push_base(out: &mut Vec<String>, base: String)
    ensures
        views(final(out)@) == views(old(out)@).push(base@),
{
    let ghost before = views(out@);
    out.push(base);
    assert(views(out@) =~= before.push(base@));
}

fn push_pattern_bases(out: &mut Vec<String>, p: &PathPattern, spec: &str)
    ensures
        views(final(out)@) == views(old(out)@) + pattern_bases(p@, spec@),
{
    let ghost before = views(out@);
    let c = chars_of(spec);
    let before_star: usize = chars_of(p.prefix.as_str()).len();
    let after_star: usize = chars_of(p.suffix.as_str()).len();
    if c.len() < before_star || c.len() - before_star < after_star || !has_prefix(
        spec,
        p.prefix.as_str(),
    ) || !has_suffix(spec, p.suffix.as_str()) {
        assert(before + Seq::<Seq<char>>::empty() =~= before);
        return ;
    }
    let star = text_between(&c, before_star, c.len() - after_star);
    let ghost bases = pattern_bases(p@, spec@);
    assert(before + bases.take(0) =~= before);
    let mut i: usize = 0;
    while i < p.targets.len()
        invariant
            i <= p.targets@.len(),
            bases.len() == p.targets@.len(),
            forall|j: int|
                0 <= j < p.targets@.len() ==> bases[j] == joined(
                    (#[trigger] p.targets@[j]).0@,
                    filled(p.targets@[j].1@, star@),
                ),
            views(out@) == before + bases.take(i as int),
        decreases p.targets@.len() - i,
    {
        let t = &p.targets[i];
        push_base(out, join(t.0.as_str(), fill(t.1.as_str(), star.as_str()).as_str()));
        proof {
            assert(views(out@) =~= before + bases.take(i + 1));
        }
        i += 1;
    }
    assert(bases.take(i as int) =~= bases);
}

fn split_scoped_subpath(spec: &str) -> (r: Option<(String, String)>)
    ensures
        (match r {
            Some((name, sub)) => package_and_subpath(spec@) == Some((name@, sub@)),
            None => package_and_subpath(spec@) is None,
        }),
{
    let c = chars_of(spec);
    let total: usize = c.len();
    let boundary = if has_prefix(spec, "@") {
        match find_char(&c, '/', 0) {
            Some(first) => find_char(&c, '/', first + 1),
            None => None,
        }
    } else {
        find_char(&c, '/', 0)
    };
    match boundary {
        Some(k) => {
            let name = text_between(&c, 0, k);
            let sub = text_between(&c, k + 1, total);
            assert(name@ =~= spec@.take(k as int));
            assert(sub@ =~= spec@.skip(k + 1));
            Some((name, sub))
        },
        None => None,
    }
}

impl SpecifierMap {
    /// A map that knows nothing.
    pub fn new() -> (r: Self)
        ensures
            r@ == empty_specs(),
    {
        let r = SpecifierMap {
            exact: StringHashMap::new(),
            patterns: Vec::new(),
            packages: StringHashMap::new(),
        };
        assert(r@ =~= empty_specs());
        r
    }

    /// Candidate base paths (before extension and index probing) for a
    /// non-relative specifier. Empty: nothing is known about it.
    pub fn resolve(&self, spec: &str) -> (r: Vec<String>)
        ensures
            views(r@) == specifier_bases(self@, spec@),
    {
        let mut out: Vec<String> = Vec::new();
        let ghost first = if self@.exact.contains_key(spec@) {
            self@.exact[spec@]
        } else {
            Seq::empty()
        };
        if let Some(bases) = self.exact.get(spec) {
            assert(self@.exact[spec@] == bases@);
            let mut i: usize = 0;
            assert(views(out@) =~= first.take(0));
            while i < bases.items.len()
                invariant
                    i <= bases.items@.len(),
                    first == views(bases.items@),
                    views(out@) == first.take(i as int),
                decreases bases.items@.len() - i,
            {
                push_base(&mut out, bases.items[i].clone());
                assert(first.take(i + 1) =~= first.take(i as int).push(first[i as int]));
                i += 1;
            }
            assert(first.take(i as int) =~= first);
        }
        assert(views(out@) =~= first);
        let ghost ps = self@.patterns;
        assert(first + all_pattern_bases(ps.take(0), spec@) =~= first);
        let mut i: usize = 0;
        while i < self.patterns.len()
            invariant
                ps == views(self.patterns@),
                i <= self.patterns@.len(),
                views(out@) == first + all_pattern_bases(ps.take(i as int), spec@),
            decreases self.patterns@.len() - i,
        {
            push_pattern_bases(&mut out, &self.patterns[i], spec);
            proof {
                assert(ps.take(i + 1).drop_last() =~= ps.take(i as int));
                assert(ps.take(i + 1).last() == self.patterns@[i as int]@);
                assert(views(out@) =~= first + all_pattern_bases(ps.take(i + 1), spec@));
            }
            i += 1;
        }
        assert(ps.take(i as int) =~= ps);
        let ghost so_far = views(out@);
        if let Some(dir) = self.packages.get(spec) {
            assert(self@.packages[spec@] == dir@);
            push_base(&mut out, dir.clone());
        } else if let Some((name, sub)) = split_scoped_subpath(spec) {
            if let Some(dir) = self.packages.get(name.as_str()) {
                assert(self@.packages[name@] == dir@);
                push_base(&mut out, join(dir.as_str(), sub.as_str()));
                push_base(&mut out, join(join(dir.as_str(), "src").as_str(), sub.as_str()));
            }
        }
        assert(views(out@) =~= so_far + package_bases(self@.packages, spec@));
        out
    }

    /// Whether nothing is known about any specifier.
    pub fn is_empty(&self) -> (r: bool)
        ensures
            r == (self@ == empty_specs()),
    {
        let r = self.exact.is_empty() && self.patterns.len() == 0 && self.packages.is_empty();
        proof {
            if r {
                assert(self@ =~= empty_specs());
            }
            if self@ == empty_specs() {
                assert(self.exact@.dom() =~= self@.exact.dom());
                assert(self.packages@.dom() =~= self@.packages.dom());
                assert(self.exact@ =~= Map::empty());
                assert(self.packages@ =~= Map::empty());
                assert(self.patterns@.len() == self@.patterns.len());
            }
        }
        r
    }
}

// ---------------------------------------------------------------------------
// Reading configuration files
// ---------------------------------------------------------------------------

/// The `name` of a package manifest.
pub open spec fn package_name(doc: JsonView) -> Option<Seq<char>> {
    match doc.get("name"@) {
        JsonView::Str(s) => Some(s),
        _ => None,
    }
}

/// The map with a package added, unless one of its name is known.
pub open spec fn with_package(m: SpecView, dir: Seq<char>, doc: Option<JsonView>) -> SpecView {
    match doc {
        Some(v) => match package_name(v) {
            Some(name) => if m.packages.contains_key(name) {
                m
            } else {
                SpecView { packages: m.packages.insert(name, dir), ..m }
            },
            None => m,
        },
        None => m,
    }
}

/// The texts among the elements.
pub open spec fn texts_in(items: Seq<JsonView>) -> Seq<Seq<char>>
    decreases items.len(),
{
    if items.len() == 0 {
        Seq::empty()
    } else {
        let before = texts_in(items.drop_last());
        match items.last() {
            JsonView::Str(s) => before.push(s),
            _ => before,
        }
    }
}

/// A `paths` entry: its key and its targets.
pub type EntryView = (Seq<char>, Seq<Seq<char>>);

/// The entries of a `paths` object, in the order of their keys.
pub open spec fn path_entries(fields: Seq<(Seq<char>, JsonView)>) -> Seq<EntryView>
    decreases fields.len(),
{
    if fields.len() == 0 {
        Seq::empty()
    } else {
        let before = path_entries(fields.drop_last());
        let e = (fields.last().0, texts_in(fields.last().1.items()));
        before.insert(entry_place(before, e.0), e)
    }
}

/// The number of entries in front of the place of a key.
pub open spec fn entry_place(entries: Seq<EntryView>, key: Seq<char>) -> int
    decreases entries.len(),
{
    if entries.len() == 0 || text_le(entries.last().0, key) {
        entries.len() as int
    } else {
        entry_place(entries.drop_last(), key)
    }
}

/// The map with a `paths` entry added, its targets relative to `base`.
pub open spec fn with_entry(m: SpecView, base: Seq<char>, e: EntryView) -> SpecView {
    match index_from(e.0, '*', 0) {
        Some(k) => SpecView {
            patterns: m.patterns.push(
                PatternView {
                    prefix: e.0.take(k),
                    suffix: e.0.skip(k + 1),
                    targets: Seq::new(e.1.len(), |i: int| (base, e.1[i])),
                },
            ),
            ..m
        },
        None => SpecView {
            exact: m.exact.insert(
                e.0,
                (if m.exact.contains_key(e.0) {
                    m.exact[e.0]
                } else {
                    Seq::empty()
                }) + Seq::new(e.1.len(), |i: int| joined(base, e.1[i])),
            ),
            ..m
        },
    }
}

pub open spec fn with_entries(m: SpecView, base: Seq<char>, es: Seq<EntryView>) -> SpecView
    decreases es.len(),
{
    if es.len() == 0 {
        m
    } else {
        with_entry(with_entries(m, base, es.drop_last()), base, es.last())
    }
}

/// The directory that the targets of a configuration are relative to.
pub open spec fn base_url(dir: Seq<char>, doc: JsonView) -> Seq<char> {
    match doc.get("compilerOptions"@).get("baseUrl"@) {
        JsonView::Str(b) => joined(dir, b),
        _ => dir,
    }
}

/// The map with the `paths` of a compiler configuration added.
pub open spec fn with_config(m: SpecView, dir: Seq<char>, doc: Option<JsonView>) -> SpecView {
    match doc {
        Some(v) => with_entries(
            m,
            base_url(dir, v),
            path_entries(v.get("compilerOptions"@).get("paths"@).fields()),
        ),
        None => m,
    }
}

/// A configuration file: the directory it stands in, its name and its text.
#[derive(Debug)]
pub struct ConfigFile {
    pub dir: String,
    pub name: String,
    pub text: String,
}

#[verifier::ext_equal]
pub struct ConfigView {
    pub dir: Seq<char>,
    pub name: Seq<char>,
    pub text: Seq<char>,
}

impl View for ConfigFile {
    type V = ConfigView;

    open spec fn view(&self) -> ConfigView {
        ConfigView { dir: self.dir@, name: self.name@, text: self.text@ }
    }
}

pub open spec fn is_package_file(name: Seq<char>) -> bool {
    name == "package.json"@
}

pub open spec fn is_config_file(name: Seq<char>) -> bool {
    name == "tsconfig.json"@ || name == "tsconfig.base.json"@
}

/// The packages of the files, the first of a name kept.
pub open spec fn with_packages(files: Seq<ConfigView>) -> SpecView
    decreases files.len(),
{
    if files.len() == 0 {
        empty_specs()
    } else {
        let before = with_packages(files.drop_last());
        if is_package_file(files.last().name) {
            with_package(before, files.last().dir, json_document(files.last().text))
        } else {
            before
        }
    }
}

/// The compiler configurations of the files, added to the map in order.
pub open spec fn with_configs(m: SpecView, files: Seq<ConfigView>) -> SpecView
    decreases files.len(),
{
    if files.len() == 0 {
        m
    } else {
        let before = with_configs(m, files.drop_last());
        if is_config_file(files.last().name) {
            with_config(before, files.last().dir, json_document(plain_json(files.last().text)))
        } else {
            before
        }
    }
}

/// The `name` of a package manifest.
pub fn package_name_of(doc: &Json) -> (r: Option<String>)
    ensures
        (match r {
            Some(name) => package_name(doc@) == Some(name@),
            None => package_name(doc@) is None,
        }),
{
    match doc.get("name") {
        Json::Str(s) => Some(s.clone()),
        _ => None,
    }
}

fn collect_texts(list: &Json) -> (r: Vec<String>)
    ensures
        views(r@) == texts_in(list@.items()),
{
    let ghost all = list@.items();
    let mut out: Vec<String> = Vec::new();
    assert(views(out@) =~= texts_in(all.take(0)));
    let total: usize = list.count();
    let mut i: usize = 0;
    while i < total
        invariant
            all == list@.items(),
            total == all.len(),
            i <= total,
            views(out@) == texts_in(all.take(i as int)),
        decreases total - i,
    {
        proof {
            assert(all.take(i + 1).drop_last() =~= all.take(i as int));
            assert(all.take(i + 1).last() == all[i as int]);
        }
        if let Json::Str(s) = list.at(i) {
            push_base(&mut out, s.clone());
        }
        i += 1;
    }
    assert(all.take(i as int) =~= all);
    out
}

/// A `paths` entry.
#[derive(Debug)]
struct PathEntry {
    key: String,
    targets: Vec<String>,
}

impl View for PathEntry {
    type V = EntryView;

    closed spec fn view(&self) -> EntryView {
        (self.key@, views(self.targets@))
    }
}

fn collect_entries(paths: &Json) -> (r: Vec<PathEntry>)
    ensures
        views(r@) == path_entries(paths@.fields()),
{
    let mut out: Vec<PathEntry> = Vec::new();
    assert(views(out@) =~= path_entries(Seq::empty()));
    match paths {
        Json::Object(fields) => {
            let ghost all = views(fields@);
            assert(paths@ == JsonView::Object(all));
            assert(all.take(0) =~= Seq::empty());
            let mut i: usize = 0;
            while i < fields.len()
                invariant
                    all == views(fields@),
                    i <= fields@.len(),
                    views(out@) == path_entries(all.take(i as int)),
                decreases fields@.len() - i,
            {
                let e = PathEntry {
                    key: fields[i].0.clone(),
                    targets: collect_texts(&fields[i].1),
                };
                let ghost before = views(out@);
                let mut k: usize = out.len();
                assert(before.take(k as int) =~= before);
                while k > 0 && !text_before(out[k - 1].key.as_str(), e.key.as_str())
                    invariant
                        before == views(out@),
                        k <= out@.len(),
                        entry_place(before, e@.0) == entry_place(before.take(k as int), e@.0),
                    decreases k,
                {
                    proof {
                        assert(before.take(k as int).drop_last() =~= before.take(k - 1));
                        assert(before.take(k as int).last() == out@[k - 1]@);
                    }
                    k -= 1;
                }
                proof {
                    if k > 0 {
                        assert(before.take(k as int).last() == out@[k - 1]@);
                    }
                    assert(entry_place(before, e@.0) == k);
                    assert(all.take(i + 1).drop_last() =~= all.take(i as int));
                    assert(all.take(i + 1).last() == fields@[i as int]@);
                }
                out.insert(k, e);
                assert(views(out@) =~= before.insert(k as int, e@));
                i += 1;
            }
            assert(all.take(i as int) =~= all);
        },
        _ => {},
    }
    out
}

impl SpecifierMap {
    /// Adds the package of a manifest that stands in `dir`.
    pub fn add_package(&mut self, dir: &str, doc: &Json)
        ensures
            final(self)@ == with_package(old(self)@, dir@, Some(doc@)),
    {
        let ghost before = self@;
        if let Some(name) = package_name_of(doc) {
            if !self.packages.contains_key(name.as_str()) {
                let ghost key = name@;
                self.packages.insert(name, dir.to_owned());
                assert(self@ =~= SpecView { packages: before.packages.insert(key, dir@), ..before });
            }
        }
    }

    fn add_entry(&mut self, base: &str, e: &PathEntry)
        ensures
            final(self)@ == with_entry(old(self)@, base@, e@),
    {
        let ghost before = self@;
        let c = chars_of(e.key.as_str());
        let total: usize = c.len();
        match find_char(&c, '*', 0) {
            Some(k) => {
                let mut targets: Vec<(String, String)> = Vec::new();
                let mut i: usize = 0;
                while i < e.targets.len()
                    invariant
                        i <= e.targets@.len(),
                        targets@.len() == i,
                        forall|j: int|
                            0 <= j < i ==> (#[trigger] targets@[j])@ == (base@, e.targets@[j]@),
                    decreases e.targets@.len() - i,
                {
                    targets.push((base.to_owned(), e.targets[i].clone()));
                    i += 1;
                }
                let p = PathPattern {
                    prefix: text_between(&c, 0, k),
                    suffix: text_between(&c, k + 1, total),
                    targets,
                };
                proof {
                    assert(p@.prefix =~= e@.0.take(k as int));
                    assert(p@.suffix =~= e@.0.skip(k + 1));
                    assert(p@.targets =~= Seq::new(e@.1.len(), |i: int| (base@, e@.1[i])));
                }
                self.patterns.push(p);
                assert(self@ =~= SpecView { patterns: before.patterns.push(p@), ..before });
            },
            None => {
                let mut bases: Vec<String> = Vec::new();
                let ghost known = if before.exact.contains_key(e@.0) {
                    before.exact[e@.0]
                } else {
                    Seq::empty()
                };
                if let Some(list) = self.exact.get(e.key.as_str()) {
                    assert(before.exact[e@.0] == list@);
                    let mut i: usize = 0;
                    assert(views(bases@) =~= known.take(0));
                    while i < list.items.len()
                        invariant
                            i <= list.items@.len(),
                            known == views(list.items@),
                            views(bases@) == known.take(i as int),
                        decreases list.items@.len() - i,
                    {
                        push_base(&mut bases, list.items[i].clone());
                        assert(known.take(i + 1) =~= known.take(i as int).push(known[i as int]));
                        i += 1;
                    }
                    assert(known.take(i as int) =~= known);
                }
                assert(views(bases@) =~= known);
                let ghost added = Seq::new(e@.1.len(), |i: int| joined(base@, e@.1[i]));
                assert(known + added.take(0) =~= known);
                let mut i: usize = 0;
                while i < e.targets.len()
                    invariant
                        i <= e.targets@.len(),
                        added == Seq::new(e@.1.len(), |i: int| joined(base@, e@.1[i])),
                        views(bases@) == known + added.take(i as int),
                    decreases e.targets@.len() - i,
                {
                    push_base(&mut bases, join(base, e.targets[i].as_str()));
                    assert(views(bases@) =~= known + added.take(i + 1));
                    i += 1;
                }
                assert(added.take(i as int) =~= added);
                let list = Texts { items: bases };
                self.exact.insert(e.key.clone(), list);
                assert(self@ =~= SpecView {
                    exact: before.exact.insert(e@.0, known + added),
                    ..before
                });
            },
        }
    }

    /// Adds the `paths` of a compiler configuration that stands in `dir`.
    pub fn add_config(&mut self, dir: &str, doc: &Json)
        ensures
            final(self)@ == with_config(old(self)@, dir@, Some(doc@)),
    {
        let ghost before = self@;
        let options = doc.get("compilerOptions");
        let base = match options.get("baseUrl") {
            Json::Str(b) => join(dir, b.as_str()),
            _ => dir.to_owned(),
        };
        let entries = collect_entries(options.get("paths"));
        let ghost all = views(entries@);
        let mut i: usize = 0;
        while i < entries.len()
            invariant
                all == views(entries@),
                i <= entries@.len(),
                self@ == with_entries(before, base@, all.take(i as int)),
            decreases entries@.len() - i,
        {
            self.add_entry(base.as_str(), &entries[i]);
            proof {
                assert(all.take(i + 1).drop_last() =~= all.take(i as int));
                assert(all.take(i + 1).last() == entries@[i as int]@);
            }
            i += 1;
        }
        assert(all.take(i as int) =~= all);
    }
}

/// Reads a package manifest and adds its package.
fn read_package(map: &mut SpecifierMap, file: &ConfigFile)
    ensures
        final(map)@ == with_package(old(map)@, file@.dir, json_document(file@.text)),
{
    if let Some(doc) = read_json(file.text.as_str()) {
        map.add_package(file.dir.as_str(), &doc);
    }
}

/// Reads a compiler configuration and adds its `paths`.
fn read_tsconfig_paths(map: &mut SpecifierMap, file: &ConfigFile)
    ensures
        final(map)@ == with_config(
            old(map)@,
            file@.dir,
            json_document(plain_json(file@.text)),
        ),
{
    let text = strip_jsonc(file.text.as_str());
    if let Some(doc) = read_json(text.as_str()) {
        map.add_config(file.dir.as_str(), &doc);
    }
}

/// Builds the map from the configuration files of a project, in the order in
/// which they were found.
pub fn build(files: &Vec<ConfigFile>) -> (map: SpecifierMap)
    ensures
        map@ == with_configs(with_packages(views(files@)), views(files@)),
{
    let ghost all = views(files@);
    let mut map = SpecifierMap::new();
    let mut i: usize = 0;
    while i < files.len()
        invariant
            all == views(files@),
            i <= files@.len(),
            map@ == with_packages(all.take(i as int)),
        decreases files@.len() - i,
    {
        proof {
            assert(all.take(i + 1).drop_last() =~= all.take(i as int));
            assert(all.take(i + 1).last() == files@[i as int]@);
        }
        if same_text(files[i].name.as_str(), "package.json") {
            read_package(&mut map, &files[i]);
        }
        i += 1;
    }
    assert(all.take(i as int) =~= all);
    let ghost packages = map@;
    i = 0;
    while i < files.len()
        invariant
            all == views(files@),
            i <= files@.len(),
            map@ == with_configs(packages, all.take(i as int)),
        decreases files@.len() - i,
    {
        proof {
            assert(all.take(i + 1).drop_last() =~= all.take(i as int));
            assert(all.take(i + 1).last() == files@[i as int]@);
        }
        if same_text(files[i].name.as_str(), "tsconfig.json") || same_text(
            files[i].name.as_str(),
            "tsconfig.base.json",
        ) {
            read_tsconfig_paths(&mut map, &files[i]);
        }
        i += 1;
    }
    assert(all.take(i as int) =~= all);
    map
}

// ---------------------------------------------------------------------------
// Which directories and files belong to a project
// ---------------------------------------------------------------------------

/// Whether a directory is left out of a project.
pub open spec fn is_skipped_dir(name: Seq<char>) -> bool {
    name == "node_modules"@ || starts_with(name, "."@) || name == "dist"@ || name == "target"@
}

pub fn skipped_dir(name: &str) -> (r: bool)
    ensures
        r == is_skipped_dir(name@),
{
    same_text(name, "node_modules") || has_prefix(name, ".") || same_text(name, "dist")
        || same_text(name, "target")
}

/// Whether a file is a source of a project: TypeScript, and no declaration file.
pub open spec fn is_project_source(name: Seq<char>) -> bool {
    is_source_path(name) && !ends_with(name, ".d.ts"@)
}

pub fn project_source(name: &str) -> (r: bool)
    ensures
        r == is_project_source(name@),
{
    source_path(name) && !has_suffix(name, ".d.ts")
}

/// Whether a file configures how specifiers resolve.
pub fn config_name(name: &str) -> (r: bool)
    ensures
        r == (is_package_file(name@) || is_config_file(name@)),
{
    same_text(name, "package.json") || same_text(name, "tsconfig.json") || same_text(
        name,
        "tsconfig.base.json",
    )
}

} // verus!

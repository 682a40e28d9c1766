//! Import specifiers and the module files they mean.

use vstd::hash_set::StringHashSet;
use vstd::prelude::*;

use crate::model::views;
use crate::path::{
    candidates, join, joined, normalize, normalized, parent, parent_of, probe_candidates,
};
use crate::syntax::opt_text;
use crate::text::{has_prefix, starts_with};
use crate::workspace::{specifier_bases, SpecView, SpecifierMap};

verus! {

/// The base paths that a specifier in the file `from` may mean: relative to
/// that file, or what the workspace knows about it.
pub open spec fn import_bases(from: Seq<char>, spec: Seq<char>, m: SpecView) -> Seq<Seq<char>> {
    if starts_with(spec, "."@) {
        seq![joined(parent(from), spec)]
    } else {
        specifier_bases(m, spec)
    }
}

/// The files that base paths may mean, best first.
pub open spec fn all_candidates(bases: Seq<Seq<char>>) -> Seq<Seq<char>>
    decreases bases.len(),
{
    if bases.len() == 0 {
        Seq::empty()
    } else {
        all_candidates(bases.drop_last()) + candidates(normalized(bases.last()))
    }
}

/// The files that a specifier may mean, best first.
pub open spec fn import_candidates(from: Seq<char>, spec: Seq<char>, m: SpecView) -> Seq<
    Seq<char>,
> {
    all_candidates(import_bases(from, spec, m))
}

/// The first of the files that exists.
pub open spec fn first_existing(files: Seq<Seq<char>>, existing: Set<Seq<char>>) -> Option<
    Seq<char>,
>
    decreases files.len(),
{
    if files.len() == 0 {
        None
    } else if existing.contains(files[0]) {
        Some(files[0])
    } else {
        first_existing(files.drop_first(), existing)
    }
}

/// The file that a specifier means, if one of its candidates exists.
pub open spec fn import_target(
    from: Seq<char>,
    spec: Seq<char>,
    m: SpecView,
    existing: Set<Seq<char>>,
) -> Option<Seq<char>> {
    first_existing(import_candidates(from, spec, m), existing)
}

/// The files that a specifier may mean, best first.
pub fn candidate_files(from: &str, spec: &str, map: &SpecifierMap) -> (r: Vec<String>)
    ensures
        views(r@) == import_candidates(from@, spec@, map@),
{
    let bases: Vec<String> = if has_prefix(spec, ".") {
        let mut one: Vec<String> = Vec::new();
        one.push(join(parent_of(from).as_str(), spec));
        assert(views(one@) =~= import_bases(from@, spec@, map@));
        one
    } else {
        map.resolve(spec)
    };
    let ghost all = views(bases@);
    let mut out: Vec<String> = Vec::new();
    assert(views(out@) =~= all_candidates(all.take(0)));
    let mut i: usize = 0;
    while i < bases.len()
        invariant
            all == views(bases@),
            i <= bases@.len(),
            views(out@) == all_candidates(all.take(i as int)),
        decreases bases@.len() - i,
    {
        let mut more = probe_candidates(normalize(bases[i].as_str()).as_str());
        let ghost so_far = views(out@);
        let ghost tail = views(more@);
        out.append(&mut more);
        proof {
            assert(views(out@) =~= so_far + tail);
            assert(all.take(i + 1).drop_last() =~= all.take(i as int));
            assert(all.take(i + 1).last() == bases@[i as int]@);
        }
        i += 1;
    }
    assert(all.take(i as int) =~= all);
    out
}

/// The file that a specifier means. `None` means unresolvable: the import is
/// then recorded as unresolved, never dropped.
pub fn resolve_import(
    from: &str,
    spec: &str,
    map: &SpecifierMap,
    existing: &StringHashSet,
) -> (r: Option<String>)
    ensures
        opt_text(r) == import_target(from@, spec@, map@, existing@),
{
    let files = candidate_files(from, spec, map);
    let ghost all = views(files@);
    let mut i: usize = 0;
    assert(all.skip(0) =~= all);
    while i < files.len()
        invariant
            all == views(files@),
            all == import_candidates(from@, spec@, map@),
            i <= files@.len(),
            first_existing(all, existing@) == first_existing(all.skip(i as int), existing@),
        decreases files@.len() - i,
    {
        proof {
            assert(all.skip(i as int)[0] == files@[i as int]@);
            assert(all.skip(i as int).drop_first() =~= all.skip(i + 1));
        }
        if existing.contains(files[i].as_str()) {
            return Some(files[i].clone());
        }
        i += 1;
    }
    None
}

} // verus!

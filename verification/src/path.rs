//! Paths with forward slashes, and the files that an import may mean.

use vstd::prelude::*;
use vstd::string::*;

use crate::model::views;
use crate::text::{
    chars_of, concat, ends_with, has_prefix, has_suffix, same_text, starts_with, text_between,
};

verus! {

broadcast use vstd::string::group_string_axioms;

/// The position behind the last slash.
pub open spec fn name_start(path: Seq<char>) -> int
    decreases path.len(),
{
    if path.len() == 0 || path.last() == '/' {
        path.len() as int
    } else {
        name_start(path.drop_last())
    }
}

/// The part of a path behind the last slash.
pub open spec fn file_name(path: Seq<char>) -> Seq<char> {
    path.skip(name_start(path))
}

/// The directory that holds a file: the path up to its last slash, without it;
/// the root for a file of the root, and nothing for a bare name.
pub open spec fn parent(path: Seq<char>) -> Seq<char> {
    let k = name_start(path);
    if k == 0 {
        Seq::empty()
    } else if k == 1 {
        path.take(1)
    } else {
        path.take(k - 1)
    }
}

/// A path below a directory; an absolute path stands for itself.
pub open spec fn joined(dir: Seq<char>, rest: Seq<char>) -> Seq<char> {
    if starts_with(rest, "/"@) || dir.len() == 0 {
        rest
    } else if ends_with(dir, "/"@) {
        dir + rest
    } else {
        dir + "/"@ + rest
    }
}

/// The parts of a path between its slashes, in order.
pub open spec fn pieces(path: Seq<char>) -> Seq<Seq<char>>
    decreases path.len(),
{
    if path.len() == 0 {
        seq![Seq::empty()]
    } else {
        let before = pieces(path.drop_last());
        if path.last() == '/' {
            before.push(Seq::empty())
        } else {
            before.update(before.len() - 1, before.last().push(path.last()))
        }
    }
}

/// The parts that remain when empty ones and `.` go and each `..` takes the
/// part before it away.
pub open spec fn kept(parts: Seq<Seq<char>>) -> Seq<Seq<char>>
    decreases parts.len(),
{
    if parts.len() == 0 {
        Seq::empty()
    } else {
        let before = kept(parts.drop_last());
        if parts.last().len() == 0 || parts.last() == "."@ {
            before
        } else if parts.last() == ".."@ {
            if before.len() == 0 {
                before
            } else {
                before.drop_last()
            }
        } else {
            before.push(parts.last())
        }
    }
}

/// The parts with slashes between them.
pub open spec fn slashed(parts: Seq<Seq<char>>) -> Seq<char>
    decreases parts.len(),
{
    if parts.len() == 0 {
        Seq::empty()
    } else if parts.len() == 1 {
        parts[0]
    } else {
        slashed(parts.drop_last()) + "/"@ + parts.last()
    }
}

/// The path without `.` and `..`.
pub open spec fn normalized(path: Seq<char>) -> Seq<char> {
    let body = slashed(kept(pieces(path)));
    if starts_with(path, "/"@) {
        "/"@ + body
    } else {
        body
    }
}

/// Whether no part is empty, `.` or `..`.
pub open spec fn all_plain(parts: Seq<Seq<char>>) -> bool {
    forall|i: int|
        0 <= i < parts.len() ==> (#[trigger] parts[i]).len() > 0 && parts[i] != "."@ && parts[i]
            != ".."@
}

/// A path that is resolved holds no empty part, no `.` and no `..`, so that
/// resolving its parts once more changes nothing.
pub proof fn law_kept_parts_are_plain(parts: Seq<Seq<char>>)
    ensures
        all_plain(kept(parts)),
        kept(kept(parts)) == kept(parts),
    decreases parts.len(),
{
    if parts.len() > 0 {
        law_kept_parts_are_plain(parts.drop_last());
    }
    lemma_plain_parts_stay(kept(parts));
}

proof fn lemma_plain_parts_stay(parts: Seq<Seq<char>>)
    requires
        all_plain(parts),
    ensures
        kept(parts) == parts,
    decreases parts.len(),
{
    if parts.len() > 0 {
        lemma_plain_parts_stay(parts.drop_last());
        assert(parts.drop_last().push(parts.last()) =~= parts);
    }
}

/// Whether a path names a file with the given extension.
pub open spec fn has_extension(path: Seq<char>, dotted: Seq<char>) -> bool {
    ends_with(path, dotted) && file_name(path).len() > dotted.len()
}

/// Whether a path names a TypeScript source.
pub open spec fn is_source_path(path: Seq<char>) -> bool {
    has_extension(path, ".ts"@) || has_extension(path, ".tsx"@) || has_extension(path, ".mts"@)
        || has_extension(path, ".cts"@)
}

/// The path with a suffix replaced, if it has that suffix.
pub open spec fn swapped(base: Seq<char>, from: Seq<char>, to: Seq<char>) -> Seq<Seq<char>> {
    if ends_with(base, from) {
        seq![base.take(base.len() - from.len()) + to]
    } else {
        Seq::empty()
    }
}

/// The files that a base path may mean, best first: a JavaScript suffix
/// swapped for the TypeScript one, an extension appended (a dotted name keeps
/// its dots), the path itself, an index file.
pub open spec fn candidates(base: Seq<char>) -> Seq<Seq<char>> {
    swapped(base, ".js"@, ".ts"@) + swapped(base, ".js"@, ".tsx"@) + swapped(
        base,
        ".jsx"@,
        ".tsx"@,
    ) + swapped(base, ".mjs"@, ".mts"@) + swapped(base, ".cjs"@, ".cts"@) + seq![
        base + ".ts"@,
        base + ".tsx"@,
    ] + (if is_source_path(base) {
        seq![base]
    } else {
        Seq::empty()
    }) + seq![
        joined(base, "index.ts"@),
        joined(base, "index.tsx"@),
        joined(base, "src/index.ts"@),
        joined(base, "src/index.tsx"@),
    ]
}

fn after_last_slash(chars: &Vec<char>) -> (r: usize)
    ensures
        r == name_start(chars@),
        r <= chars@.len(),
{
    let mut k: usize = chars.len();
    assert(chars@.take(k as int) =~= chars@);
    while k > 0 && chars[k - 1] != '/'
        invariant
            k <= chars@.len(),
            name_start(chars@) == name_start(chars@.take(k as int)),
        decreases k,
    {
        assert(chars@.take(k as int).drop_last() =~= chars@.take(k - 1));
        k -= 1;
    }
    k
}

/// The directory that holds a file.
pub fn parent_of(path: &str) -> (r: String)
    ensures
        r@ == parent(path@),
{
    let chars = chars_of(path);
    let k: usize = after_last_slash(&chars);
    let end: usize = if k <= 1 {
        k
    } else {
        k - 1
    };
    let r = text_between(&chars, 0, end);
    assert(r@ =~= parent(path@));
    r
}

/// The part of a path behind the last slash.
pub fn file_name_of(path: &str) -> (r: String)
    ensures
        r@ == file_name(path@),
{
    let chars = chars_of(path);
    let k: usize = after_last_slash(&chars);
    let r = text_between(&chars, k, chars.len());
    assert(r@ =~= file_name(path@));
    r
}

/// A path below a directory.
pub fn join(dir: &str, rest: &str) -> (r: String)
    ensures
        r@ == joined(dir@, rest@),
{
    let chars = chars_of(dir);
    if has_prefix(rest, "/") || chars.len() == 0 {
        rest.to_owned()
    } else if has_suffix(dir, "/") {
        concat(dir, rest)
    } else {
        let mut out: String = concat(dir, "/");
        out.append(rest);
        out
    }
}

fn split_pieces(path: &str) -> (r: Vec<String>)
    ensures
        views(r@) == pieces(path@),
{
    let chars = chars_of(path);
    let mut done: Vec<String> = Vec::new();
    let mut current: String = String::new();
    let mut i: usize = 0;
    assert(views(done@).push(current@) =~= pieces(chars@.take(0)));
    while i < chars.len()
        invariant
            i <= chars@.len(),
            views(done@).push(current@) == pieces(chars@.take(i as int)),
        decreases chars@.len() - i,
    {
        let ghost before = views(done@);
        let ghost part = current@;
        let c: char = chars[i];
        proof {
            assert(chars@.take(i + 1).drop_last() =~= chars@.take(i as int));
            assert(chars@.take(i + 1).last() == c);
        }
        if c == '/' {
            done.push(current);
            current = String::new();
            assert(views(done@) =~= before.push(part));
        } else {
            current.push(c);
            assert(before.push(part).update(before.len() as int, part.push(c)) =~= before.push(
                part.push(c),
            ));
        }
        i += 1;
    }
    let ghost before = views(done@);
    let ghost part = current@;
    done.push(current);
    assert(views(done@) =~= before.push(part));
    assert(chars@.take(i as int) =~= chars@);
    done
}

fn keep_parts(parts: &Vec<String>) -> (r: Vec<String>)
    ensures
        views(r@) == kept(views(parts@)),
{
    let ghost all = views(parts@);
    let mut out: Vec<String> = Vec::new();
    assert(views(out@) =~= kept(all.take(0)));
    let mut i: usize = 0;
    while i < parts.len()
        invariant
            all == views(parts@),
            i <= parts@.len(),
            views(out@) == kept(all.take(i as int)),
        decreases parts@.len() - i,
    {
        let part = &parts[i];
        let ghost before = views(out@);
        proof {
            assert(all.take(i + 1).drop_last() =~= all.take(i as int));
            assert(all.take(i + 1).last() == part@);
        }
        if chars_of(part.as_str()).len() == 0 || same_text(part.as_str(), ".") {
        } else if same_text(part.as_str(), "..") {
            if out.len() > 0 {
                let _ = out.pop();
                assert(views(out@) =~= before.drop_last());
            }
        } else {
            out.push(part.clone());
            assert(views(out@) =~= before.push(part@));
        }
        i += 1;
    }
    assert(all.take(i as int) =~= all);
    out
}

/// The path without `.` and `..`.
pub fn normalize(path: &str) -> (r: String)
    ensures
        r@ == normalized(path@),
{
    let parts = keep_parts(&split_pieces(path));
    let ghost all = views(parts@);
    let mut body: String = String::new();
    assert(body@ =~= slashed(all.take(0)));
    let mut i: usize = 0;
    while i < parts.len()
        invariant
            all == views(parts@),
            i <= parts@.len(),
            body@ == slashed(all.take(i as int)),
        decreases parts@.len() - i,
    {
        if i > 0 {
            body.append("/");
        }
        body.append(parts[i].as_str());
        proof {
            assert(all.take(i + 1).drop_last() =~= all.take(i as int));
            assert(all.take(i + 1).last() == parts@[i as int]@);
            assert(body@ =~= slashed(all.take(i + 1)));
        }
        i += 1;
    }
    assert(all.take(i as int) =~= all);
    if has_prefix(path, "/") {
        concat("/", body.as_str())
    } else {
        body
    }
}

/// Tests whether a path names a file with the given extension.
pub fn extension_is(path: &str, dotted: &str) -> (r: bool)
    ensures
        r == has_extension(path@, dotted@),
{
    has_suffix(path, dotted) && chars_of(file_name_of(path).as_str()).len() > chars_of(
        dotted,
    ).len()
}

/// Tests whether a path names a TypeScript source.
pub fn source_path(path: &str) -> (r: bool)
    ensures
        r == is_source_path(path@),
{
    extension_is(path, ".ts") || extension_is(path, ".tsx") || extension_is(path, ".mts")
        || extension_is(path, ".cts")
}

fn push_swapped(out: &mut Vec<String>, base: &str, from: &str, to: &str)
    ensures
        views(final(out)@) == views(old(out)@) + swapped(base@, from@, to@),
{
    let ghost before = views(out@);
    if has_suffix(base, from) {
        let chars = chars_of(base);
        let cut = chars_of(from);
        let mut text: String = text_between(&chars, 0, chars.len() - cut.len());
        text.append(to);
        proof {
            assert(text@ =~= base@.take(base@.len() - from@.len()) + to@);
        }
        out.push(text);
        assert(views(out@) =~= before + seq![text@]);
    } else {
        assert(before + Seq::<Seq<char>>::empty() =~= before);
    }
}

fn push_text(out: &mut Vec<String>, text: String)
    ensures
        views(final(out)@) == views(old(out)@) + seq![text@],
{
    let ghost before = views(out@);
    out.push(text);
    assert(views(out@) =~= before + seq![text@]);
}

/// The files that a base path may mean, best first.
pub fn probe_candidates(base: &str) -> (r: Vec<String>)
    ensures
        views(r@) == candidates(base@),
{
    let mut out: Vec<String> = Vec::new();
    push_swapped(&mut out, base, ".js", ".ts");
    push_swapped(&mut out, base, ".js", ".tsx");
    push_swapped(&mut out, base, ".jsx", ".tsx");
    push_swapped(&mut out, base, ".mjs", ".mts");
    push_swapped(&mut out, base, ".cjs", ".cts");
    push_text(&mut out, concat(base, ".ts"));
    push_text(&mut out, concat(base, ".tsx"));
    if source_path(base) {
        push_text(&mut out, base.to_owned());
    }
    push_text(&mut out, join(base, "index.ts"));
    push_text(&mut out, join(base, "index.tsx"));
    push_text(&mut out, join(base, "src/index.ts"));
    push_text(&mut out, join(base, "src/index.tsx"));
    assert(views(out@) =~= candidates(base@));
    out
}

} // verus!

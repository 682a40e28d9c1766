//! `git diff -U0` parsing: which lines changed per file (new side), so the
//! analysis can be scoped to functions a diff touched.

use vstd::hash_map::StringHashMap;
use vstd::prelude::*;
use vstd::string::*;
use vstd::utf8::{decode_utf8, encode_utf8, valid_utf8};

use crate::jsonc::line_end;
use crate::model::views;
use crate::path::{join, joined};
use crate::syntax::opt_text;
use crate::text::{
    chars_of, find_char, has_prefix, index_from, is_digit, parsed_decimal, read_decimal, same_text,
    starts_with, text_between, trim_text, trimmed,
};

verus! {

/// Changed line ranges by file path, both ends included.
pub type ChangedLines = StringHashMap<Vec<(u32, u32)>>;

/// The ranges by path, as sequences.
pub open spec fn changed_view(c: ChangedLines) -> Map<Seq<char>, Seq<(u32, u32)>> {
    c@.map_values(|v: Vec<(u32, u32)>| v@)
}

/// Whether some changed range overlaps the lines from `start` to `end`.
pub open spec fn overlaps(ranges: Seq<(u32, u32)>, start: u32, end: u32) -> bool {
    exists|i: int|
        0 <= i < ranges.len() && (#[trigger] ranges[i]).0 <= end && start <= ranges[i].1
}

pub fn intersects(ranges: &Vec<(u32, u32)>, start: u32, end: u32) -> (r: bool)
    ensures
        r == overlaps(ranges@, start, end),
{
    let mut i: usize = 0;
    while i < ranges.len()
        invariant
            i <= ranges@.len(),
            forall|j: int|
                0 <= j < i ==> !((#[trigger] ranges@[j]).0 <= end && start <= ranges@[j].1),
        decreases ranges@.len() - i,
    {
        if ranges[i].0 <= end && start <= ranges[i].1 {
            return true;
        }
        i += 1;
    }
    false
}

// ---------------------------------------------------------------------------
// Lines
// ---------------------------------------------------------------------------

/// The line between two positions, without the carriage return of its ending.
pub open spec fn line_text(text: Seq<char>, from: int, end: int) -> Seq<char> {
    if end < text.len() && from < end && text[end - 1] == '\r' {
        text.subrange(from, end - 1)
    } else {
        text.subrange(from, end)
    }
}

/// The lines of a text from a position on, without their endings.
pub open spec fn lines_from(text: Seq<char>, from: int) -> Seq<Seq<char>>
    decreases text.len() - from,
{
    if from < 0 || from >= text.len() {
        Seq::empty()
    } else {
        let end = line_end(text, from);
        if end < from || end >= text.len() {
            seq![line_text(text, from, text.len() as int)]
        } else {
            seq![line_text(text, from, end)] + lines_from(text, end + 1)
        }
    }
}

// ---------------------------------------------------------------------------
// Paths
// ---------------------------------------------------------------------------

pub open spec fn is_octal(c: char) -> bool {
    '0' <= c && c <= '7'
}

/// The byte that a letter stands for behind a backslash.
pub open spec fn escape_byte(c: char) -> Option<u8> {
    if c == 'a' {
        Some(7)
    } else if c == 'b' {
        Some(8)
    } else if c == 't' {
        Some(9)
    } else if c == 'n' {
        Some(10)
    } else if c == 'v' {
        Some(11)
    } else if c == 'f' {
        Some(12)
    } else if c == 'r' {
        Some(13)
    } else if c == '"' {
        Some(34)
    } else if c == '\\' {
        Some(92)
    } else {
        None
    }
}

/// The bytes that the text of a C string stands for from position `i` on;
/// nothing if it is malformed.
pub open spec fn c_bytes(text: Seq<char>, i: int) -> Option<Seq<u8>>
    decreases text.len() - i,
{
    if i < 0 || i >= text.len() {
        Some(Seq::empty())
    } else if text[i] != '\\' {
        match c_bytes(text, i + 1) {
            Some(rest) => Some(encode_utf8(seq![text[i]]) + rest),
            None => None,
        }
    } else if i + 3 < text.len() && '0' <= text[i + 1] && text[i + 1] <= '3' && is_octal(
        text[i + 2],
    ) && is_octal(text[i + 3]) {
        match c_bytes(text, i + 4) {
            Some(rest) => Some(seq![octal_byte(text[i + 1], text[i + 2], text[i + 3])] + rest),
            None => None,
        }
    } else if i + 1 < text.len() {
        match (escape_byte(text[i + 1]), c_bytes(text, i + 2)) {
            (Some(b), Some(rest)) => Some(seq![b] + rest),
            _ => None,
        }
    } else {
        None
    }
}

/// The byte of three octal digits.
pub open spec fn octal_byte(a: char, b: char, c: char) -> u8 {
    (64 * (a as u32 - '0' as u32) + 8 * (b as u32 - '0' as u32) + (c as u32 - '0' as u32)) as u8
}

/// The path that a header writes, plainly or as a C string in quotes.
pub open spec fn written_path(p: Seq<char>) -> Option<Seq<char>> {
    if p.len() >= 2 && p[0] == '"' && p.last() == '"' {
        match c_bytes(p.subrange(1, p.len() - 1), 0) {
            Some(bytes) => if valid_utf8(bytes) {
                Some(decode_utf8(bytes))
            } else {
                None
            },
            None => None,
        }
    } else {
        Some(p)
    }
}

/// The new file of a header; nothing for a deleted file or an unreadable path.
pub open spec fn new_file(rest: Seq<char>, root: Seq<char>) -> Option<Seq<char>> {
    match written_path(trimmed(rest)) {
        Some(p) => if p == "/dev/null"@ {
            None
        } else if starts_with(p, "b/"@) {
            Some(joined(root, p.skip(2)))
        } else {
            Some(joined(root, p))
        },
        None => None,
    }
}

// ---------------------------------------------------------------------------
// Hunks
// ---------------------------------------------------------------------------

/// The end of the digits and commas from a position on.
pub open spec fn numbers_end(text: Seq<char>, from: int) -> int
    decreases text.len() - from,
{
    if 0 <= from < text.len() && (is_digit(text[from]) || text[from] == ',') {
        numbers_end(text, from + 1)
    } else {
        from
    }
}

/// The first and the last line of a hunk that starts at `start` and has
/// `count` lines. One without lines counts as one line, so that a function
/// that only lost lines counts as changed.
pub open spec fn hunk_lines(start: nat, count: nat) -> (u32, u32) {
    if count == 0 {
        if start == 0 {
            (1, 1)
        } else {
            (start as u32, start as u32)
        }
    } else if start + count - 1 > u32::MAX {
        (start as u32, u32::MAX)
    } else {
        (start as u32, (start + count - 1) as u32)
    }
}

/// The lines on the new side of a hunk header, behind its `@@`.
pub open spec fn hunk_new_side(header: Seq<char>) -> Option<(u32, u32)> {
    match index_from(header, '+', 0) {
        None => None,
        Some(k) => {
            let spec = header.subrange(k + 1, numbers_end(header, k + 1));
            match index_from(spec, ',', 0) {
                None => match parsed_decimal(spec, u32::MAX as nat) {
                    Some(start) => Some(hunk_lines(start, 1)),
                    None => None,
                },
                Some(c) => {
                    let end = match index_from(spec, ',', c + 1) {
                        Some(d) => d,
                        None => spec.len() as int,
                    };
                    match (
                        parsed_decimal(spec.take(c), u32::MAX as nat),
                        parsed_decimal(spec.subrange(c + 1, end), u32::MAX as nat),
                    ) {
                        (Some(start), Some(count)) => Some(hunk_lines(start, count)),
                        _ => None,
                    }
                },
            }
        },
    }
}

// ---------------------------------------------------------------------------
// Diffs
// ---------------------------------------------------------------------------

/// What is known while the lines of a diff are read.
#[verifier::ext_equal]
pub struct DiffView {
    /// The file that hunks belong to.
    pub current: Option<Seq<char>>,
    /// Whether the line before names the old file.
    pub after_old: bool,
    pub changed: Map<Seq<char>, Seq<(u32, u32)>>,
}

/// The state after one more line. An added source line `++ x;` shows as
/// `+++ x;`: only a `+++ ` directly behind a `--- ` is a header.
pub open spec fn with_line(s: DiffView, line: Seq<char>, root: Seq<char>) -> DiffView {
    let after_old = starts_with(line, "--- "@);
    if starts_with(line, "+++ "@) && s.after_old {
        DiffView { current: new_file(line.skip(4), root), after_old, ..s }
    } else if s.current is Some && starts_with(line, "@@"@) {
        match hunk_new_side(line.skip(2)) {
            Some(range) => {
                let known = if s.changed.contains_key(s.current->0) {
                    s.changed[s.current->0]
                } else {
                    Seq::empty()
                };
                DiffView {
                    changed: s.changed.insert(s.current->0, known.push(range)),
                    after_old,
                    ..s
                }
            },
            None => DiffView { after_old, ..s },
        }
    } else {
        DiffView { after_old, ..s }
    }
}

pub open spec fn with_lines(lines: Seq<Seq<char>>, root: Seq<char>) -> DiffView
    decreases lines.len(),
{
    if lines.len() == 0 {
        DiffView { current: None, after_old: false, changed: Map::empty() }
    } else {
        with_line(with_lines(lines.drop_last(), root), lines.last(), root)
    }
}

/// Whether every range of lines starts no later than it ends.
pub open spec fn ranges_ordered(changed: Map<Seq<char>, Seq<(u32, u32)>>) -> bool {
    forall|path: Seq<char>, i: int|
        #![trigger changed[path][i]]
        changed.contains_key(path) && 0 <= i < changed[path].len() ==> changed[path][i].0
            <= changed[path][i].1
}

proof fn lemma_ranges_ordered(lines: Seq<Seq<char>>, root: Seq<char>)
    ensures
        ranges_ordered(with_lines(lines, root).changed),
    decreases lines.len(),
{
    if lines.len() > 0 {
        lemma_ranges_ordered(lines.drop_last(), root);
    }
}

/// A hunk covers at least one line: every range that a diff yields is in order.
pub proof fn law_ranges_are_ordered(diff: Seq<char>, root: Seq<char>)
    ensures
        ranges_ordered(changed_in(diff, root)),
{
    lemma_ranges_ordered(lines_from(diff, 0), root);
}

/// A line inside a hunk that merely looks like the header of a new file, as an
/// added line that starts with two plus signs, changes nothing: a header
/// counts only right behind that of the old file.
pub proof fn law_lone_header_is_ignored(s: DiffView, line: Seq<char>, root: Seq<char>)
    requires
        starts_with(line, "+++ "@),
        !s.after_old,
    ensures
        with_line(s, line, root).current == s.current,
        with_line(s, line, root).changed == s.changed,
{
    reveal_strlit("+++ ");
    reveal_strlit("@@");
    assert(line.subrange(0, 4)[0] == line[0]);
    if starts_with(line, "@@"@) {
        assert(line.subrange(0, 2)[0] == line[0]);
    }
}

/// The changed lines that a diff shows.
pub open spec fn changed_in(diff: Seq<char>, root: Seq<char>) -> Map<Seq<char>, Seq<(u32, u32)>> {
    with_lines(lines_from(diff, 0), root).changed
}

/// The changed ranges of a path; none if it is not known.
pub open spec fn ranges_of(changed: Map<Seq<char>, Seq<(u32, u32)>>, path: Seq<char>) -> Seq<
    (u32, u32),
> {
    if changed.contains_key(path) {
        changed[path]
    } else {
        Seq::empty()
    }
}

/// Whether line `k` is the header of a new file.
pub open spec fn header_at(lines: Seq<Seq<char>>, k: int) -> bool {
    1 <= k < lines.len() && starts_with(lines[k], "+++ "@) && starts_with(lines[k - 1], "--- "@)
}

/// Whether the lines are those of a diff of its own: it does not begin in the
/// middle of a header, and a header stands before every hunk.
pub open spec fn starts_afresh(lines: Seq<Seq<char>>) -> bool {
    &&& lines.len() > 0 ==> !starts_with(lines[0], "+++ "@)
    &&& forall|i: int|
        0 <= i < lines.len() && starts_with(#[trigger] lines[i], "@@"@) ==> exists|k: int|
            k < i && #[trigger] header_at(lines, k)
}

/// Where a line ends does not depend on what stands in front of it.
proof fn lemma_line_end_behind(a: Seq<char>, b: Seq<char>, i: int)
    requires
        0 <= i <= b.len(),
    ensures
        line_end(a + b, a.len() + i) == a.len() + line_end(b, i),
        i <= line_end(b, i) <= b.len(),
    decreases b.len() - i,
{
    if i < b.len() {
        assert((a + b)[a.len() + i] == b[i]);
        if b[i] != '\n' {
            lemma_line_end_behind(a, b, i + 1);
        }
    }
}

proof fn lemma_lines_behind(a: Seq<char>, b: Seq<char>, i: int)
    requires
        0 <= i <= b.len(),
    ensures
        lines_from(a + b, a.len() + i) == lines_from(b, i),
    decreases b.len() - i,
{
    if i < b.len() {
        let t = a + b;
        let end = line_end(b, i);
        lemma_line_end_behind(a, b, i);
        if end < b.len() {
            lemma_lines_behind(a, b, end + 1);
            if i < end {
                assert(t[a.len() + end - 1] == b[end - 1]);
                assert(t.subrange(a.len() + i, a.len() + end - 1) =~= b.subrange(i, end - 1));
            }
            assert(t.subrange(a.len() + i, a.len() + end) =~= b.subrange(i, end));
            assert(line_text(t, a.len() + i, a.len() + end) == line_text(b, i, end));
        } else {
            assert(t.subrange(a.len() + i, t.len() as int) =~= b.subrange(i, b.len() as int));
            assert(line_text(t, a.len() + i, t.len() as int) == line_text(b, i, b.len() as int));
        }
    }
}

/// A line that ends inside the first text ends there in the whole.
proof fn lemma_line_end_before(a: Seq<char>, b: Seq<char>, i: int)
    requires
        0 <= i < a.len(),
        a.last() == '\n',
    ensures
        line_end(a + b, i) == line_end(a, i),
        i <= line_end(a, i) < a.len(),
    decreases a.len() - i,
{
    assert((a + b)[i] == a[i]);
    if a[i] != '\n' {
        lemma_line_end_before(a, b, i + 1);
    }
}

/// The lines of two texts, the first of which ends a line.
proof fn lemma_lines_joined(a: Seq<char>, b: Seq<char>, i: int)
    requires
        0 <= i <= a.len(),
        a.len() > 0 ==> a.last() == '\n',
    ensures
        lines_from(a + b, i) == lines_from(a, i) + lines_from(b, 0),
    decreases a.len() - i,
{
    if i == a.len() {
        lemma_lines_behind(a, b, 0);
        assert(lines_from(a, i) + lines_from(b, 0) =~= lines_from(b, 0));
    } else {
        let t = a + b;
        let end = line_end(a, i);
        lemma_line_end_before(a, b, i);
        lemma_lines_joined(a, b, end + 1);
        if i < end {
            assert(t[end - 1] == a[end - 1]);
            assert(t.subrange(i, end - 1) =~= a.subrange(i, end - 1));
        }
        assert(t.subrange(i, end) =~= a.subrange(i, end));
        assert(line_text(t, i, end) == line_text(a, i, end));
        let one = seq![line_text(a, i, end)];
        assert(lines_from(t, i) =~= one + lines_from(t, end + 1));
        assert(lines_from(a, i) =~= one + lines_from(a, end + 1));
        assert(one + (lines_from(a, end + 1) + lines_from(b, 0)) =~= (one + lines_from(a, end + 1))
            + lines_from(b, 0));
    }
}

/// No line is both the header of a new file and a hunk.
proof fn lemma_header_is_no_hunk(line: Seq<char>)
    ensures
        !(starts_with(line, "+++ "@) && starts_with(line, "@@"@)),
        !(starts_with(line, "+++ "@) && starts_with(line, "--- "@)),
{
    reveal_strlit("+++ ");
    reveal_strlit("--- ");
    reveal_strlit("@@");
    if starts_with(line, "+++ "@) {
        assert(line.subrange(0, 4)[0] == line[0]);
        if starts_with(line, "@@"@) {
            assert(line.subrange(0, 2)[0] == line[0]);
        }
    }
}

/// Reading the first `n` lines of a second diff behind a first one.
proof fn lemma_joined(first: Seq<Seq<char>>, second: Seq<Seq<char>>, root: Seq<char>, n: int)
    requires
        0 <= n <= second.len(),
        starts_afresh(second),
    ensures
        ({
            let before = with_lines(first, root);
            let alone = with_lines(second.take(n), root);
            let whole = with_lines(first + second.take(n), root);
            &&& n > 0 ==> whole.after_old == alone.after_old && alone.after_old == starts_with(
                second[n - 1],
                "--- "@,
            )
            &&& (exists|k: int| k < n && #[trigger] header_at(second, k)) ==> whole.current
                == alone.current
            &&& (forall|k: int| k < n ==> !#[trigger] header_at(second, k)) ==> alone.current
                is None
            &&& forall|path: Seq<char>| #[trigger]
                ranges_of(whole.changed, path) == ranges_of(before.changed, path) + ranges_of(
                    alone.changed,
                    path,
                )
        }),
    decreases n,
{
    let before = with_lines(first, root);
    if n == 0 {
        assert(first + second.take(0) =~= first);
        assert forall|path: Seq<char>| #[trigger]
            ranges_of(before.changed, path) == ranges_of(before.changed, path) + ranges_of(
                with_lines(second.take(0), root).changed,
                path,
            ) by {
            assert(ranges_of(before.changed, path) + Seq::<(u32, u32)>::empty() =~= ranges_of(
                before.changed,
                path,
            ));
        }
    } else {
        lemma_joined(first, second, root, n - 1);
        let line = second[n - 1];
        let a0 = with_lines(second.take(n - 1), root);
        let w0 = with_lines(first + second.take(n - 1), root);
        let alone = with_lines(second.take(n), root);
        let whole = with_lines(first + second.take(n), root);
        assert(second.take(n).drop_last() =~= second.take(n - 1));
        assert((first + second.take(n)).drop_last() =~= first + second.take(n - 1));
        assert((first + second.take(n)).last() == line);
        assert(alone == with_line(a0, line, root));
        assert(whole == with_line(w0, line, root));
        lemma_header_is_no_hunk(line);
        if header_at(second, n - 1) {
            assert(a0.after_old && w0.after_old);
            assert(whole.current == alone.current);
        } else {
            if starts_with(line, "+++ "@) {
                assert(n > 1);
                assert(!a0.after_old);
            }
            if starts_with(line, "@@"@) {
                let k = choose|k: int| k < n - 1 && #[trigger] header_at(second, k);
                assert(header_at(second, k));
                assert(w0.current == a0.current);
            }
            assert(whole.current == w0.current && alone.current == a0.current);
        }
        assert forall|path: Seq<char>| #[trigger]
            ranges_of(whole.changed, path) == ranges_of(before.changed, path) + ranges_of(
                alone.changed,
                path,
            ) by {
            assert(ranges_of(w0.changed, path) == ranges_of(before.changed, path) + ranges_of(
                a0.changed,
                path,
            ));
            if starts_with(line, "@@"@) && a0.current == Some(path) {
                if let Some(range) = hunk_new_side(line.skip(2)) {
                    assert(ranges_of(whole.changed, path) =~= ranges_of(w0.changed, path).push(
                        range,
                    ));
                    assert(ranges_of(alone.changed, path) =~= ranges_of(a0.changed, path).push(
                        range,
                    ));
                }
            } else {
                assert(ranges_of(whole.changed, path) == ranges_of(w0.changed, path));
                assert(ranges_of(alone.changed, path) == ranges_of(a0.changed, path));
            }
        }
    }
}

/// Of two diffs, one behind the other, each path has the ranges of the first
/// followed by those of the second.
pub proof fn law_diffs_join(d1: Seq<char>, d2: Seq<char>, root: Seq<char>, path: Seq<char>)
    requires
        d1.len() > 0 ==> d1.last() == '\n',
        starts_afresh(lines_from(d2, 0)),
    ensures
        ranges_of(changed_in(d1 + d2, root), path) == ranges_of(changed_in(d1, root), path)
            + ranges_of(changed_in(d2, root), path),
{
    let first = lines_from(d1, 0);
    let second = lines_from(d2, 0);
    lemma_lines_joined(d1, d2, 0);
    lemma_joined(first, second, root, second.len() as int);
    assert(second.take(second.len() as int) =~= second);
}

// ---------------------------------------------------------------------------
// Execution
// ---------------------------------------------------------------------------

/// `String::from_utf8`: the text that the bytes encode, if they are UTF-8.
#[verifier::external_body]
fn utf8_text(bytes: Vec<u8>) -> (r: Option<String>)
    ensures
        (match r {
            Some(s) => valid_utf8(bytes@) && s@ == decode_utf8(bytes@),
            None => !valid_utf8(bytes@),
        }),
{
    String::from_utf8(bytes).ok()
}

fn split_lines(text: &str) -> (r: Vec<String>)
    ensures
        views(r@) == lines_from(text@, 0),
{
    let c = chars_of(text);
    let total: usize = c.len();
    let mut out: Vec<String> = Vec::new();
    let mut from: usize = 0;
    assert(views(out@) + lines_from(c@, 0) =~= lines_from(text@, 0));
    while from < total
        invariant
            c@ == text@,
            total == c@.len(),
            from <= total,
            views(out@) + lines_from(c@, from as int) == lines_from(text@, 0),
        decreases total - from,
    {
        let mut end: usize = from;
        while end < total && c[end] != '\n'
            invariant
                total == c@.len(),
                from <= end <= total,
                line_end(c@, from as int) == line_end(c@, end as int),
            decreases total - end,
        {
            end += 1;
        }
        assert(end == line_end(c@, from as int));
        let line = if end < total && from < end && c[end - 1] == '\r' {
            text_between(&c, from, end - 1)
        } else {
            text_between(&c, from, end)
        };
        let ghost before = views(out@);
        out.push(line);
        proof {
            assert(views(out@) =~= before.push(line@));
            let next = if end < total {
                lines_from(c@, end + 1)
            } else {
                Seq::empty()
            };
            assert(lines_from(c@, from as int) =~= seq![line@] + next);
            assert(before + (seq![line@] + next) =~= before.push(line@) + next);
        }
        from = if end < total {
            end + 1
        } else {
            total
        };
    }
    assert(views(out@) + Seq::<Seq<char>>::empty() =~= views(out@));
    out
}

fn push_char_bytes(out: &mut Vec<u8>, c: char)
    ensures
        final(out)@ == old(out)@ + encode_utf8(seq![c]),
{
    let mut s: String = String::new();
    s.push(c);
    assert(s@ =~= seq![c]);
    let text: &str = s.as_str();
    let bytes = text.as_bytes();
    let ghost before = out@;
    let ghost all = encode_utf8(seq![c]);
    assert(bytes@ == all);
    let mut i: usize = 0;
    while i < bytes.len()
        invariant
            bytes@ == all,
            i <= bytes@.len(),
            out@ == before + all.take(i as int),
        decreases bytes@.len() - i,
    {
        out.push(bytes[i]);
        i += 1;
        assert(out@ =~= before + all.take(i as int));
    }
    assert(all.take(i as int) =~= all);
}

fn escaped(c: char) -> (r: Option<u8>)
    ensures
        r == escape_byte(c),
{
    if c == 'a' {
        Some(7)
    } else if c == 'b' {
        Some(8)
    } else if c == 't' {
        Some(9)
    } else if c == 'n' {
        Some(10)
    } else if c == 'v' {
        Some(11)
    } else if c == 'f' {
        Some(12)
    } else if c == 'r' {
        Some(13)
    } else if c == '"' {
        Some(34)
    } else if c == '\\' {
        Some(92)
    } else {
        None
    }
}

fn octal(c: char) -> (r: bool)
    ensures
        r == is_octal(c),
{
    '0' <= c && c <= '7'
}

/// The bytes that the text of a C string stands for.
fn unescape(c: &Vec<char>) -> (r: Option<Vec<u8>>)
    ensures
        (match r {
            Some(bytes) => c_bytes(c@, 0) == Some(bytes@),
            None => c_bytes(c@, 0) is None,
        }),
{
    let total: usize = c.len();
    let mut out: Vec<u8> = Vec::new();
    let mut i: usize = 0;
    proof {
        if let Some(rest) = c_bytes(c@, 0) {
            assert(out@ + rest =~= rest);
        }
    }
    while i < total
        invariant
            total == c@.len(),
            i <= total,
            c_bytes(c@, 0) == (match c_bytes(c@, i as int) {
                Some(rest) => Some(out@ + rest),
                None => None,
            }),
        decreases total - i,
    {
        let ghost done = out@;
        let x: char = c[i];
        if x != '\\' {
            push_char_bytes(&mut out, x);
            i += 1;
            proof {
                if let Some(rest) = c_bytes(c@, i as int) {
                    assert(done + (encode_utf8(seq![x]) + rest) =~= out@ + rest);
                }
            }
        } else if total - i > 3 && '0' <= c[i + 1] && c[i + 1] <= '3' && octal(c[i + 2]) && octal(
            c[i + 3],
        ) {
            let a: u32 = c[i + 1] as u32 - 48;
            let b: u32 = c[i + 2] as u32 - 48;
            let d: u32 = c[i + 3] as u32 - 48;
            let byte: u8 = (64 * a + 8 * b + d) as u8;
            out.push(byte);
            proof {
                assert(byte == octal_byte(c@[i + 1], c@[i + 2], c@[i + 3]));
                if let Some(rest) = c_bytes(c@, i + 4) {
                    assert(done + (seq![byte] + rest) =~= out@ + rest);
                }
            }
            i += 4;
        } else if total - i > 1 {
            match escaped(c[i + 1]) {
                Some(byte) => {
                    out.push(byte);
                    proof {
                        if let Some(rest) = c_bytes(c@, i + 2) {
                            assert(done + (seq![byte] + rest) =~= out@ + rest);
                        }
                    }
                    i += 2;
                },
                None => return None,
            }
        } else {
            return None;
        }
    }
    assert(out@ + Seq::<u8>::empty() =~= out@);
    Some(out)
}

fn read_path(p: &String) -> (r: Option<String>)
    ensures
        opt_text(r) == written_path(p@),
{
    let c = chars_of(p.as_str());
    if c.len() >= 2 && c[0] == '"' && c[c.len() - 1] == '"' {
        let inner_text = text_between(&c, 1, c.len() - 1);
        let inner = chars_of(inner_text.as_str());
        match unescape(&inner) {
            Some(bytes) => utf8_text(bytes),
            None => None,
        }
    } else {
        Some(p.clone())
    }
}

/// The text from a position on.
fn tail(text: &String, from: usize) -> (r: String)
    requires
        from <= text@.len(),
    ensures
        r@ == text@.skip(from as int),
{
    let c = chars_of(text.as_str());
    let r = text_between(&c, from, c.len());
    assert(r@ =~= text@.skip(from as int));
    r
}

fn read_new_file(rest: &String, root: &str) -> (r: Option<String>)
    ensures
        opt_text(r) == new_file(rest@, root@),
{
    match read_path(&trim_text(rest.as_str())) {
        Some(p) => {
            if same_text(p.as_str(), "/dev/null") {
                None
            } else if has_prefix(p.as_str(), "b/") {
                proof {
                    reveal_strlit("b/");
                }
                Some(join(root, tail(&p, 2).as_str()))
            } else {
                Some(join(root, p.as_str()))
            }
        },
        None => None,
    }
}

fn hunk_range(start: u64, count: u64) -> (r: (u32, u32))
    requires
        start <= u32::MAX,
        count <= u32::MAX,
    ensures
        r == hunk_lines(start as nat, count as nat),
{
    if count == 0 {
        if start == 0 {
            (1, 1)
        } else {
            (start as u32, start as u32)
        }
    } else if start + count - 1 > u32::MAX as u64 {
        (start as u32, u32::MAX)
    } else {
        (start as u32, (start + count - 1) as u32)
    }
}

/// The lines on the new side of a hunk header.
fn parse_hunk_new_side(header: &String) -> (r: Option<(u32, u32)>)
    ensures
        r == hunk_new_side(header@),
{
    let c = chars_of(header.as_str());
    let total: usize = c.len();
    let k = match find_char(&c, '+', 0) {
        Some(k) => k,
        None => return None,
    };
    let mut end: usize = k + 1;
    while end < total && (('0' <= c[end] && c[end] <= '9') || c[end] == ',')
        invariant
            total == c@.len(),
            k < end <= total,
            numbers_end(c@, k + 1) == numbers_end(c@, end as int),
        decreases total - end,
    {
        end += 1;
    }
    let spec = text_between(&c, k + 1, end);
    let d = chars_of(spec.as_str());
    let width: usize = d.len();
    assert(spec@ == header@.subrange(k + 1, numbers_end(header@, k + 1)));
    match find_char(&d, ',', 0) {
        None => match read_decimal(spec.as_str(), u32::MAX as u64) {
            Some(start) => Some(hunk_range(start, 1)),
            None => None,
        },
        Some(comma) => {
            let last: usize = match find_char(&d, ',', comma + 1) {
                Some(e) => e,
                None => width,
            };
            let first = text_between(&d, 0, comma);
            let second = text_between(&d, comma + 1, last);
            assert(first@ =~= spec@.take(comma as int));
            match (
                read_decimal(first.as_str(), u32::MAX as u64),
                read_decimal(second.as_str(), u32::MAX as u64),
            ) {
                (Some(start), Some(count)) => Some(hunk_range(start, count)),
                _ => None,
            }
        },
    }
}

fn add_range(changed: &mut ChangedLines, file: &String, range: (u32, u32))
    ensures
        changed_view(*final(changed)) == changed_view(*old(changed)).insert(
            file@,
            (if changed_view(*old(changed)).contains_key(file@) {
                changed_view(*old(changed))[file@]
            } else {
                Seq::empty()
            }).push(range),
        ),
{
    let ghost before = changed_view(*changed);
    let mut ranges: Vec<(u32, u32)> = Vec::new();
    let ghost known = if before.contains_key(file@) {
        before[file@]
    } else {
        Seq::empty()
    };
    if let Some(list) = changed.get(file.as_str()) {
        assert(known == list@);
        let mut i: usize = 0;
        while i < list.len()
            invariant
                known == list@,
                i <= list@.len(),
                ranges@ == known.take(i as int),
            decreases list@.len() - i,
        {
            ranges.push(list[i]);
            i += 1;
            assert(ranges@ =~= known.take(i as int));
        }
        assert(known.take(i as int) =~= known);
    }
    assert(ranges@ =~= known);
    ranges.push(range);
    changed.insert(file.clone(), ranges);
    assert(changed_view(*changed) =~= before.insert(file@, known.push(range)));
}

/// The lines that a diff changes, by the paths of the new files below `root`.
pub fn parse_unified_diff(diff: &str, root: &str) -> (r: ChangedLines)
    ensures
        changed_view(r) == changed_in(diff@, root@),
{
    let lines = split_lines(diff);
    let ghost all = views(lines@);
    let mut changed: ChangedLines = StringHashMap::new();
    let mut current: Option<String> = None;
    let mut after_old: bool = false;
    assert(changed_view(changed) =~= Map::empty());
    let mut i: usize = 0;
    while i < lines.len()
        invariant
            all == views(lines@),
            i <= lines@.len(),
            with_lines(all.take(i as int), root@) == (DiffView {
                current: opt_text(current),
                after_old,
                changed: changed_view(changed),
            }),
        decreases lines@.len() - i,
    {
        let line = &lines[i];
        proof {
            assert(all.take(i + 1).drop_last() =~= all.take(i as int));
            assert(all.take(i + 1).last() == line@);
            reveal_strlit("+++ ");
            reveal_strlit("@@");
        }
        if has_prefix(line.as_str(), "+++ ") && after_old {
            current = read_new_file(&tail(line, 4), root);
        } else if let Some(file) = &current {
            if has_prefix(line.as_str(), "@@") {
                if let Some(range) = parse_hunk_new_side(&tail(line, 2)) {
                    add_range(&mut changed, file, range);
                }
            }
        }
        after_old = has_prefix(line.as_str(), "--- ");
        i += 1;
    }
    assert(all.take(i as int) =~= all);
    changed
}

/// What the outcomes of `git rev-parse --show-toplevel` and of `git diff -U0`
/// amount to: the first error, or the changed lines.
pub open spec fn git_outcome(
    toplevel: Result<Seq<char>, Seq<char>>,
    diff: Result<Seq<char>, Seq<char>>,
) -> Result<Map<Seq<char>, Seq<(u32, u32)>>, Seq<char>> {
    match toplevel {
        Err(e) => Err(e),
        Ok(top) => match diff {
            Err(e) => Err(e),
            Ok(text) => Ok(changed_in(text, trimmed(top))),
        },
    }
}

pub open spec fn output_view(r: Result<String, String>) -> Result<Seq<char>, Seq<char>> {
    match r {
        Ok(s) => Ok(s@),
        Err(e) => Err(e@),
    }
}

/// The changed lines, from the outcomes of `git rev-parse --show-toplevel` and
/// of `git diff -U0`; an error of either is handed on, the first one first.
pub fn git_changed_lines(
    toplevel: Result<String, String>,
    diff: Result<String, String>,
) -> (r: Result<ChangedLines, String>)
    ensures
        (match r {
            Ok(c) => git_outcome(output_view(toplevel), output_view(diff)) == Ok::<
                Map<Seq<char>, Seq<(u32, u32)>>,
                Seq<char>,
            >(changed_view(c)),
            Err(e) => git_outcome(output_view(toplevel), output_view(diff)) == Err::<
                Map<Seq<char>, Seq<(u32, u32)>>,
                Seq<char>,
            >(e@),
        }),
{
    match toplevel {
        Err(e) => Err(e),
        Ok(top) => match diff {
            Err(e) => Err(e),
            Ok(text) => {
                let root = trim_text(top.as_str());
                Ok(parse_unified_diff(text.as_str(), root.as_str()))
            },
        },
    }
}

} // verus!

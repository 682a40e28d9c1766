//! Which lines a diff touches, and which functions are touched with them.

use vstd::prelude::*;

use crate::diff::{
    c_bytes, escape_byte, hunk_lines, hunk_new_side, lines_from, numbers_end, octal_byte, overlaps,
    ranges_of, with_line, written_path, DiffView,
};
use crate::jsonc::line_end;
use crate::link::{decl_findings, ScopeView};
use crate::path::joined;
use crate::resolve::ProjectView;
use crate::text::{
    all_digits, decimal, index_from, is_digit, is_space, law_decimal_is_read_back, starts_with,
    trimmed,
};

verus! {

// ---------------------------------------------------------------------------
// Lines in common
// ---------------------------------------------------------------------------

/// Whether a line lies in a range, both ends included.
pub open spec fn within(line: u32, range: (u32, u32)) -> bool {
    range.0 <= line && line <= range.1
}

/// Whether some line of the ranges is one of the lines from `start` to `end`.
pub open spec fn common_line(ranges: Seq<(u32, u32)>, start: u32, end: u32) -> bool {
    exists|i: int, line: u32|
        0 <= i < ranges.len() && #[trigger] within(line, ranges[i]) && start <= line && line <= end
}

/// Ranges overlap the lines of a function exactly if there is a line that is
/// in the function and in one of the ranges.
pub proof fn law_overlap_is_a_common_line(ranges: Seq<(u32, u32)>, start: u32, end: u32)
    requires
        start <= end,
        forall|i: int| 0 <= i < ranges.len() ==> (#[trigger] ranges[i]).0 <= ranges[i].1,
    ensures
        overlaps(ranges, start, end) <==> common_line(ranges, start, end),
{
    if overlaps(ranges, start, end) {
        let i = choose|i: int|
            0 <= i < ranges.len() && (#[trigger] ranges[i]).0 <= end && start <= ranges[i].1;
        let line = if ranges[i].0 >= start {
            ranges[i].0
        } else {
            start
        };
        assert(within(line, ranges[i]));
    }
    if common_line(ranges, start, end) {
        let (i, line) = choose|i: int, line: u32|
            0 <= i < ranges.len() && #[trigger] within(line, ranges[i]) && start <= line && line
                <= end;
        assert(ranges[i].0 <= end && start <= ranges[i].1);
    }
}

/// With a diff, a function is reported just if the diff touches a line of it:
/// then as without the diff, and else not at all.
pub proof fn law_only_touched_functions_are_reported(p: ProjectView, m: int, d: int, s: ScopeView)
    requires
        s.changed is Some,
        p.modules[m].decls[d].line <= p.modules[m].decls[d].end_line,
        forall|i: int|
            0 <= i < ranges_of(s.changed->0, p.modules[m].path).len() ==> (#[trigger] ranges_of(
                s.changed->0,
                p.modules[m].path,
            )[i]).0 <= ranges_of(s.changed->0, p.modules[m].path)[i].1,
    ensures
        ({
            let decl = p.modules[m].decls[d];
            if common_line(
                ranges_of(s.changed->0, p.modules[m].path),
                decl.line,
                decl.end_line,
            ) {
                decl_findings(p, m, d, s) == decl_findings(
                    p,
                    m,
                    d,
                    ScopeView { changed: None, ..s },
                )
            } else {
                decl_findings(p, m, d, s).len() == 0
            }
        }),
{
    let decl = p.modules[m].decls[d];
    let ranges = ranges_of(s.changed->0, p.modules[m].path);
    law_overlap_is_a_common_line(ranges, decl.line, decl.end_line);
}

// ---------------------------------------------------------------------------
// Hunks
// ---------------------------------------------------------------------------

/// A hunk touches as many lines as it has, from its first on; one that only
/// removes lines touches the line where they stood.
pub proof fn law_hunk_touches_its_lines(start: nat, count: nat, line: u32)
    requires
        1 <= start,
        start + count <= u32::MAX,
    ensures
        count > 0 ==> (within(line, hunk_lines(start, count)) <==> start <= line && line < start
            + count),
        count == 0 ==> (within(line, hunk_lines(start, count)) <==> line == start),
        count == 0 ==> (within(line, hunk_lines(0, 0)) <==> line == 1),
{
}

proof fn lemma_index_is(text: Seq<char>, c: char, from: int, k: int)
    requires
        0 <= from <= k < text.len(),
        text[k] == c,
        forall|j: int| from <= j < k ==> text[j] != c,
    ensures
        index_from(text, c, from) == Some(k),
    decreases k - from,
{
    if from < k {
        lemma_index_is(text, c, from + 1, k);
    }
}

proof fn lemma_index_none(text: Seq<char>, c: char, from: int)
    requires
        0 <= from,
        forall|j: int| from <= j < text.len() ==> text[j] != c,
    ensures
        index_from(text, c, from) is None,
    decreases text.len() - from,
{
    if from < text.len() {
        lemma_index_none(text, c, from + 1);
    }
}

proof fn lemma_numbers_end(text: Seq<char>, from: int, to: int)
    requires
        0 <= from <= to <= text.len(),
        forall|j: int| from <= j < to ==> is_digit(text[j]) || text[j] == ',',
        to == text.len() || !(is_digit(text[to]) || text[to] == ','),
    ensures
        numbers_end(text, from) == to,
    decreases to - from,
{
    if from < to {
        lemma_numbers_end(text, from + 1, to);
    }
}

proof fn lemma_decimal_digits(n: nat)
    ensures
        all_digits(decimal(n)),
{
    law_decimal_is_read_back(n, n);
}

/// The text of a hunk header: what stands before the plus sign, where the new
/// side starts, how many lines it has, and what stands behind.
pub open spec fn hunk_text(before: Seq<char>, start: nat, count: nat, behind: Seq<char>) -> Seq<
    char,
> {
    before + seq!['+'] + decimal(start) + seq![','] + decimal(count) + behind
}

/// A hunk header says which lines of the new side it is about.
pub proof fn law_hunk_headers_are_read(
    before: Seq<char>,
    start: nat,
    count: nat,
    behind: Seq<char>,
)
    requires
        forall|j: int| 0 <= j < before.len() ==> before[j] != '+',
        start <= u32::MAX,
        count <= u32::MAX,
        behind.len() > 0 ==> !is_digit(behind[0]) && behind[0] != ',',
    ensures
        hunk_new_side(hunk_text(before, start, count, behind)) == Some(hunk_lines(start, count)),
{
    let a = decimal(start);
    let b = decimal(count);
    let t = hunk_text(before, start, count, behind);
    let k = before.len() as int;
    lemma_decimal_digits(start);
    lemma_decimal_digits(count);
    law_decimal_is_read_back(start, u32::MAX as nat);
    law_decimal_is_read_back(count, u32::MAX as nat);
    assert forall|j: int| 0 <= j < k implies t[j] != '+' by {
        assert(t[j] == before[j]);
    }
    assert(t[k] == '+');
    lemma_index_is(t, '+', 0, k);
    let end = k + 1 + a.len() + 1 + b.len();
    assert forall|j: int| k + 1 <= j < end implies is_digit(t[j]) || t[j] == ',' by {
        if j < k + 1 + a.len() {
            assert(t[j] == a[j - k - 1]);
        } else if j > k + 1 + a.len() {
            assert(t[j] == b[j - k - 2 - a.len()]);
        } else {
            assert(t[j] == ',');
        }
    }
    if end < t.len() {
        assert(t[end] == behind[0]);
    }
    lemma_numbers_end(t, k + 1, end);
    let spec = t.subrange(k + 1, end);
    assert(spec =~= a + seq![','] + b);
    let c = a.len() as int;
    assert forall|j: int| 0 <= j < c implies spec[j] != ',' by {
        assert(spec[j] == a[j]);
        assert(is_digit(a[j]));
    }
    lemma_index_is(spec, ',', 0, c);
    assert forall|j: int| c + 1 <= j < spec.len() implies spec[j] != ',' by {
        assert(spec[j] == b[j - c - 1]);
        assert(is_digit(b[j - c - 1]));
    }
    lemma_index_none(spec, ',', c + 1);
    assert(spec.take(c) =~= a);
    assert(spec.subrange(c + 1, spec.len() as int) =~= b);
}

/// A hunk header without a count is about one line.
pub proof fn law_short_hunk_headers_are_read(before: Seq<char>, start: nat, behind: Seq<char>)
    requires
        forall|j: int| 0 <= j < before.len() ==> before[j] != '+',
        start <= u32::MAX,
        behind.len() > 0 ==> !is_digit(behind[0]) && behind[0] != ',',
    ensures
        hunk_new_side(before + seq!['+'] + decimal(start) + behind) == Some(hunk_lines(start, 1)),
{
    let a = decimal(start);
    let t = before + seq!['+'] + a + behind;
    let k = before.len() as int;
    lemma_decimal_digits(start);
    law_decimal_is_read_back(start, u32::MAX as nat);
    assert forall|j: int| 0 <= j < k implies t[j] != '+' by {
        assert(t[j] == before[j]);
    }
    assert(t[k] == '+');
    lemma_index_is(t, '+', 0, k);
    let end = k + 1 + a.len();
    assert forall|j: int| k + 1 <= j < end implies is_digit(t[j]) || t[j] == ',' by {
        assert(t[j] == a[j - k - 1]);
    }
    if end < t.len() {
        assert(t[end] == behind[0]);
    }
    lemma_numbers_end(t, k + 1, end);
    let spec = t.subrange(k + 1, end);
    assert(spec =~= a);
    assert forall|j: int| 0 <= j < spec.len() implies spec[j] != ',' by {
        assert(is_digit(a[j]));
    }
    lemma_index_none(spec, ',', 0);
}

/// A hunk adds its lines to those of the file that it belongs to, behind the
/// ones that are known, and to no other file.
pub proof fn law_hunks_belong_to_their_file(
    s: DiffView,
    header: Seq<char>,
    root: Seq<char>,
    other: Seq<char>,
)
    requires
        s.current is Some,
        hunk_new_side(header) is Some,
        other != s.current->0,
    ensures
        ({
            let after = with_line(s, "@@"@ + header, root);
            &&& after.current == s.current
            &&& ranges_of(after.changed, s.current->0) == ranges_of(
                s.changed,
                s.current->0,
            ).push(hunk_new_side(header)->0)
            &&& ranges_of(after.changed, other) == ranges_of(s.changed, other)
        }),
{
    reveal_strlit("@@");
    reveal_strlit("+++ ");
    let line = "@@"@ + header;
    assert("@@"@.len() == 2 && "+++ "@.len() == 4);
    assert(line.subrange(0, 2) =~= "@@"@);
    assert(line.skip(2) =~= header);
    if starts_with(line, "+++ "@) {
        assert(line.subrange(0, 4)[0] == line[0]);
        assert("+++ "@[0] == '+' && "@@"@[0] == '@');
    }
}

/// Without a file, as behind the header of a deleted one, hunks touch nothing;
/// nor does any line that is no header of a hunk.
pub proof fn law_other_lines_touch_nothing(s: DiffView, line: Seq<char>, root: Seq<char>)
    requires
        s.current is None || !starts_with(line, "@@"@),
    ensures
        with_line(s, line, root).changed == s.changed,
{
    reveal_strlit("@@");
    reveal_strlit("+++ ");
}

// ---------------------------------------------------------------------------
// Files
// ---------------------------------------------------------------------------

/// Whether a text neither starts nor ends with white space or a quote.
pub open spec fn plain_ends(p: Seq<char>) -> bool {
    p.len() > 0 && !is_space(p[0]) && !is_space(p.last()) && p[0] != '"'
}

proof fn lemma_trimmed_plain(p: Seq<char>)
    requires
        plain_ends(p),
    ensures
        trimmed(p) == p,
{
    assert(p.subrange(0, p.len() as int) =~= p);
}

/// The header of a new file names it: `b/` and its path below the root. The
/// header of a deleted file names none.
pub proof fn law_headers_name_their_file(s: DiffView, path: Seq<char>, root: Seq<char>)
    requires
        s.after_old,
        path.len() > 0,
        !is_space(path.last()),
    ensures
        with_line(s, "+++ b/"@ + path, root).current == Some(joined(root, path)),
        with_line(s, "+++ /dev/null"@, root).current is None,
        with_line(s, "+++ b/"@ + path, root).changed == s.changed,
{
    reveal_strlit("+++ b/");
    reveal_strlit("+++ ");
    reveal_strlit("b/");
    reveal_strlit("+++ /dev/null");
    reveal_strlit("/dev/null");
    assert("+++ b/"@.len() == 6 && "+++ "@.len() == 4 && "b/"@.len() == 2);
    let line = "+++ b/"@ + path;
    assert(line.subrange(0, 4) =~= "+++ "@);
    let rest = line.skip(4);
    assert(rest =~= "b/"@ + path);
    assert(rest[0] == 'b');
    assert(rest.last() == path.last());
    lemma_trimmed_plain(rest);
    assert(rest.subrange(0, 2) =~= "b/"@);
    assert(rest.skip(2) =~= path);
    assert("/dev/null"@.len() == 9);
    assert("/dev/null"@[0] == '/');
    let gone = "+++ /dev/null"@;
    assert(gone.len() == 13);
    assert(gone.subrange(0, 4) =~= "+++ "@);
    assert(gone.skip(4) =~= "/dev/null"@);
    assert("/dev/null"@.last() == 'l');
    lemma_trimmed_plain("/dev/null"@);
}

/// Whether a line names the old file is what the next line goes by.
pub proof fn law_old_file_comes_first(s: DiffView, line: Seq<char>, root: Seq<char>)
    ensures
        with_line(s, line, root).after_old <==> starts_with(line, "--- "@),
{
}

/// A byte as a backslash and three octal digits.
pub open spec fn octal_text(b: u8) -> Seq<char> {
    seq![
        '\\',
        (('0' as u32 + b / 64) as char),
        (('0' as u32 + (b / 8) % 8) as char),
        (('0' as u32 + b % 8) as char),
    ]
}

pub open spec fn octal_texts(bytes: Seq<u8>) -> Seq<char>
    decreases bytes.len(),
{
    if bytes.len() == 0 {
        Seq::empty()
    } else {
        octal_text(bytes[0]) + octal_texts(bytes.drop_first())
    }
}

proof fn lemma_octal_digits(b: u8)
    ensures
        b / 64 <= 3,
        (b / 8) % 8 <= 7,
        b % 8 <= 7,
        64 * (b / 64) + 8 * ((b / 8) % 8) + b % 8 == b,
{
    assert(b / 64 <= 3 && (b / 8) % 8 <= 7 && b % 8 <= 7) by (bit_vector);
    assert(64 * (b / 64) + 8 * ((b / 8) % 8) + b % 8 == b) by (bit_vector);
}

proof fn lemma_octal_read(before: Seq<char>, bytes: Seq<u8>)
    ensures
        c_bytes(before + octal_texts(bytes), before.len() as int) == Some(bytes),
    decreases bytes.len(),
{
    let t = before + octal_texts(bytes);
    let i = before.len() as int;
    if bytes.len() > 0 {
        let b = bytes[0];
        lemma_octal_digits(b);
        let o = octal_text(b);
        let rest = octal_texts(bytes.drop_first());
        assert(t =~= (before + o) + rest);
        lemma_octal_read(before + o, bytes.drop_first());
        assert(t[i] == '\\' && t[i + 1] == o[1] && t[i + 2] == o[2] && t[i + 3] == o[3]);
        assert(octal_byte(o[1], o[2], o[3]) == b);
        assert(seq![b] + bytes.drop_first() =~= bytes);
    } else {
        assert(bytes =~= Seq::empty());
    }
}

/// Bytes that git writes as octal escapes are read back.
pub proof fn law_octal_escapes_are_read_back(bytes: Seq<u8>)
    ensures
        c_bytes(octal_texts(bytes), 0) == Some(bytes),
{
    lemma_octal_read(Seq::empty(), bytes);
    assert(Seq::<char>::empty() + octal_texts(bytes) =~= octal_texts(bytes));
}

/// The letters behind a backslash stand for the characters that they stand for
/// in C.
pub proof fn law_letter_escapes()
    ensures
        escape_byte('t') == Some('\t' as u8),
        escape_byte('n') == Some('\n' as u8),
        escape_byte('r') == Some('\r' as u8),
        escape_byte('"') == Some('"' as u8),
        escape_byte('\\') == Some('\\' as u8),
        escape_byte('a') == Some(7u8),
        escape_byte('b') == Some(8u8),
        escape_byte('v') == Some(11u8),
        escape_byte('f') == Some(12u8),
        forall|c: char|
            c != 't' && c != 'n' && c != 'r' && c != '"' && c != '\\' && c != 'a' && c != 'b' && c
                != 'v' && c != 'f' ==> (#[trigger] escape_byte(c)) is None,
{
}

/// A path without quotes is taken as it is written.
pub proof fn law_plain_paths_are_taken(p: Seq<char>)
    requires
        p.len() > 0 ==> p[0] != '"' || p.last() != '"' || p.len() < 2,
    ensures
        written_path(p) == Some(p),
{
}

// ---------------------------------------------------------------------------
// Lines of a text
// ---------------------------------------------------------------------------

/// Whether a text holds no line break.
pub open spec fn one_line(text: Seq<char>) -> bool {
    forall|i: int| 0 <= i < text.len() ==> text[i] != '\n'
}

proof fn lemma_line_end_at(text: Seq<char>, from: int, to: int)
    requires
        0 <= from <= to <= text.len(),
        forall|j: int| from <= j < to ==> text[j] != '\n',
        to == text.len() || text[to] == '\n',
    ensures
        line_end(text, from) == to,
    decreases to - from,
{
    if from < to {
        lemma_line_end_at(text, from + 1, to);
    }
}

proof fn lemma_lines_behind(front: Seq<char>, line: Seq<char>, rest: Seq<char>, cr: bool)
    requires
        one_line(line),
        line.len() > 0 ==> line.last() != '\r',
    ensures
        ({
            let ending = if cr {
                seq!['\r', '\n']
            } else {
                seq!['\n']
            };
            let text = front + line + ending + rest;
            lines_from(text, front.len() as int) == seq![line] + lines_from(
                text,
                (front.len() + line.len() + ending.len()) as int,
            )
        }),
{
    let ending = if cr {
        seq!['\r', '\n']
    } else {
        seq!['\n']
    };
    let text = front + line + ending + rest;
    let from = front.len() as int;
    let end = from + line.len() + ending.len() - 1;
    assert forall|j: int| from <= j < end implies text[j] != '\n' by {
        if j < from + line.len() {
            assert(text[j] == line[j - from]);
        }
    }
    assert(text[end] == '\n');
    lemma_line_end_at(text, from, end);
    if cr {
        assert(text[end - 1] == '\r');
        assert(text.subrange(from, end - 1) =~= line);
    } else {
        if line.len() > 0 {
            assert(text[end - 1] == line.last());
        }
        assert(text.subrange(from, end) =~= line);
    }
}

/// The first line of a text is what stands before its first line break, with
/// or without a carriage return.
pub proof fn law_first_line(line: Seq<char>, rest: Seq<char>)
    requires
        one_line(line),
        line.len() > 0 ==> line.last() != '\r',
    ensures
        lines_from(line + seq!['\n'] + rest, 0).len() > 0,
        lines_from(line + seq!['\n'] + rest, 0)[0] == line,
        lines_from(line + seq!['\r', '\n'] + rest, 0).len() > 0,
        lines_from(line + seq!['\r', '\n'] + rest, 0)[0] == line,
{
    lemma_lines_behind(Seq::empty(), line, rest, false);
    lemma_lines_behind(Seq::empty(), line, rest, true);
    assert(Seq::<char>::empty() + line + seq!['\n'] + rest =~= line + seq!['\n'] + rest);
    assert(Seq::<char>::empty() + line + seq!['\r', '\n'] + rest =~= line + seq!['\r', '\n']
        + rest);
}

} // verus!

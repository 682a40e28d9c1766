//! Lone surrogates in a syntax tree's document. A string with a surrogate that
//! has no partner is no text: its document escapes the surrogate, and a JSON
//! reader refuses that. In place of the surrogate stands U+FFFD with the four
//! hex digits behind it, as in the parser's own strings; there a U+FFFD that
//! the source itself holds has `fffd` behind it.

use vstd::prelude::*;

use crate::text::chars_of;

verus! {

/// Whether the second hex digit of an escape makes it one of a surrogate,
/// where the first is `d`.
pub open spec fn surrogate_digit(c: char) -> bool {
    ('8' <= c && c <= '9') || ('a' <= c && c <= 'f') || ('A' <= c && c <= 'F')
}

/// Whether an escape might start at position `i` that names a surrogate.
pub open spec fn surrogate_mark(text: Seq<char>, i: int) -> bool {
    &&& 0 <= i
    &&& i + 2 < text.len()
    &&& text[i] == '\\'
    &&& text[i + 1] == 'u'
    &&& text[i + 2] == 'd' || text[i + 2] == 'D'
}

/// Whether position `i` of a string's inside starts the escape of a surrogate.
pub open spec fn surrogate_at(text: Seq<char>, i: int) -> bool {
    surrogate_mark(text, i) && i + 6 <= text.len() && surrogate_digit(text[i + 3])
}

/// Whether the string whose inside starts or goes on at position `i` holds a
/// surrogate there or behind.
pub open spec fn holds_surrogate(text: Seq<char>, i: int) -> bool
    decreases text.len() - i,
{
    if i < 0 || i >= text.len() || text[i] == '"' {
        false
    } else if surrogate_at(text, i) {
        true
    } else if text[i] == '\\' && i + 1 < text.len() {
        holds_surrogate(text, i + 2)
    } else {
        holds_surrogate(text, i + 1)
    }
}

/// The document from position `i` with every surrogate replaced. `in_str`
/// tells whether that position stands inside a string, and `lone` whether that
/// string holds a surrogate.
pub open spec fn mended(text: Seq<char>, i: int, in_str: bool, lone: bool) -> Seq<char>
    decreases text.len() - i,
{
    if i < 0 || i >= text.len() {
        Seq::empty()
    } else if !in_str {
        seq![text[i]] + mended(
            text,
            i + 1,
            text[i] == '"',
            text[i] == '"' && holds_surrogate(text, i + 1),
        )
    } else if surrogate_at(text, i) {
        seq!['\u{FFFD}'] + text.subrange(i + 2, i + 6) + mended(text, i + 6, true, lone)
    } else if text[i] == '\\' && i + 1 < text.len() {
        seq![text[i], text[i + 1]] + mended(text, i + 2, true, lone)
    } else if text[i] == '\u{FFFD}' && lone {
        seq![text[i], 'f', 'f', 'f', 'd'] + mended(text, i + 1, true, lone)
    } else {
        seq![text[i]] + mended(text, i + 1, text[i] != '"', lone && text[i] != '"')
    }
}

/// A document with every surrogate replaced.
pub open spec fn without_surrogates(text: Seq<char>) -> Seq<char> {
    mended(text, 0, false, false)
}

// ---------------------------------------------------------------------------
// Documents without surrogates
// ---------------------------------------------------------------------------

proof fn lemma_holds_none(text: Seq<char>, i: int)
    requires
        forall|k: int| !#[trigger] surrogate_mark(text, k),
    ensures
        !holds_surrogate(text, i),
    decreases text.len() - i,
{
    if 0 <= i < text.len() && text[i] != '"' {
        assert(!surrogate_mark(text, i));
        if text[i] == '\\' && i + 1 < text.len() {
            lemma_holds_none(text, i + 2);
        } else {
            lemma_holds_none(text, i + 1);
        }
    }
}

proof fn lemma_nothing_to_mend(text: Seq<char>, i: int, in_str: bool)
    requires
        0 <= i <= text.len(),
        forall|k: int| !#[trigger] surrogate_mark(text, k),
    ensures
        mended(text, i, in_str, false) == text.skip(i),
    decreases text.len() - i,
{
    if i < text.len() {
        assert(!surrogate_mark(text, i));
        assert(text.skip(i) =~= seq![text[i]] + text.skip(i + 1));
        if !in_str {
            lemma_holds_none(text, i + 1);
            lemma_nothing_to_mend(text, i + 1, text[i] == '"');
        } else if text[i] == '\\' && i + 1 < text.len() {
            lemma_nothing_to_mend(text, i + 2, true);
            assert(text.skip(i) =~= seq![text[i], text[i + 1]] + text.skip(i + 2));
        } else {
            lemma_nothing_to_mend(text, i + 1, text[i] != '"');
        }
    }
}

/// A document without an escape of a surrogate is left as it is.
pub proof fn law_other_documents_stay(text: Seq<char>)
    requires
        forall|k: int| !#[trigger] surrogate_mark(text, k),
    ensures
        without_surrogates(text) == text,
{
    lemma_nothing_to_mend(text, 0, false);
    assert(text.skip(0) =~= text);
}

// ---------------------------------------------------------------------------
// Replacing
// ---------------------------------------------------------------------------

/// Whether a text holds a mark of a surrogate.
fn marked(text: &str) -> (r: bool)
    ensures
        !r ==> forall|k: int| !#[trigger] surrogate_mark(text@, k),
{
    let mut found: bool = false;
    let mut before: char = ' ';
    let mut last: char = ' ';
    for c in it: text.chars()
        invariant
            it.seq() == text@,
            it.index() >= 1 ==> last == text@[it.index() - 1],
            it.index() >= 2 ==> before == text@[it.index() - 2],
            it.index() < 1 ==> last == ' ',
            it.index() < 2 ==> before == ' ',
            !found ==> forall|k: int|
                k + 2 < it.index() ==> !#[trigger] surrogate_mark(text@, k),
    {
        if before == '\\' && last == 'u' && (c == 'd' || c == 'D') {
            found = true;
        }
        before = last;
        last = c;
    }
    found
}

fn surrogate_here(chars: &Vec<char>, i: usize) -> (r: bool)
    requires
        i <= chars@.len(),
    ensures
        r == surrogate_at(chars@, i as int),
{
    if chars.len() - i < 6 {
        return false;
    }
    let d: char = chars[i + 3];
    chars[i] == '\\' && chars[i + 1] == 'u' && (chars[i + 2] == 'd' || chars[i + 2] == 'D') && ((
    '8' <= d && d <= '9') || ('a' <= d && d <= 'f') || ('A' <= d && d <= 'F'))
}

fn surrogate_ahead(chars: &Vec<char>, from: usize) -> (r: bool)
    requires
        from <= chars@.len(),
    ensures
        r == holds_surrogate(chars@, from as int),
{
    let mut i: usize = from;
    while i < chars.len() && chars[i] != '"'
        invariant
            from <= i <= chars@.len(),
            holds_surrogate(chars@, from as int) == holds_surrogate(chars@, i as int),
        decreases chars@.len() - i,
    {
        if surrogate_here(chars, i) {
            return true;
        }
        if chars[i] == '\\' && chars.len() - i >= 2 {
            i = i + 2;
        } else {
            i = i + 1;
        }
    }
    false
}

/// Replaces every surrogate of a document.
fn mend(text: &str) -> (r: String)
    ensures
        r@ == without_surrogates(text@),
{
    let chars: Vec<char> = chars_of(text);
    let ghost all = chars@;
    let mut out: String = String::new();
    let mut i: usize = 0;
    let mut in_str: bool = false;
    let mut lone: bool = false;
    while i < chars.len()
        invariant
            all == chars@,
            i <= all.len(),
            without_surrogates(all) == out@ + mended(all, i as int, in_str, lone),
        decreases all.len() - i,
    {
        let c: char = chars[i];
        let ghost before = out@;
        let ghost rest = mended(all, i as int, in_str, lone);
        if !in_str {
            out.push(c);
            lone = c == '"' && surrogate_ahead(&chars, i + 1);
            in_str = c == '"';
            i = i + 1;
        } else if surrogate_here(&chars, i) {
            out.push('\u{FFFD}');
            out.push(chars[i + 2]);
            out.push(chars[i + 3]);
            out.push(chars[i + 4]);
            out.push(chars[i + 5]);
            i = i + 6;
        } else if c == '\\' && chars.len() - i >= 2 {
            out.push(c);
            out.push(chars[i + 1]);
            i = i + 2;
        } else if c == '\u{FFFD}' && lone {
            out.push(c);
            out.push('f');
            out.push('f');
            out.push('f');
            out.push('d');
            i = i + 1;
        } else {
            out.push(c);
            in_str = c != '"';
            lone = lone && c != '"';
            i = i + 1;
        }
        assert(before + rest =~= out@ + mended(all, i as int, in_str, lone));
    }
    assert(mended(all, i as int, in_str, lone) =~= Seq::empty());
    assert(out@ + Seq::<char>::empty() =~= out@);
    out
}

/// The replaced document where a surrogate may stand in it; nothing where none
/// does, so that the document itself serves.
pub fn replace_surrogates(text: &str) -> (r: Option<String>)
    ensures
        (match r {
            Some(s) => s@ == without_surrogates(text@),
            None => text@ == without_surrogates(text@),
        }),
{
    if marked(text) {
        Some(mend(text))
    } else {
        proof {
            law_other_documents_stay(text@);
        }
        None
    }
}

} // verus!

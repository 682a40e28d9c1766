//! A source text, its byte offsets and its lines.

use vstd::prelude::*;
use vstd::string::*;

use crate::text::{chars_of, text_between};

verus! {

/// The number of bytes of a character in UTF-8.
pub open spec fn width(c: char) -> nat {
    if (c as u32) < 0x80 {
        1
    } else if (c as u32) < 0x800 {
        2
    } else if (c as u32) < 0x10000 {
        3
    } else {
        4
    }
}

/// The number of bytes of a text in UTF-8.
pub open spec fn byte_len(text: Seq<char>) -> nat
    decreases text.len(),
{
    if text.len() == 0 {
        0
    } else {
        byte_len(text.drop_last()) + width(text.last())
    }
}

/// The number of line breaks in a text.
pub open spec fn break_count(text: Seq<char>) -> nat
    decreases text.len(),
{
    if text.len() == 0 {
        0
    } else {
        break_count(text.drop_last()) + (if text.last() == '\n' {
            1nat
        } else {
            0
        })
    }
}

/// The number of characters that start before the byte offset.
pub open spec fn index_at(text: Seq<char>, offset: nat) -> int
    decreases text.len(),
{
    if text.len() == 0 {
        0
    } else if byte_len(text.drop_last()) < offset {
        text.len() as int
    } else {
        index_at(text.drop_last(), offset)
    }
}

/// The line of a byte offset, counted from one.
pub open spec fn line_at(text: Seq<char>, offset: nat) -> u32 {
    let n = break_count(text.take(index_at(text, offset)));
    if n >= u32::MAX {
        u32::MAX
    } else {
        (n + 1) as u32
    }
}

/// The text between two byte offsets.
pub open spec fn text_of_span(text: Seq<char>, start: nat, end: nat) -> Seq<char> {
    let a = index_at(text, start);
    let b = index_at(text, end);
    if a <= b {
        text.subrange(a, b)
    } else {
        Seq::empty()
    }
}

proof fn lemma_index_range(text: Seq<char>, offset: nat)
    ensures
        0 <= index_at(text, offset) <= text.len(),
    decreases text.len(),
{
    if text.len() > 0 {
        lemma_index_range(text.drop_last(), offset);
    }
}

proof fn lemma_offsets_grow(text: Seq<char>, i: int, j: int)
    requires
        0 <= i <= j <= text.len(),
    ensures
        byte_len(text.take(i)) + (j - i) <= byte_len(text.take(j)),
    decreases j,
{
    if i < j {
        lemma_offsets_grow(text, i, j - 1);
        assert(text.take(j).drop_last() =~= text.take(j - 1));
    }
}

/// The characters up to position `k` are those that start before the offset.
proof fn lemma_index_at(text: Seq<char>, offset: nat, k: int)
    requires
        0 <= k <= text.len(),
        k > 0 ==> byte_len(text.take(k - 1)) < offset,
        k < text.len() ==> byte_len(text.take(k)) >= offset,
    ensures
        index_at(text, offset) == k,
    decreases text.len(),
{
    if text.len() > 0 {
        let shorter = text.drop_last();
        assert(shorter =~= text.take(text.len() - 1));
        if k < text.len() {
            lemma_offsets_grow(text, k, text.len() - 1);
            if k > 0 {
                assert(shorter.take(k - 1) =~= text.take(k - 1));
            }
            if k < shorter.len() {
                assert(shorter.take(k) =~= text.take(k));
            }
            lemma_index_at(shorter, offset, k);
        }
    }
}

fn char_width(c: char) -> (r: u128)
    ensures
        r == width(c),
{
    let code: u32 = c as u32;
    if code < 0x80 {
        1
    } else if code < 0x800 {
        2
    } else if code < 0x10000 {
        3
    } else {
        4
    }
}

/// A source text, with the byte offset and the line of each character.
pub struct Source {
    chars: Vec<char>,
    /// The byte offset at which each character starts.
    offsets: Vec<u128>,
    /// The number of line breaks before each character, and in all.
    breaks: Vec<usize>,
}

impl View for Source {
    type V = Seq<char>;

    closed spec fn view(&self) -> Seq<char> {
        self.chars@
    }
}

impl Source {
    pub closed spec fn well_formed(&self) -> bool {
        &&& self.offsets@.len() == self.chars@.len()
        &&& self.breaks@.len() == self.chars@.len() + 1
        &&& forall|i: int|
            0 <= i < self.chars@.len() ==> #[trigger] self.offsets@[i] == byte_len(
                self.chars@.take(i),
            )
        &&& forall|i: int|
            0 <= i <= self.chars@.len() ==> #[trigger] self.breaks@[i] == break_count(
                self.chars@.take(i),
            )
    }

    pub fn new(text: &str) -> (r: Self)
        ensures
            r.well_formed(),
            r@ == text@,
    {
        let chars = chars_of(text);
        let mut offsets: Vec<u128> = Vec::new();
        let mut breaks: Vec<usize> = Vec::new();
        let mut at: u128 = 0;
        let mut lines: usize = 0;
        breaks.push(0);
        let mut i: usize = 0;
        while i < chars.len()
            invariant
                i <= chars@.len(),
                offsets@.len() == i,
                breaks@.len() == i + 1,
                at == byte_len(chars@.take(i as int)),
                at <= 4 * i,
                lines == break_count(chars@.take(i as int)),
                lines <= i,
                forall|j: int| 0 <= j < i ==> #[trigger] offsets@[j] == byte_len(chars@.take(j)),
                forall|j: int|
                    0 <= j <= i ==> #[trigger] breaks@[j] == break_count(chars@.take(j)),
            decreases chars@.len() - i,
        {
            let c: char = chars[i];
            assert(chars@.take(i + 1).drop_last() =~= chars@.take(i as int));
            offsets.push(at);
            at = at + char_width(c);
            if c == '\n' {
                lines = lines + 1;
            }
            breaks.push(lines);
            i += 1;
        }
        Source { chars, offsets, breaks }
    }

    fn index(&self, offset: u32) -> (r: usize)
        requires
            self.well_formed(),
        ensures
            r == index_at(self@, offset as nat),
            r <= self@.len(),
    {
        let mut lo: usize = 0;
        let mut hi: usize = self.chars.len();
        while lo < hi
            invariant
                self.well_formed(),
                lo <= hi <= self.chars@.len(),
                lo > 0 ==> byte_len(self.chars@.take(lo - 1)) < offset,
                hi < self.chars@.len() ==> byte_len(self.chars@.take(hi as int)) >= offset,
            decreases hi - lo,
        {
            let mid: usize = lo + (hi - lo) / 2;
            if self.offsets[mid] < offset as u128 {
                lo = mid + 1;
            } else {
                hi = mid;
            }
        }
        proof {
            lemma_index_at(self.chars@, offset as nat, lo as int);
        }
        lo
    }

    /// The line of a byte offset, counted from one.
    pub fn line_of(&self, offset: u32) -> (r: u32)
        requires
            self.well_formed(),
        ensures
            r == line_at(self@, offset as nat),
    {
        let n: usize = self.breaks[self.index(offset)];
        if n >= u32::MAX as usize {
            u32::MAX
        } else {
            n as u32 + 1
        }
    }

    /// The text between two byte offsets.
    pub fn span_text(&self, start: u32, end: u32) -> (r: String)
        requires
            self.well_formed(),
        ensures
            r@ == text_of_span(self@, start as nat, end as nat),
    {
        let a: usize = self.index(start);
        let b: usize = self.index(end);
        if a <= b {
            text_between(&self.chars, a, b)
        } else {
            String::new()
        }
    }
}

} // verus!

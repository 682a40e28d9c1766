//! Text primitives. Text is modelled as its sequence of characters.

use vstd::prelude::*;
use vstd::string::*;

verus! {

broadcast use vstd::string::group_string_axioms;

/// `str`'s `==`: two texts are equal exactly when they have the same characters.
#[verifier::external_body]
pub(crate) fn same_text(a: &str, b: &str) -> (r: bool)
    ensures
        r == (a@ == b@),
{
    a == b
}

/// `String::push`: appends one character.
pub assume_specification[ String::push ](s: &mut String, c: char)
    ensures
        final(s)@ == old(s)@.push(c),
;

/// The text `a` followed by the text `b`.
pub fn concat(a: &str, b: &str) -> (r: String)
    ensures
        r@ == a@ + b@,
{
    let mut s: String = String::new();
    s.append(a);
    s.append(b);
    assert(s@ =~= a@ + b@);
    s
}

/// The characters of a text.
pub fn chars_of(s: &str) -> (r: Vec<char>)
    ensures
        r@ == s@,
{
    let mut out: Vec<char> = Vec::new();
    for c in it: s.chars()
        invariant
            it.seq() == s@,
            out@ == s@.take(it.index()),
    {
        out.push(c);
    }
    assert(s@.take(s@.len() as int) =~= s@);
    out
}

/// The text made of the characters from position `from` up to position `to`.
pub fn text_between(chars: &Vec<char>, from: usize, to: usize) -> (r: String)
    requires
        from <= to <= chars@.len(),
    ensures
        r@ == chars@.subrange(from as int, to as int),
{
    let mut s: String = String::new();
    let mut i: usize = from;
    while i < to
        invariant
            from <= i <= to <= chars@.len(),
            s@ == chars@.subrange(from as int, i as int),
        decreases to - i,
    {
        s.push(chars[i]);
        i += 1;
        assert(s@ =~= chars@.subrange(from as int, i as int));
    }
    s
}

/// Whether `part` stands in `chars` at position `at`.
pub open spec fn stands_at(chars: Seq<char>, part: Seq<char>, at: int) -> bool {
    0 <= at && at + part.len() <= chars.len() && chars.subrange(at, at + part.len()) == part
}

/// Tests whether `part` stands in `chars` at position `at`.
pub fn text_at(chars: &Vec<char>, part: &str, at: usize) -> (r: bool)
    ensures
        r == stands_at(chars@, part@, at as int),
{
    let p: Vec<char> = chars_of(part);
    let total: usize = chars.len();
    if at > total || p.len() > total - at {
        return false;
    }
    let mut i: usize = 0;
    while i < p.len()
        invariant
            i <= p@.len(),
            p@ == part@,
            total == chars@.len(),
            at + p@.len() <= total,
            forall|j: int| 0 <= j < i ==> chars@[at + j] == p@[j],
        decreases p@.len() - i,
    {
        if chars[at + i] != p[i] {
            assert(chars@.subrange(at as int, at + p@.len())[i as int] != p@[i as int]);
            return false;
        }
        i += 1;
    }
    assert(chars@.subrange(at as int, at + p@.len()) =~= part@);
    true
}

pub open spec fn starts_with(text: Seq<char>, prefix: Seq<char>) -> bool {
    stands_at(text, prefix, 0)
}

pub open spec fn ends_with(text: Seq<char>, suffix: Seq<char>) -> bool {
    stands_at(text, suffix, text.len() - suffix.len())
}

pub fn has_prefix(text: &str, prefix: &str) -> (r: bool)
    ensures
        r == starts_with(text@, prefix@),
{
    let c = chars_of(text);
    text_at(&c, prefix, 0)
}

pub fn has_suffix(text: &str, suffix: &str) -> (r: bool)
    ensures
        r == ends_with(text@, suffix@),
{
    let c = chars_of(text);
    let p = chars_of(suffix);
    if p.len() > c.len() {
        return false;
    }
    text_at(&c, suffix, c.len() - p.len())
}

/// The position of the first `c` at or after `from`, if there is one.
pub open spec fn index_from(text: Seq<char>, c: char, from: int) -> Option<int>
    decreases text.len() - from,
{
    if from < 0 || from >= text.len() {
        None
    } else if text[from] == c {
        Some(from)
    } else {
        index_from(text, c, from + 1)
    }
}

pub proof fn lemma_index_from(text: Seq<char>, c: char, from: int)
    requires
        0 <= from,
    ensures
        (match index_from(text, c, from) {
            Some(k) => from <= k < text.len() && text[k] == c && (forall|j: int|
                from <= j < k ==> text[j] != c),
            None => forall|j: int| from <= j < text.len() ==> text[j] != c,
        }),
    decreases text.len() - from,
{
    if from < text.len() && text[from] != c {
        lemma_index_from(text, c, from + 1);
    }
}

pub fn find_char(chars: &Vec<char>, c: char, from: usize) -> (r: Option<usize>)
    ensures
        (match r {
            Some(k) => index_from(chars@, c, from as int) == Some(k as int) && from <= k
                < chars@.len(),
            None => index_from(chars@, c, from as int) is None,
        }),
{
    let mut i: usize = from;
    while i < chars.len()
        invariant
            from <= i,
            index_from(chars@, c, from as int) == index_from(chars@, c, i as int),
        decreases chars@.len() - i,
    {
        if chars[i] == c {
            return Some(i);
        }
        i += 1;
    }
    None
}

/// Characters with the Unicode `White_Space` property.
pub open spec fn is_space(c: char) -> bool {
    ||| '\u{9}' <= c && c <= '\u{d}'
    ||| c == ' '
    ||| c == '\u{85}'
    ||| c == '\u{a0}'
    ||| c == '\u{1680}'
    ||| '\u{2000}' <= c && c <= '\u{200a}'
    ||| c == '\u{2028}'
    ||| c == '\u{2029}'
    ||| c == '\u{202f}'
    ||| c == '\u{205f}'
    ||| c == '\u{3000}'
}

pub fn whitespace(c: char) -> (r: bool)
    ensures
        r == is_space(c),
{
    ('\u{9}' <= c && c <= '\u{d}') || c == ' ' || c == '\u{85}' || c == '\u{a0}' || c == '\u{1680}'
        || ('\u{2000}' <= c && c <= '\u{200a}') || c == '\u{2028}' || c == '\u{2029}' || c
        == '\u{202f}' || c == '\u{205f}' || c == '\u{3000}'
}

/// The position of the first character that is no white space.
pub open spec fn skip_space(text: Seq<char>, from: int) -> int
    decreases text.len() - from,
{
    if 0 <= from < text.len() && is_space(text[from]) {
        skip_space(text, from + 1)
    } else {
        from
    }
}

/// The end of the text without its trailing white space, not below `from`.
pub open spec fn trim_end(text: Seq<char>, from: int, to: int) -> int
    decreases to - from,
{
    if from < to && is_space(text[to - 1]) {
        trim_end(text, from, to - 1)
    } else {
        to
    }
}

/// The text without white space at either end.
pub open spec fn trimmed(text: Seq<char>) -> Seq<char> {
    let from = skip_space(text, 0);
    text.subrange(from, trim_end(text, from, text.len() as int))
}

pub fn trim_text(text: &str) -> (r: String)
    ensures
        r@ == trimmed(text@),
{
    let c = chars_of(text);
    let mut from: usize = 0;
    while from < c.len() && whitespace(c[from])
        invariant
            from <= c@.len(),
            skip_space(c@, 0) == skip_space(c@, from as int),
        decreases c@.len() - from,
    {
        from += 1;
    }
    let mut to: usize = c.len();
    while from < to && whitespace(c[to - 1])
        invariant
            from <= to <= c@.len(),
            trim_end(c@, from as int, c@.len() as int) == trim_end(c@, from as int, to as int),
        decreases to - from,
    {
        to -= 1;
    }
    text_between(&c, from, to)
}

/// The character of a decimal digit.
pub open spec fn digit(n: nat) -> char {
    ('0' as u32 + n) as char
}

/// `n` written in decimal, without leading zeros.
pub open spec fn decimal(n: nat) -> Seq<char>
    decreases n,
{
    if n < 10 {
        seq![digit(n)]
    } else {
        decimal(n / 10).push(digit(n % 10))
    }
}

fn digit_char(n: u128) -> (r: char)
    requires
        n < 10,
    ensures
        r == digit(n as nat),
{
    (48u8 + n as u8) as char
}

pub fn write_decimal(n: u128) -> (r: String)
    ensures
        r@ == decimal(n as nat),
    decreases n,
{
    let mut s: String = if n < 10 {
        String::new()
    } else {
        write_decimal(n / 10)
    };
    s.push(digit_char(n % 10));
    assert(s@ =~= decimal(n as nat));
    s
}

pub open spec fn is_digit(c: char) -> bool {
    '0' <= c && c <= '9'
}

pub open spec fn digit_value(c: char) -> nat {
    (c as u32 - '0' as u32) as nat
}

/// The number that a run of decimal digits writes.
pub open spec fn decimal_value(text: Seq<char>) -> nat
    decreases text.len(),
{
    if text.len() == 0 {
        0
    } else {
        decimal_value(text.drop_last()) * 10 + digit_value(text.last())
    }
}

pub open spec fn all_digits(text: Seq<char>) -> bool {
    text.len() > 0 && forall|i: int| 0 <= i < text.len() ==> is_digit(#[trigger] text[i])
}

/// The number that a text of decimal digits writes, where it is at most `limit`.
pub open spec fn parsed_decimal(text: Seq<char>, limit: nat) -> Option<nat> {
    if all_digits(text) && decimal_value(text) <= limit {
        Some(decimal_value(text))
    } else {
        None
    }
}

/// A number that is written is read back.
pub proof fn law_decimal_is_read_back(n: nat, limit: nat)
    requires
        n <= limit,
    ensures
        parsed_decimal(decimal(n), limit) == Some(n),
{
    lemma_decimal_digits(n);
}

proof fn lemma_decimal_digits(n: nat)
    ensures
        all_digits(decimal(n)),
        decimal_value(decimal(n)) == n,
    decreases n,
{
    let text = decimal(n);
    assert(is_digit(digit(n % 10)) && digit_value(digit(n % 10)) == n % 10);
    if n < 10 {
        assert(text.drop_last() =~= Seq::empty());
        assert(decimal_value(text.drop_last()) == 0);
    } else {
        lemma_decimal_digits(n / 10);
        assert(text.drop_last() =~= decimal(n / 10));
    }
}

proof fn lemma_decimal_value_grows(text: Seq<char>, k: int)
    requires
        0 <= k <= text.len(),
        forall|i: int| 0 <= i < text.len() ==> is_digit(#[trigger] text[i]),
    ensures
        decimal_value(text.take(k)) <= decimal_value(text),
    decreases text.len() - k,
{
    if k == text.len() {
        assert(text.take(k) =~= text);
    } else {
        lemma_decimal_value_grows(text, k + 1);
        assert(text.take(k + 1).drop_last() =~= text.take(k));
    }
}

/// Reads the decimal number that the whole text writes, where it is at most `limit`.
pub fn read_decimal(text: &str, limit: u64) -> (r: Option<u64>)
    ensures
        (match r {
            Some(n) => parsed_decimal(text@, limit as nat) == Some(n as nat),
            None => parsed_decimal(text@, limit as nat) is None,
        }),
{
    let c = chars_of(text);
    if c.len() == 0 {
        return None;
    }
    let mut i: usize = 0;
    let mut all: bool = true;
    while i < c.len()
        invariant
            i <= c@.len(),
            all == forall|j: int| 0 <= j < i ==> is_digit(#[trigger] c@[j]),
        decreases c@.len() - i,
    {
        if !('0' <= c[i] && c[i] <= '9') {
            all = false;
        }
        i += 1;
    }
    if !all {
        return None;
    }
    let mut n: u64 = 0;
    i = 0;
    while i < c.len()
        invariant
            i <= c@.len(),
            c@ == text@,
            all_digits(c@),
            n <= limit,
            n == decimal_value(c@.take(i as int)),
        decreases c@.len() - i,
    {
        let d: u64 = c[i] as u64 - 48;
        proof {
            assert(is_digit(c@[i as int]));
            lemma_decimal_value_grows(c@, i + 1);
            assert(c@.take(i + 1).drop_last() =~= c@.take(i as int));
            assert(decimal_value(c@.take(i + 1)) == n * 10 + d);
        }
        if n > limit / 10 {
            return None;
        }
        if d > limit - n * 10 {
            return None;
        }
        n = n * 10 + d;
        i += 1;
    }
    assert(c@.take(c@.len() as int) =~= c@);
    Some(n)
}

} // verus!

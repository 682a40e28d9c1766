//! What is said of texts: positions, lines, numbers, comments and types.

use vstd::prelude::*;
use vstd::utf8::{encode_scalar, encode_utf8};

use crate::jsonc::{comment_end, line_end, plain_json, uncommented, without_trailing_commas};
use crate::number::{written_out, zeros};
use crate::source::{break_count, byte_len, index_at, line_at, text_of_span, width};
use crate::surrogate::{holds_surrogate, mended, surrogate_at, surrogate_digit, without_surrogates};
use crate::text::{
    all_digits, decimal, decimal_value, digit, digit_value, index_from, is_digit, is_space,
    law_decimal_is_read_back, parsed_decimal, skip_space, starts_with, trim_end, trimmed,
};
use crate::ty::{find_prop, printed, printed_props, printed_union, RPropView, TyView};

verus! {

// ---------------------------------------------------------------------------
// Searching and trimming
// ---------------------------------------------------------------------------

/// The first occurrence of a character is found, from where it is looked for.
pub proof fn law_first_occurrence(text: Seq<char>, c: char, from: int, at: int)
    requires
        0 <= from <= at <= text.len(),
        forall|j: int| from <= j < at ==> #[trigger] text[j] != c,
    ensures
        at < text.len() && text[at] == c ==> index_from(text, c, from) == Some(at),
        at == text.len() ==> index_from(text, c, from) is None,
    decreases at - from,
{
    if from < at {
        assert(text[from] != c);
        law_first_occurrence(text, c, from + 1, at);
    }
}

/// Whether a text is made of white space.
pub open spec fn blank(text: Seq<char>) -> bool {
    forall|i: int| 0 <= i < text.len() ==> is_space(#[trigger] text[i])
}

/// The white space characters.
pub proof fn law_white_space(c: char)
    ensures
        is_space(c) <==> seq![
            0x9u32,
            0xau32,
            0xbu32,
            0xcu32,
            0xdu32,
            0x20u32,
            0x85u32,
            0xa0u32,
            0x1680u32,
            0x2000u32,
            0x2001u32,
            0x2002u32,
            0x2003u32,
            0x2004u32,
            0x2005u32,
            0x2006u32,
            0x2007u32,
            0x2008u32,
            0x2009u32,
            0x200au32,
            0x2028u32,
            0x2029u32,
            0x202fu32,
            0x205fu32,
            0x3000u32,
        ].contains(c as u32),
{
    let all = seq![
        0x9u32,
        0xau32,
        0xbu32,
        0xcu32,
        0xdu32,
        0x20u32,
        0x85u32,
        0xa0u32,
        0x1680u32,
        0x2000u32,
        0x2001u32,
        0x2002u32,
        0x2003u32,
        0x2004u32,
        0x2005u32,
        0x2006u32,
        0x2007u32,
        0x2008u32,
        0x2009u32,
        0x200au32,
        0x2028u32,
        0x2029u32,
        0x202fu32,
        0x205fu32,
        0x3000u32,
    ];
    let v = c as u32;
    if is_space(c) {
        if v <= 0xd {
            assert(all[v - 9] == v);
        } else if v == 0x20 {
            assert(all[5] == v);
        } else if v == 0x85 {
            assert(all[6] == v);
        } else if v == 0xa0 {
            assert(all[7] == v);
        } else if v == 0x1680 {
            assert(all[8] == v);
        } else if v <= 0x200a {
            assert(all[v - 0x2000 + 9] == v);
        } else if v == 0x2028 {
            assert(all[20] == v);
        } else if v == 0x2029 {
            assert(all[21] == v);
        } else if v == 0x202f {
            assert(all[22] == v);
        } else if v == 0x205f {
            assert(all[23] == v);
        } else {
            assert(all[24] == v);
        }
    }
}

proof fn lemma_skip_blank(front: Seq<char>, rest: Seq<char>, from: int)
    requires
        blank(front),
        0 <= from <= front.len(),
        rest.len() > 0 ==> !is_space(rest[0]),
    ensures
        skip_space(front + rest, from) == front.len(),
    decreases front.len() - from,
{
    let text = front + rest;
    if from < front.len() {
        assert(text[from] == front[from]);
        assert(is_space(front[from]));
        lemma_skip_blank(front, rest, from + 1);
    } else if rest.len() > 0 {
        assert(text[from] == rest[0]);
    }
}

proof fn lemma_trim_blank(front: Seq<char>, back: Seq<char>, from: int, to: int)
    requires
        blank(back),
        0 <= from <= front.len() <= to <= front.len() + back.len(),
        from < front.len() ==> !is_space(front[front.len() - 1]),
    ensures
        trim_end(front + back, from, to) == front.len(),
    decreases to,
{
    let text = front + back;
    if to > front.len() {
        assert(text[to - 1] == back[to - 1 - front.len()]);
        assert(is_space(back[to - 1 - front.len()]));
        lemma_trim_blank(front, back, from, to - 1);
    } else if from < to {
        assert(text[to - 1] == front[to - 1]);
    }
}

/// Trimming takes the white space off both ends, and nothing else.
pub proof fn law_trimmed(front: Seq<char>, inner: Seq<char>, back: Seq<char>)
    requires
        blank(front),
        blank(back),
        inner.len() > 0,
        !is_space(inner[0]),
        !is_space(inner[inner.len() - 1]),
    ensures
        trimmed(front + inner + back) == inner,
        trimmed(front) == Seq::<char>::empty(),
{
    let text = front + inner + back;
    lemma_skip_blank(front, inner + back, 0);
    assert(text =~= front + (inner + back));
    let upto = front + inner;
    lemma_trim_blank(upto, back, front.len() as int, text.len() as int);
    assert(text.subrange(front.len() as int, upto.len() as int) =~= inner);
    lemma_skip_blank(front, Seq::empty(), 0);
    assert(front + Seq::<char>::empty() =~= front);
}

// ---------------------------------------------------------------------------
// Decimal numbers
// ---------------------------------------------------------------------------

/// Numbers are written in decimal, the most significant digit first.
pub proof fn law_decimal_digits(n: nat, k: nat)
    requires
        k < 10,
    ensures
        decimal(k) == seq!["0123456789"@[k as int]],
        n > 0 ==> decimal(10 * n + k) == decimal(n).push("0123456789"@[k as int]),
{
    reveal_strlit("0123456789");
    let d = digit(k);
    assert(d == "0123456789"@[k as int]) by {
        assert('0' as u32 == 48);
        assert(d == (48 + k) as char);
        if k == 0 {
        } else if k == 1 {
        } else if k == 2 {
        } else if k == 3 {
        } else if k == 4 {
        } else if k == 5 {
        } else if k == 6 {
        } else if k == 7 {
        } else if k == 8 {
        } else {
        }
    }
    assert((10 * n + k) / 10 == n && (10 * n + k) % 10 == k);
}

/// Every run of digits is read, leading zeros included; nothing else is, and
/// no number beyond the limit.
pub proof fn law_decimals_are_read(text: Seq<char>, k: nat, limit: nat)
    requires
        k < 10,
    ensures
        all_digits(text) && 10 * decimal_value(text) + k <= limit ==> parsed_decimal(
            text.push("0123456789"@[k as int]),
            limit,
        ) == Some(10 * decimal_value(text) + k),
        k <= limit ==> parsed_decimal(seq!["0123456789"@[k as int]], limit) == Some(k),
        (exists|i: int| 0 <= i < text.len() && !is_digit(#[trigger] text[i])) ==> parsed_decimal(
            text,
            limit,
        ) is None,
        parsed_decimal(Seq::empty(), limit) is None,
        all_digits(text) && decimal_value(text) > limit ==> parsed_decimal(text, limit) is None,
{
    law_decimal_digits(0, k);
    reveal_strlit("0123456789");
    let c = "0123456789"@[k as int];
    let longer = text.push(c);
    assert(longer.drop_last() =~= text);
    assert('0' as u32 == 48);
    assert(is_digit(c) && digit_value(c) == k) by {
        if k == 0 {
        } else if k == 1 {
        } else if k == 2 {
        } else if k == 3 {
        } else if k == 4 {
        } else if k == 5 {
        } else if k == 6 {
        } else if k == 7 {
        } else if k == 8 {
        } else {
        }
    }
    if all_digits(text) {
        assert forall|i: int| 0 <= i < longer.len() implies is_digit(#[trigger] longer[i]) by {
            if i < text.len() {
                assert(longer[i] == text[i]);
            }
        }
        assert(all_digits(longer));
        assert(decimal_value(longer) == decimal_value(text) * 10 + k);
    }
    let one = seq![c];
    assert(one.drop_last() =~= Seq::<char>::empty());
    assert(decimal_value(Seq::<char>::empty()) == 0);
    assert(decimal_value(one) == k);
    assert(all_digits(one));
}

/// Just the ten digits are digits.
pub proof fn law_digits(c: char)
    ensures
        is_digit(c) <==> "0123456789"@.contains(c),
{
    reveal_strlit("0123456789");
    let all = "0123456789"@;
    if is_digit(c) {
        let k = c as u32 - 48;
        assert(all[k] == c);
    }
}

// ---------------------------------------------------------------------------
// Numbers in scientific notation
// ---------------------------------------------------------------------------

/// Whether a text is made of digits.
pub open spec fn digits_only(text: Seq<char>) -> bool {
    forall|i: int| 0 <= i < text.len() ==> is_digit(#[trigger] text[i])
}

/// `n` zeros.
pub open spec fn noughts(n: nat) -> Seq<char> {
    Seq::new(n, |i: int| '0')
}

proof fn lemma_parts_of_number(a: Seq<char>, b: Seq<char>, tail: Seq<char>)
    requires
        digits_only(a),
        digits_only(b),
    ensures
        ({
            let m = a + seq!['.'] + b;
            let number = m + seq!['e'] + tail;
            &&& index_from(number, 'e', 0) == Some(m.len() as int)
            &&& number.take(m.len() as int) == m
            &&& number.skip(m.len() as int + 1) == tail
            &&& index_from(m, '.', 0) == Some(a.len() as int)
            &&& m.take(a.len() as int) == a
            &&& m.skip(a.len() as int + 1) == b
        }),
{
    let m = a + seq!['.'] + b;
    let number = m + seq!['e'] + tail;
    assert forall|j: int| 0 <= j < m.len() implies #[trigger] number[j] != 'e' by {
        assert(number[j] == m[j]);
        if j < a.len() {
            assert(m[j] == a[j]);
            assert(is_digit(a[j]));
        } else if j > a.len() {
            assert(m[j] == b[j - a.len() - 1]);
            assert(is_digit(b[j - a.len() - 1]));
        }
    }
    assert(number[m.len() as int] == 'e');
    law_first_occurrence(number, 'e', 0, m.len() as int);
    assert(number.take(m.len() as int) =~= m);
    assert(number.skip(m.len() as int + 1) =~= tail);
    assert forall|j: int| 0 <= j < a.len() implies #[trigger] m[j] != '.' by {
        assert(m[j] == a[j]);
        assert(is_digit(a[j]));
    }
    law_first_occurrence(m, '.', 0, a.len() as int);
    assert(m.take(a.len() as int) =~= a);
    assert(m.skip(a.len() as int + 1) =~= b);
}

/// A positive exponent moves the decimal point to the right, past the digits
/// behind it, and further on by zeros; beyond the largest numbers lies infinity.
pub proof fn law_positive_exponents(a: Seq<char>, b: Seq<char>, n: nat)
    requires
        digits_only(a),
        digits_only(b),
        a.len() > 0,
    ensures
        ({
            let number = a + seq!['.'] + b + seq!['e'] + seq!['+'] + decimal(n);
            &&& n < 400 && n >= b.len() ==> written_out(number) == a + b + noughts(
                (n - b.len()) as nat,
            )
            &&& n < 400 && n < b.len() ==> written_out(number) == a + b.take(n as int) + seq!['.']
                + b.skip(n as int)
            &&& n >= 400 ==> written_out(number) == "inf"@
        }),
{
    let tail = seq!['+'] + decimal(n);
    let number = a + seq!['.'] + b + seq!['e'] + seq!['+'] + decimal(n);
    assert(number =~= a + seq!['.'] + b + seq!['e'] + tail);
    lemma_parts_of_number(a, b, tail);
    reveal_strlit("+");
    reveal_strlit("-");
    reveal_strlit(".");
    assert("+"@ =~= seq!['+']);
    assert(tail.subrange(0, 1) =~= "+"@);
    assert(!starts_with(tail, "-"@)) by {
        if starts_with(tail, "-"@) {
            assert(tail.subrange(0, 1)[0] == tail[0]);
        }
    }
    assert(tail.skip(1) =~= decimal(n));
    law_decimal_is_read_back(n, n);
    assert(all_digits(decimal(n)) && decimal_value(decimal(n)) == n);
    let digits = a + b;
    if n < 400 {
        let point = a.len() + n;
        if n >= b.len() {
            assert(zeros(point - digits.len()) =~= noughts((n - b.len()) as nat));
        } else {
            assert(digits.take(point as int) =~= a + b.take(n as int));
            assert(digits.skip(point as int) =~= b.skip(n as int));
            assert("."@ =~= seq!['.']);
        }
    }
}

/// A negative exponent moves the decimal point to the left, and further on by
/// zeros; beyond the smallest numbers lies zero.
pub proof fn law_negative_exponents(a: Seq<char>, b: Seq<char>, n: nat)
    requires
        digits_only(a),
        digits_only(b),
        a.len() > 0,
    ensures
        ({
            let number = a + seq!['.'] + b + seq!['e'] + seq!['-'] + decimal(n);
            &&& n < 400 && n >= a.len() ==> written_out(number) == seq!['0', '.'] + noughts(
                (n - a.len()) as nat,
            ) + a + b
            &&& n < 400 && n < a.len() && b.len() + n > 0 ==> written_out(number) == a.take(
                a.len() - n,
            ) + seq!['.'] + a.skip(a.len() - n) + b
            &&& n >= 400 ==> written_out(number) == seq!['0']
        }),
{
    let tail = seq!['-'] + decimal(n);
    let number = a + seq!['.'] + b + seq!['e'] + seq!['-'] + decimal(n);
    assert(number =~= a + seq!['.'] + b + seq!['e'] + tail);
    lemma_parts_of_number(a, b, tail);
    reveal_strlit("-");
    reveal_strlit(".");
    reveal_strlit("0.");
    reveal_strlit("0");
    assert("0."@ =~= seq!['0', '.']);
    assert("0"@ =~= seq!['0']);
    assert("."@ =~= seq!['.']);
    assert(tail.subrange(0, 1) =~= "-"@);
    assert(tail.skip(1) =~= decimal(n));
    law_decimal_is_read_back(n, n);
    assert(all_digits(decimal(n)) && decimal_value(decimal(n)) == n);
    let digits = a + b;
    if n < 400 {
        let point = a.len() - n;
        if n >= a.len() {
            assert(zeros(-point) =~= noughts((n - a.len()) as nat));
            assert(seq!['0', '.'] + noughts((n - a.len()) as nat) + digits =~= seq!['0', '.']
                + noughts((n - a.len()) as nat) + a + b);
        } else if b.len() + n > 0 {
            assert(digits.take(point) =~= a.take(point));
            assert(a.take(point) + seq!['.'] + digits.skip(point) =~= a.take(point) + seq!['.']
                + a.skip(point) + b);
        }
    }
}

/// A number without a decimal point has it behind its digits.
pub proof fn law_whole_mantissas(a: Seq<char>, n: nat)
    requires
        digits_only(a),
        a.len() > 0,
        n < 400,
    ensures
        written_out(a + seq!['e'] + seq!['+'] + decimal(n)) == a + noughts(n),
        written_out(a + seq!['e'] + decimal(n)) == a + noughts(n),
        n >= a.len() ==> written_out(a + seq!['e'] + seq!['-'] + decimal(n)) == seq!['0', '.']
            + noughts((n - a.len()) as nat) + a,
{
    reveal_strlit("+");
    reveal_strlit("-");
    reveal_strlit("0.");
    assert("0."@ =~= seq!['0', '.']);
    assert forall|tail: Seq<char>| #[trigger]
        index_from(a + seq!['e'] + tail, 'e', 0) == Some(a.len() as int) by {
        let number = a + seq!['e'] + tail;
        assert forall|j: int| 0 <= j < a.len() implies #[trigger] number[j] != 'e' by {
            assert(number[j] == a[j]);
            assert(is_digit(a[j]));
        }
        assert(number[a.len() as int] == 'e');
        law_first_occurrence(number, 'e', 0, a.len() as int);
    }
    assert forall|j: int| 0 <= j < a.len() implies #[trigger] a[j] != '.' by {
        assert(is_digit(a[j]));
    }
    law_first_occurrence(a, '.', 0, a.len() as int);
    law_decimal_is_read_back(n, n);
    let d = decimal(n);
    assert(all_digits(d) && decimal_value(d) == n);
    assert(is_digit(d[0]));
    assert(zeros(n as int) =~= noughts(n));
    let plus = seq!['+'] + d;
    let minus = seq!['-'] + d;
    assert(a + seq!['e'] + seq!['+'] + d =~= a + seq!['e'] + plus);
    assert(a + seq!['e'] + seq!['-'] + d =~= a + seq!['e'] + minus);
    assert(plus.subrange(0, 1) =~= "+"@);
    assert(minus.subrange(0, 1) =~= "-"@);
    assert(plus.skip(1) =~= d);
    assert(minus.skip(1) =~= d);
    assert((a + seq!['e'] + plus).take(a.len() as int) =~= a);
    assert((a + seq!['e'] + minus).take(a.len() as int) =~= a);
    assert((a + seq!['e'] + d).take(a.len() as int) =~= a);
    assert((a + seq!['e'] + plus).skip(a.len() as int + 1) =~= plus);
    assert((a + seq!['e'] + minus).skip(a.len() as int + 1) =~= minus);
    assert((a + seq!['e'] + d).skip(a.len() as int + 1) =~= d);
    assert(!starts_with(plus, "-"@)) by {
        if starts_with(plus, "-"@) {
            assert(plus.subrange(0, 1)[0] == plus[0]);
        }
    }
    assert(!starts_with(d, "-"@) && !starts_with(d, "+"@)) by {
        if starts_with(d, "-"@) || starts_with(d, "+"@) {
            assert(d.subrange(0, 1)[0] == d[0]);
        }
    }
    if n >= a.len() {
        assert(zeros(n - a.len()) =~= noughts((n - a.len()) as nat));
    }
}

/// A number that is written out already stays as it is.
pub proof fn law_plain_numbers_stay(number: Seq<char>)
    requires
        !number.contains('e'),
    ensures
        written_out(number) == number,
{
    assert forall|j: int| 0 <= j < number.len() implies #[trigger] number[j] != 'e' by {
        assert(number.contains(number[j]));
    }
    law_first_occurrence(number, 'e', 0, number.len() as int);
}

// ---------------------------------------------------------------------------
// Positions
// ---------------------------------------------------------------------------

proof fn lemma_bytes_of(text: Seq<char>)
    ensures
        text.len() > 0 ==> byte_len(text) == width(text[0]) + byte_len(text.drop_first()),
    decreases text.len(),
{
    if text.len() == 1 {
        assert(text.drop_last() =~= Seq::<char>::empty());
        assert(text.drop_first() =~= Seq::<char>::empty());
        assert(byte_len(Seq::<char>::empty()) == 0);
    } else if text.len() > 1 {
        lemma_bytes_of(text.drop_last());
        assert(text.drop_last().drop_first() =~= text.drop_first().drop_last());
    }
}

proof fn lemma_width(c: char)
    ensures
        encode_scalar(c as u32).len() == width(c),
{
    vstd::utf8::char_is_scalar(c);
}

/// A text is as many bytes long as its UTF-8 encoding.
pub proof fn law_byte_length(text: Seq<char>)
    ensures
        byte_len(text) == encode_utf8(text).len(),
    decreases text.len(),
{
    if text.len() > 0 {
        law_byte_length(text.drop_first());
        lemma_bytes_of(text);
        lemma_width(text[0]);
    }
}

proof fn lemma_bytes_grow(text: Seq<char>, i: int, j: int)
    requires
        0 <= i <= j <= text.len(),
    ensures
        byte_len(text.take(i)) <= byte_len(text.take(j)),
        i < j ==> byte_len(text.take(i)) < byte_len(text.take(j)),
    decreases j - i,
{
    if i < j {
        lemma_bytes_grow(text, i, j - 1);
        assert(text.take(j).drop_last() =~= text.take(j - 1));
    }
}

/// A character is found at its byte offset.
pub proof fn law_characters_are_found(text: Seq<char>, i: int)
    requires
        0 <= i <= text.len(),
    ensures
        index_at(text, encode_utf8(text.take(i)).len()) == i,
    decreases text.len(),
{
    law_byte_length(text.take(i));
    lemma_found(text, i);
}

proof fn lemma_found(text: Seq<char>, i: int)
    requires
        0 <= i <= text.len(),
    ensures
        index_at(text, byte_len(text.take(i))) == i,
    decreases text.len(),
{
    if text.len() > 0 {
        let front = text.drop_last();
        assert(front =~= text.take(text.len() - 1));
        if i == text.len() {
            lemma_bytes_grow(text, text.len() - 1, i);
        } else {
            lemma_bytes_grow(text, i, text.len() - 1);
            lemma_found(front, i);
            assert(front.take(i) =~= text.take(i));
        }
    }
}

/// The text between the byte offsets of two characters is what stands between
/// them.
pub proof fn law_spans(text: Seq<char>, i: int, j: int)
    requires
        0 <= i <= j <= text.len(),
    ensures
        text_of_span(text, encode_utf8(text.take(i)).len(), encode_utf8(text.take(j)).len())
            == text.subrange(i, j),
{
    law_characters_are_found(text, i);
    law_characters_are_found(text, j);
}

/// Lines are counted from one, and a line break starts the next line.
pub proof fn law_lines(text: Seq<char>, i: int)
    requires
        0 <= i < text.len() < u32::MAX,
    ensures
        line_at(text, 0) == 1,
        ({
            let here = line_at(text, encode_utf8(text.take(i)).len());
            let next = line_at(text, encode_utf8(text.take(i + 1)).len());
            next == if text[i] == '\n' {
                here + 1
            } else {
                here as int
            }
        }),
{
    law_characters_are_found(text, i);
    law_characters_are_found(text, i + 1);
    lemma_found(text, 0);
    assert(text.take(0) =~= Seq::<char>::empty());
    assert(byte_len(Seq::<char>::empty()) == 0);
    assert(break_count(Seq::<char>::empty()) == 0);
    assert(text.take(i + 1).drop_last() =~= text.take(i));
    lemma_breaks_bounded(text.take(i));
    lemma_breaks_bounded(text.take(i + 1));
}

proof fn lemma_breaks_bounded(text: Seq<char>)
    ensures
        break_count(text) <= text.len(),
    decreases text.len(),
{
    if text.len() > 0 {
        lemma_breaks_bounded(text.drop_last());
    }
}

// ---------------------------------------------------------------------------
// JSON with comments
// ---------------------------------------------------------------------------

proof fn lemma_line_end_behind(front: Seq<char>, text: Seq<char>, from: int)
    requires
        0 <= from <= text.len(),
    ensures
        line_end(front + text, front.len() + from) == front.len() + line_end(text, from),
        from <= line_end(text, from) <= text.len(),
    decreases text.len() - from,
{
    if from < text.len() {
        assert((front + text)[front.len() + from] == text[from]);
        if text[from] != '\n' {
            lemma_line_end_behind(front, text, from + 1);
        }
    }
}

proof fn lemma_comment_end_behind(front: Seq<char>, text: Seq<char>, from: int)
    requires
        0 <= from <= text.len(),
    ensures
        comment_end(front + text, front.len() + from) == front.len() + comment_end(text, from),
        from <= comment_end(text, from) <= text.len(),
    decreases text.len() - from,
{
    if from + 1 < text.len() {
        assert((front + text)[front.len() + from] == text[from]);
        assert((front + text)[front.len() + from + 1] == text[from + 1]);
        if !(text[from] == '*' && text[from + 1] == '/') {
            lemma_comment_end_behind(front, text, from + 1);
        }
    }
}

/// What stands before a position plays no part in what follows it.
proof fn lemma_uncommented_behind(front: Seq<char>, text: Seq<char>, i: int, in_str: bool)
    requires
        0 <= i <= text.len(),
    ensures
        uncommented(front + text, front.len() + i, in_str) == uncommented(text, i, in_str),
    decreases text.len() - i,
{
    let whole = front + text;
    if i < text.len() {
        assert(whole[front.len() + i] == text[i]);
        if i + 1 < text.len() {
            assert(whole[front.len() + i + 1] == text[i + 1]);
        }
        if in_str {
            if text[i] == '\\' && i + 1 < text.len() {
                lemma_uncommented_behind(front, text, i + 2, true);
            } else {
                lemma_uncommented_behind(front, text, i + 1, text[i] != '"');
            }
        } else if text[i] == '"' {
            lemma_uncommented_behind(front, text, i + 1, true);
        } else if text[i] == '/' && i + 1 < text.len() && text[i + 1] == '/' {
            lemma_line_end_behind(front, text, i);
            lemma_line_end_behind(front, text, i + 1);
            lemma_uncommented_behind(front, text, line_end(text, i), false);
        } else if text[i] == '/' && i + 1 < text.len() && text[i + 1] == '*' {
            lemma_comment_end_behind(front, text, i + 2);
            lemma_uncommented_behind(front, text, comment_end(text, i + 2), false);
        } else {
            lemma_uncommented_behind(front, text, i + 1, false);
        }
    }
}

/// Outside of strings and comments everything stays as it is.
pub proof fn law_code_is_kept(front: Seq<char>, rest: Seq<char>)
    requires
        forall|i: int| 0 <= i < front.len() ==> #[trigger] front[i] != '/' && front[i] != '"',
    ensures
        uncommented(front + rest, 0, false) == front + uncommented(rest, 0, false),
    decreases front.len(),
{
    if front.len() > 0 {
        let c = front[0];
        let tail = front.drop_first();
        let whole = front + rest;
        assert(whole =~= seq![c] + (tail + rest));
        assert forall|i: int| 0 <= i < tail.len() implies #[trigger] tail[i] != '/' && tail[i]
            != '"' by {
            assert(tail[i] == front[i + 1]);
        }
        law_code_is_kept(tail, rest);
        lemma_uncommented_behind(seq![c], tail + rest, 0, false);
        assert(whole[0] == c);
        assert(uncommented(whole, 0, false) == seq![c] + uncommented(whole, 1, false));
        assert(seq![c] + (tail + uncommented(rest, 0, false)) =~= front + uncommented(
            rest,
            0,
            false,
        ));
    } else {
        assert(front + rest =~= rest);
        assert(front + uncommented(rest, 0, false) =~= uncommented(rest, 0, false));
    }
}

proof fn lemma_line_end_found(text: Seq<char>, from: int, at: int)
    requires
        0 <= from <= at <= text.len(),
        forall|j: int| from <= j < at ==> #[trigger] text[j] != '\n',
        at < text.len() ==> text[at] == '\n',
    ensures
        line_end(text, from) == at,
    decreases at - from,
{
    if from < at {
        assert(text[from] != '\n');
        lemma_line_end_found(text, from + 1, at);
    }
}

/// A comment to the end of the line is left out; its line break stays.
pub proof fn law_line_comments_are_dropped(comment: Seq<char>, rest: Seq<char>)
    requires
        !comment.contains('\n'),
        rest.len() > 0 ==> rest[0] == '\n',
    ensures
        uncommented(seq!['/', '/'] + comment + rest, 0, false) == uncommented(rest, 0, false),
{
    let front = seq!['/', '/'] + comment;
    let text = front + rest;
    assert forall|j: int| 0 <= j < front.len() implies #[trigger] text[j] != '\n' by {
        if j >= 2 {
            assert(text[j] == comment[j - 2]);
            assert(comment.contains(comment[j - 2]));
        }
    }
    if rest.len() > 0 {
        assert(text[front.len() as int] == rest[0]);
    }
    lemma_line_end_found(text, 0, front.len() as int);
    lemma_uncommented_behind(front, rest, 0, false);
    assert(text[0] == '/' && text[1] == '/');
}

proof fn lemma_comment_end_found(text: Seq<char>, from: int, at: int)
    requires
        0 <= from <= at,
        at + 1 < text.len(),
        text[at] == '*',
        text[at + 1] == '/',
        forall|j: int| from <= j < at ==> !(#[trigger] text[j] == '*' && text[j + 1] == '/'),
    ensures
        comment_end(text, from) == at + 2,
    decreases at - from,
{
    if from < at {
        assert(!(text[from] == '*' && text[from + 1] == '/'));
        lemma_comment_end_found(text, from + 1, at);
    }
}

/// A comment between `/*` and `*/` is left out, whatever it holds.
pub proof fn law_block_comments_are_dropped(comment: Seq<char>, rest: Seq<char>)
    requires
        forall|j: int|
            0 <= j < comment.len() - 1 ==> !(#[trigger] comment[j] == '*' && comment[j + 1]
                == '/'),
    ensures
        uncommented(seq!['/', '*'] + comment + seq!['*', '/'] + rest, 0, false) == uncommented(
            rest,
            0,
            false,
        ),
{
    let front = seq!['/', '*'] + comment + seq!['*', '/'];
    let text = front + rest;
    let at = 2 + comment.len() as int;
    assert(text[at] == '*' && text[at + 1] == '/');
    assert forall|j: int| 2 <= j < at implies !(#[trigger] text[j] == '*' && text[j + 1]
        == '/') by {
        assert(text[j] == comment[j - 2]);
        if j + 1 < at {
            assert(text[j + 1] == comment[j - 1]);
        }
    }
    lemma_comment_end_found(text, 2, at);
    lemma_uncommented_behind(front, rest, 0, false);
    assert(text[0] == '/' && text[1] == '*');
}

/// In a string nothing is a comment: it stays as it is, up to its end.
pub proof fn law_strings_are_kept(inner: Seq<char>, rest: Seq<char>)
    requires
        forall|i: int| 0 <= i < inner.len() ==> #[trigger] inner[i] != '"' && inner[i] != '\\',
    ensures
        uncommented(seq!['"'] + inner + seq!['"'] + rest, 0, false) == seq!['"'] + inner + seq![
            '"',
        ] + uncommented(rest, 0, false),
{
    let tail = inner + seq!['"'] + rest;
    let text = seq!['"'] + inner + seq!['"'] + rest;
    assert(text =~= seq!['"'] + tail);
    lemma_uncommented_behind(seq!['"'], tail, 0, true);
    assert(text[0] == '"');
    lemma_string_kept(inner, rest);
    assert(seq!['"'] + (inner + seq!['"'] + uncommented(rest, 0, false)) =~= seq!['"'] + inner
        + seq!['"'] + uncommented(rest, 0, false));
}

proof fn lemma_string_kept(inner: Seq<char>, rest: Seq<char>)
    requires
        forall|i: int| 0 <= i < inner.len() ==> #[trigger] inner[i] != '"' && inner[i] != '\\',
    ensures
        uncommented(inner + seq!['"'] + rest, 0, true) == inner + seq!['"'] + uncommented(
            rest,
            0,
            false,
        ),
    decreases inner.len(),
{
    let text = inner + seq!['"'] + rest;
    if inner.len() == 0 {
        assert(text =~= seq!['"'] + rest);
        lemma_uncommented_behind(seq!['"'], rest, 0, false);
        assert(text[0] == '"');
        assert(inner + seq!['"'] + uncommented(rest, 0, false) =~= seq!['"'] + uncommented(
            rest,
            0,
            false,
        ));
    } else {
        let c = inner[0];
        let tail = inner.drop_first();
        assert forall|i: int| 0 <= i < tail.len() implies #[trigger] tail[i] != '"' && tail[i]
            != '\\' by {
            assert(tail[i] == inner[i + 1]);
        }
        lemma_string_kept(tail, rest);
        assert(text =~= seq![c] + (tail + seq!['"'] + rest));
        lemma_uncommented_behind(seq![c], tail + seq!['"'] + rest, 0, true);
        assert(text[0] == c);
        assert(seq![c] + (tail + seq!['"'] + uncommented(rest, 0, false)) =~= inner + seq!['"']
            + uncommented(rest, 0, false));
    }
}

/// An escape in a string stays, and does not end the string.
pub proof fn law_escapes_are_kept(c: char, rest: Seq<char>)
    ensures
        uncommented(seq!['\\', c] + rest, 0, true) == seq!['\\', c] + uncommented(rest, 0, true),
{
    lemma_uncommented_behind(seq!['\\', c], rest, 0, true);
    let text = seq!['\\', c] + rest;
    assert(text[0] == '\\' && text[1] == c);
}

/// A comma with nothing but white space before a closing bracket is left out;
/// every other character stays.
pub proof fn law_trailing_commas_are_dropped(text: Seq<char>, i: int, j: int)
    requires
        0 <= i < j <= text.len(),
        forall|k: int| i < k < j ==> is_space(#[trigger] text[k]),
        j < text.len() ==> !is_space(text[j]),
    ensures
        ({
            let before = without_trailing_commas(text, i);
            let after = without_trailing_commas(text, i + 1);
            if text[i] == ',' && j < text.len() && (text[j] == '}' || text[j] == ']') {
                after == before
            } else {
                after == before.push(text[i])
            }
        }),
        without_trailing_commas(text, 0) == Seq::<char>::empty(),
{
    lemma_skip_to(text, i + 1, j);
}

proof fn lemma_skip_to(text: Seq<char>, from: int, to: int)
    requires
        0 <= from <= to <= text.len(),
        forall|k: int| from <= k < to ==> is_space(#[trigger] text[k]),
        to < text.len() ==> !is_space(text[to]),
    ensures
        skip_space(text, from) == to,
    decreases to - from,
{
    if from < to {
        assert(is_space(text[from]));
        lemma_skip_to(text, from + 1, to);
    }
}

proof fn lemma_no_commas(text: Seq<char>, n: int)
    requires
        0 <= n <= text.len(),
        forall|i: int| 0 <= i < n ==> #[trigger] text[i] != ',',
    ensures
        without_trailing_commas(text, n) == text.take(n),
    decreases n,
{
    if n > 0 {
        lemma_no_commas(text, n - 1);
        assert(text[n - 1] != ',');
        assert(text.take(n) =~= text.take(n - 1).push(text[n - 1]));
    } else {
        assert(text.take(0) =~= Seq::<char>::empty());
    }
}

/// A comma before a closing bracket is left out though a comment stands
/// between them.
pub proof fn law_comments_hide_no_commas(front: Seq<char>, comment: Seq<char>, close: char)
    requires
        forall|i: int|
            0 <= i < front.len() ==> #[trigger] front[i] != '/' && front[i] != '"' && front[i]
                != ',',
        forall|j: int|
            0 <= j < comment.len() - 1 ==> !(#[trigger] comment[j] == '*' && comment[j + 1]
                == '/'),
        close == '}' || close == ']',
    ensures
        plain_json(
            front + seq![','] + (seq!['/', '*'] + comment + seq!['*', '/'] + seq![close]),
        ) == front + seq![close],
{
    let end = seq![close];
    let behind = seq!['/', '*'] + comment + seq!['*', '/'] + end;
    let code = front + seq![','];
    assert forall|i: int| 0 <= i < code.len() implies #[trigger] code[i] != '/' && code[i]
        != '"' by {
        if i < front.len() {
            assert(code[i] == front[i]);
        }
    }
    law_code_is_kept(code, behind);
    law_block_comments_are_dropped(comment, end);
    let none = Seq::<char>::empty();
    law_code_is_kept(end, none);
    assert(end + none =~= end);
    assert(uncommented(none, 0, false) =~= none);
    let bare = code + end;
    assert(uncommented(code + behind, 0, false) == bare);
    let n = front.len() as int;
    assert forall|i: int| 0 <= i < n implies #[trigger] bare[i] != ',' by {
        assert(bare[i] == front[i]);
    }
    lemma_no_commas(bare, n);
    assert(bare.take(n) =~= front);
    assert(bare[n] == ',' && bare[n + 1] == close);
    assert(!is_space(close));
    law_trailing_commas_are_dropped(bare, n, n + 1);
    law_trailing_commas_are_dropped(bare, n + 1, n + 2);
    assert(front.push(close) =~= front + end);
}

// ---------------------------------------------------------------------------
// Surrogates
// ---------------------------------------------------------------------------

/// Whether four hexadecimal digits name a surrogate.
pub open spec fn names_surrogate(h: Seq<char>) -> bool {
    &&& h.len() == 4
    &&& h[0] == 'd' || h[0] == 'D'
    &&& "89abcdefABCDEF"@.contains(h[1])
}

proof fn lemma_names_surrogate(h: Seq<char>)
    requires
        names_surrogate(h),
    ensures
        surrogate_digit(h[1]),
        h[1] != '"',
{
    reveal_strlit("89abcdefABCDEF");
    let all = "89abcdefABCDEF"@;
    let k = choose|k: int| 0 <= k < all.len() && all[k] == h[1];
    assert(all.len() == 14);
    if k == 0 {
    } else if k == 1 {
    } else if k == 2 {
    } else if k == 3 {
    } else if k == 4 {
    } else if k == 5 {
    } else if k == 6 {
    } else if k == 7 {
    } else if k == 8 {
    } else if k == 9 {
    } else if k == 10 {
    } else if k == 11 {
    } else if k == 12 {
    } else {
    }
}

/// Whether a text is an ordinary inside of a string.
pub open spec fn ordinary(text: Seq<char>) -> bool {
    forall|i: int|
        0 <= i < text.len() ==> #[trigger] text[i] != '"' && text[i] != '\\' && text[i]
            != '\u{FFFD}'
}

proof fn lemma_holds_behind(inner: Seq<char>, h: Seq<char>, rest: Seq<char>, i: int)
    requires
        ordinary(inner),
        names_surrogate(h),
        0 <= i <= inner.len(),
    ensures
        holds_surrogate(
            seq!['"'] + inner + seq!['\\', 'u'] + h + seq!['"'] + rest,
            1 + i,
        ),
    decreases inner.len() - i,
{
    let text = seq!['"'] + inner + seq!['\\', 'u'] + h + seq!['"'] + rest;
    lemma_names_surrogate(h);
    if i < inner.len() {
        assert(text[1 + i] == inner[i]);
        lemma_holds_behind(inner, h, rest, i + 1);
    } else {
        assert(text[1 + i] == '\\' && text[2 + i] == 'u' && text[3 + i] == h[0] && text[4 + i]
            == h[1]);
    }
}

proof fn lemma_mended_inside(inner: Seq<char>, h: Seq<char>, rest: Seq<char>, i: int)
    requires
        ordinary(inner),
        names_surrogate(h),
        0 <= i <= inner.len(),
    ensures
        ({
            let text = seq!['"'] + inner + seq!['\\', 'u'] + h + seq!['"'] + rest;
            mended(text, 1 + i, true, true) == inner.skip(i) + seq!['\u{FFFD}'] + h + seq!['"']
                + mended(text, inner.len() as int + 8, false, false)
        }),
    decreases inner.len() - i,
{
    let text = seq!['"'] + inner + seq!['\\', 'u'] + h + seq!['"'] + rest;
    let n = inner.len() as int;
    let end = mended(text, n + 8, false, false);
    lemma_names_surrogate(h);
    if i < n {
        assert(text[1 + i] == inner[i]);
        lemma_mended_inside(inner, h, rest, i + 1);
        assert(seq![inner[i]] + (inner.skip(i + 1) + seq!['\u{FFFD}'] + h + seq!['"'] + end)
            =~= inner.skip(i) + seq!['\u{FFFD}'] + h + seq!['"'] + end);
    } else {
        assert(text[1 + n] == '\\' && text[2 + n] == 'u' && text[3 + n] == h[0] && text[4 + n]
            == h[1]);
        assert(surrogate_at(text, 1 + n));
        assert(text.subrange(n + 3, n + 7) =~= h);
        assert(text[n + 7] == '"');
        assert(mended(text, n + 7, true, true) == seq!['"'] + end);
        assert(seq!['\u{FFFD}'] + h + (seq!['"'] + end) =~= inner.skip(n) + seq!['\u{FFFD}'] + h
            + seq!['"'] + end);
    }
}

/// A surrogate in a string becomes a replacement character with the digits
/// that named the surrogate behind it.
pub proof fn law_surrogates_are_replaced(inner: Seq<char>, h: Seq<char>)
    requires
        ordinary(inner),
        names_surrogate(h),
    ensures
        without_surrogates(seq!['"'] + inner + seq!['\\', 'u'] + h + seq!['"']) == seq!['"']
            + inner + seq!['\u{FFFD}'] + h + seq!['"'],
{
    let none = Seq::<char>::empty();
    let text = seq!['"'] + inner + seq!['\\', 'u'] + h + seq!['"'];
    assert(text =~= seq!['"'] + inner + seq!['\\', 'u'] + h + seq!['"'] + none);
    lemma_holds_behind(inner, h, none, 0);
    lemma_mended_inside(inner, h, none, 0);
    assert(mended(text, text.len() as int, false, false) =~= none);
    assert(text[0] == '"');
    assert(inner.skip(0) =~= inner);
    assert(seq!['"'] + (inner + seq!['\u{FFFD}'] + h + seq!['"'] + none) =~= seq!['"'] + inner
        + seq!['\u{FFFD}'] + h + seq!['"']);
}

/// In a string that holds a surrogate, a replacement character of its own is
/// marked by its digits; elsewhere it stays.
pub proof fn law_replacement_characters_are_marked(rest: Seq<char>)
    ensures
        ({
            let text = seq!['\u{FFFD}'] + rest;
            &&& mended(text, 0, true, true) == seq!['\u{FFFD}', 'f', 'f', 'f', 'd'] + mended(
                text,
                1,
                true,
                true,
            )
            &&& mended(text, 0, true, false) == seq!['\u{FFFD}'] + mended(text, 1, true, false)
            &&& mended(text, 0, false, false) == seq!['\u{FFFD}'] + mended(text, 1, false, false)
        }),
{
    let text = seq!['\u{FFFD}'] + rest;
    assert(text[0] == '\u{FFFD}');
}

// ---------------------------------------------------------------------------
// Types as texts
// ---------------------------------------------------------------------------

/// The texts of types: literals in quotes, keywords, enum members behind their
/// enum.
pub proof fn law_printed_types(s: Seq<char>, e: Seq<char>)
    ensures
        printed(TyView::StrLit(s)) == seq!['"'] + s + seq!['"'],
        printed(TyView::NumLit(s)) == s,
        printed(TyView::Opaque(s)) == s,
        printed(TyView::EnumLit { enum_name: e, member: s }) == e + seq!['.'] + s,
        printed(TyView::BoolLit(true)) == seq!['t', 'r', 'u', 'e'],
        printed(TyView::BoolLit(false)) == seq!['f', 'a', 'l', 's', 'e'],
        printed(TyView::Str) == seq!['s', 't', 'r', 'i', 'n', 'g'],
        printed(TyView::Num) == seq!['n', 'u', 'm', 'b', 'e', 'r'],
        printed(TyView::Bool) == seq!['b', 'o', 'o', 'l', 'e', 'a', 'n'],
        printed(TyView::Undefined) == seq!['u', 'n', 'd', 'e', 'f', 'i', 'n', 'e', 'd'],
        printed(TyView::Null) == seq!['n', 'u', 'l', 'l'],
        printed(TyView::AnyLike) == seq!['a', 'n', 'y'],
{
    reveal_strlit("\"");
    reveal_strlit(".");
    reveal_strlit("true");
    reveal_strlit("false");
    reveal_strlit("string");
    reveal_strlit("number");
    reveal_strlit("boolean");
    reveal_strlit("undefined");
    reveal_strlit("null");
    reveal_strlit("any");
    assert("\""@ =~= seq!['"']);
    assert("."@ =~= seq!['.']);
}

/// A union is written with a bar between its constituents, in their order.
pub proof fn law_printed_unions(parts: Seq<TyView>, t: TyView)
    ensures
        printed(TyView::Union(seq![t])) == printed(t),
        parts.len() > 0 ==> printed(TyView::Union(parts.push(t))) == printed(
            TyView::Union(parts),
        ) + seq![' ', '|', ' '] + printed(t),
{
    reveal_strlit(" | ");
    assert(" | "@ =~= seq![' ', '|', ' ']);
    let one = seq![t];
    assert(printed_union(one) == printed(one[0]));
    let more = parts.push(t);
    assert(more.drop_last() =~= parts);
    assert(more[more.len() - 1] == t);
}

/// An object type is written between braces, each property with a question
/// mark if it may be left out, its type and a semicolon behind it.
pub proof fn law_printed_objects(props: Seq<RPropView>, p: RPropView)
    ensures
        printed(TyView::Object(Seq::empty())) == seq!['{', ' ', '}'],
        printed(TyView::Object(props.push(p))) == printed(TyView::Object(props)).drop_last()
            + p.name + (if p.optional {
            seq!['?']
        } else {
            Seq::<char>::empty()
        }) + seq![':', ' '] + printed(p.ty) + seq![';', ' '] + seq!['}'],
{
    reveal_strlit("{ ");
    reveal_strlit("}");
    reveal_strlit("?");
    reveal_strlit(": ");
    reveal_strlit("; ");
    assert(": "@ =~= seq![':', ' ']);
    assert("; "@ =~= seq![';', ' ']);
    assert("?"@ =~= seq!['?']);
    assert("}"@ =~= seq!['}']);
    assert(printed_props(Seq::<RPropView>::empty()) =~= Seq::<char>::empty());
    assert("{ "@ + Seq::<char>::empty() + "}"@ =~= seq!['{', ' ', '}']);
    let more = props.push(p);
    assert(more.drop_last() =~= props);
    assert(more[more.len() - 1] == p);
    let before = "{ "@ + printed_props(props);
    assert(printed(TyView::Object(props)) == before + "}"@);
    assert((before + "}"@).drop_last() =~= before);
    let mark = if p.optional {
        "?"@
    } else {
        Seq::<char>::empty()
    };
    assert(printed(TyView::Object(more)) =~= before + p.name + mark + ": "@ + printed(p.ty)
        + "; "@ + "}"@);
}

/// The first property of a name counts.
pub proof fn law_first_property(props: Seq<RPropView>, i: int)
    requires
        0 <= i < props.len(),
        forall|j: int| 0 <= j < i ==> (#[trigger] props[j]).name != props[i].name,
    ensures
        find_prop(props, props[i].name) == Some(props[i]),
    decreases i,
{
    if i > 0 {
        assert(props[0].name != props[i].name);
        let rest = props.drop_first();
        assert(rest[i - 1] == props[i]);
        assert forall|j: int| 0 <= j < i - 1 implies (#[trigger] rest[j]).name
            != rest[i - 1].name by {
            assert(rest[j] == props[j + 1]);
        }
        law_first_property(rest, i - 1);
    }
}

} // verus!

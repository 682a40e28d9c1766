//! Numbers as texts: the digits of a number with its decimal point in place.

use vstd::prelude::*;
use vstd::string::*;

use crate::text::{
    chars_of, find_char, has_prefix, index_from, parsed_decimal, read_decimal, starts_with,
    text_between,
};

verus! {

/// The largest exponent that is written out. No double-precision number needs
/// a larger one; infinity is written with one.
pub const EXPONENT_LIMIT: u64 = 399;

pub open spec fn zeros(n: int) -> Seq<char> {
    Seq::new(
        if n < 0 {
            0
        } else {
            n as nat
        },
        |i: int| '0',
    )
}

/// The number of digits in front of the decimal point.
pub open spec fn whole_digits(mantissa: Seq<char>) -> int {
    match index_from(mantissa, '.', 0) {
        Some(k) => k,
        None => mantissa.len() as int,
    }
}

/// The digits without the decimal point.
pub open spec fn all_digits_of(mantissa: Seq<char>) -> Seq<char> {
    match index_from(mantissa, '.', 0) {
        Some(k) => mantissa.take(k) + mantissa.skip(k + 1),
        None => mantissa,
    }
}

/// The digits with the decimal point behind the first `point` of them, which
/// may lie before or behind all of them.
pub open spec fn pointed(digits: Seq<char>, point: int) -> Seq<char> {
    if point <= 0 {
        "0."@ + zeros(-point) + digits
    } else if point >= digits.len() {
        digits + zeros(point - digits.len())
    } else {
        digits.take(point) + "."@ + digits.skip(point)
    }
}

/// A number in scientific notation written out; one without an exponent stays
/// as it is. An exponent beyond the limit leads to infinity or to zero.
pub open spec fn written_out(number: Seq<char>) -> Seq<char> {
    match index_from(number, 'e', 0) {
        None => number,
        Some(k) => {
            let mantissa = number.take(k);
            let exponent = number.skip(k + 1);
            let digits = all_digits_of(mantissa);
            let point = whole_digits(mantissa);
            if starts_with(exponent, "-"@) {
                match parsed_decimal(exponent.skip(1), EXPONENT_LIMIT as nat) {
                    Some(n) => pointed(digits, point - n),
                    None => "0"@,
                }
            } else {
                let size = if starts_with(exponent, "+"@) {
                    exponent.skip(1)
                } else {
                    exponent
                };
                match parsed_decimal(size, EXPONENT_LIMIT as nat) {
                    Some(n) => pointed(digits, point + n),
                    None => "inf"@,
                }
            }
        },
    }
}

fn push_zeros(out: &mut String, n: usize)
    ensures
        final(out)@ == old(out)@ + zeros(n as int),
{
    let ghost before = out@;
    assert(out@ =~= before + zeros(0));
    let mut i: usize = 0;
    while i < n
        invariant
            i <= n,
            out@ == before + zeros(i as int),
        decreases n - i,
    {
        out.push('0');
        assert(out@ =~= before + zeros(i + 1));
        i += 1;
    }
}

/// The digits with the point `by` places further left than behind the first
/// `whole`.
fn moved_left(digits: &Vec<char>, whole: usize, by: usize) -> (r: String)
    requires
        whole <= digits@.len(),
    ensures
        r@ == pointed(digits@, whole - by),
{
    if by >= whole {
        let mut s: String = String::from_str("0.");
        push_zeros(&mut s, by - whole);
        let rest = text_between(digits, 0, digits.len());
        assert(rest@ =~= digits@);
        s.append(rest.as_str());
        s
    } else {
        let at: usize = whole - by;
        let all = text_between(digits, 0, digits.len());
        assert(all@ =~= digits@);
        if at >= digits.len() {
            assert(all@ + zeros(at - digits@.len()) =~= all@);
            all
        } else {
            let mut s: String = text_between(digits, 0, at);
            s.append(".");
            let rest = text_between(digits, at, digits.len());
            assert(rest@ =~= digits@.skip(at as int));
            s.append(rest.as_str());
            assert(s@ =~= pointed(digits@, at as int));
            s
        }
    }
}

/// The digits with the point `by` places further right than behind the first
/// `whole`.
fn moved_right(digits: &Vec<char>, whole: usize, by: usize) -> (r: String)
    requires
        whole <= digits@.len(),
    ensures
        r@ == pointed(digits@, whole + by),
{
    let room: usize = digits.len() - whole;
    if whole == 0 && by == 0 {
        return moved_left(digits, whole, by);
    }
    if by >= room {
        let mut s: String = text_between(digits, 0, digits.len());
        assert(s@ =~= digits@);
        push_zeros(&mut s, by - room);
        assert(s@ =~= pointed(digits@, whole + by));
        s
    } else {
        let at: usize = whole + by;
        let mut s: String = text_between(digits, 0, at);
        s.append(".");
        let rest = text_between(digits, at, digits.len());
        assert(rest@ =~= digits@.skip(at as int));
        s.append(rest.as_str());
        assert(s@ =~= pointed(digits@, at as int));
        s
    }
}

/// Writes a number in scientific notation out.
pub fn write_out(number: &str) -> (r: String)
    ensures
        r@ == written_out(number@),
{
    let c = chars_of(number);
    let total: usize = c.len();
    let k: usize = match find_char(&c, 'e', 0) {
        None => {
            let all = text_between(&c, 0, total);
            assert(all@ =~= number@);
            return all;
        },
        Some(k) => k,
    };
    let ghost mantissa = number@.take(k as int);
    let mantissa_text = text_between(&c, 0, k);
    assert(mantissa_text@ =~= mantissa);
    let m = chars_of(mantissa_text.as_str());
    let mut digits: Vec<char> = Vec::new();
    let mut whole: usize = m.len();
    match find_char(&m, '.', 0) {
        Some(p) => {
            whole = p;
            let mut i: usize = 0;
            while i < m.len()
                invariant
                    m@ == mantissa,
                    i <= m@.len(),
                    p < m@.len(),
                    digits@ == (if i <= p {
                        m@.take(i as int)
                    } else {
                        m@.take(p as int) + m@.subrange(p + 1, i as int)
                    }),
                decreases m@.len() - i,
            {
                let ghost before = digits@;
                if i != p {
                    digits.push(m[i]);
                }
                proof {
                    if i < p {
                        assert(digits@ =~= m@.take(i + 1));
                    } else if i == p {
                        assert(digits@ =~= m@.take(p as int) + m@.subrange(p + 1, i + 1));
                    } else {
                        assert(digits@ =~= m@.take(p as int) + m@.subrange(p + 1, i + 1));
                    }
                }
                i += 1;
            }
            assert(digits@ =~= all_digits_of(mantissa));
        },
        None => {
            digits = m;
        },
    }
    let exponent = text_between(&c, k + 1, total);
    assert(exponent@ =~= number@.skip(k + 1));
    let e = chars_of(exponent.as_str());
    if has_prefix(exponent.as_str(), "-") {
        proof {
            reveal_strlit("-");
        }
        let size = text_between(&e, 1, e.len());
        assert(size@ =~= exponent@.skip(1));
        match read_decimal(size.as_str(), EXPONENT_LIMIT) {
            Some(n) => moved_left(&digits, whole, n as usize),
            None => String::from_str("0"),
        }
    } else {
        let size = if has_prefix(exponent.as_str(), "+") {
            proof {
                reveal_strlit("+");
            }
            let s = text_between(&e, 1, e.len());
            assert(s@ =~= exponent@.skip(1));
            s
        } else {
            exponent
        };
        match read_decimal(size.as_str(), EXPONENT_LIMIT) {
            Some(n) => moved_right(&digits, whole, n as usize),
            None => String::from_str("inf"),
        }
    }
}

} // verus!

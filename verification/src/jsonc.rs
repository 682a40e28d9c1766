//! JSON with comments, reduced to JSON.

use vstd::prelude::*;

use crate::text::{chars_of, skip_space, whitespace};

verus! {

/// The position of the first line break at or after `from`, or the end.
pub open spec fn line_end(text: Seq<char>, from: int) -> int
    decreases text.len() - from,
{
    if 0 <= from < text.len() && text[from] != '\n' {
        line_end(text, from + 1)
    } else {
        from
    }
}

/// The position behind the first `*/` at or after `from`, or the end.
pub open spec fn comment_end(text: Seq<char>, from: int) -> int
    decreases text.len() - from,
{
    if from < 0 || from + 1 >= text.len() {
        text.len() as int
    } else if text[from] == '*' && text[from + 1] == '/' {
        from + 2
    } else {
        comment_end(text, from + 1)
    }
}

pub proof fn lemma_line_end(text: Seq<char>, from: int)
    requires
        0 <= from < text.len(),
        text[from] != '\n',
    ensures
        from < line_end(text, from) <= text.len(),
    decreases text.len() - from,
{
    if from + 1 < text.len() && text[from + 1] != '\n' {
        lemma_line_end(text, from + 1);
    } else {
        assert(line_end(text, from + 1) == from + 1);
    }
    assert(line_end(text, from) == line_end(text, from + 1));
}

pub proof fn lemma_comment_end(text: Seq<char>, from: int)
    requires
        0 <= from <= text.len(),
    ensures
        from <= comment_end(text, from) <= text.len(),
    decreases text.len() - from,
{
    if from + 1 < text.len() && !(text[from] == '*' && text[from + 1] == '/') {
        lemma_comment_end(text, from + 1);
    }
}

/// The text from position `i` without comments; `in_str` tells whether that
/// position stands inside a string, where nothing is a comment.
pub open spec fn uncommented(text: Seq<char>, i: int, in_str: bool) -> Seq<char>
    decreases text.len() - i,
{
    if i < 0 || i >= text.len() {
        Seq::empty()
    } else if in_str {
        if text[i] == '\\' && i + 1 < text.len() {
            seq![text[i], text[i + 1]] + uncommented(text, i + 2, true)
        } else {
            seq![text[i]] + uncommented(text, i + 1, text[i] != '"')
        }
    } else if text[i] == '"' {
        seq![text[i]] + uncommented(text, i + 1, true)
    } else if text[i] == '/' && i + 1 < text.len() && text[i + 1] == '/' {
        proof {
            lemma_line_end(text, i);
        }
        uncommented(text, line_end(text, i), false)
    } else if text[i] == '/' && i + 1 < text.len() && text[i + 1] == '*' {
        proof {
            lemma_comment_end(text, i + 2);
        }
        uncommented(text, comment_end(text, i + 2), false)
    } else {
        seq![text[i]] + uncommented(text, i + 1, false)
    }
}

/// Whether a comma at position `i` stands, but for white space, before a
/// closing bracket.
pub open spec fn trailing_comma(text: Seq<char>, i: int) -> bool {
    let j = skip_space(text, i + 1);
    text[i] == ',' && j < text.len() && (text[j] == '}' || text[j] == ']')
}

/// The first `n` characters without trailing commas.
pub open spec fn without_trailing_commas(text: Seq<char>, n: int) -> Seq<char>
    decreases n,
{
    if n <= 0 {
        Seq::empty()
    } else {
        let before = without_trailing_commas(text, n - 1);
        if trailing_comma(text, n - 1) {
            before
        } else {
            before.push(text[n - 1])
        }
    }
}

/// The JSON in a text with comments and trailing commas.
pub open spec fn plain_json(text: Seq<char>) -> Seq<char> {
    let s = uncommented(text, 0, false);
    without_trailing_commas(s, s.len() as int)
}

/// Whether a comment might start at position `i`.
pub open spec fn comment_mark(text: Seq<char>, i: int) -> bool {
    0 <= i && i + 1 < text.len() && text[i] == '/' && (text[i + 1] == '/' || text[i + 1] == '*')
}

proof fn lemma_nothing_to_drop(text: Seq<char>, i: int, in_str: bool)
    requires
        0 <= i <= text.len(),
        forall|k: int| !#[trigger] comment_mark(text, k),
    ensures
        uncommented(text, i, in_str) == text.skip(i),
    decreases text.len() - i,
{
    if i < text.len() {
        assert(!comment_mark(text, i));
        assert(text.skip(i) =~= seq![text[i]] + text.skip(i + 1));
        if in_str {
            if text[i] == '\\' && i + 1 < text.len() {
                lemma_nothing_to_drop(text, i + 2, true);
                assert(text.skip(i) =~= seq![text[i], text[i + 1]] + text.skip(i + 2));
            } else {
                lemma_nothing_to_drop(text, i + 1, text[i] != '"');
            }
        } else {
            lemma_nothing_to_drop(text, i + 1, text[i] == '"');
        }
    }
}

proof fn lemma_commas_stay(text: Seq<char>, n: int)
    requires
        0 <= n <= text.len(),
        forall|i: int| 0 <= i < text.len() ==> !#[trigger] trailing_comma(text, i),
    ensures
        without_trailing_commas(text, n) == text.take(n),
    decreases n,
{
    if n > 0 {
        lemma_commas_stay(text, n - 1);
        assert(!trailing_comma(text, n - 1));
        assert(text.take(n) =~= text.take(n - 1).push(text[n - 1]));
    }
}

/// A text without the marks of a comment and without trailing commas stays as it is.
pub proof fn law_plain_json_stays(text: Seq<char>)
    requires
        forall|k: int| !#[trigger] comment_mark(text, k),
        forall|i: int| 0 <= i < text.len() ==> !#[trigger] trailing_comma(text, i),
    ensures
        plain_json(text) == text,
{
    lemma_nothing_to_drop(text, 0, false);
    assert(text.skip(0) =~= text);
    lemma_commas_stay(text, text.len() as int);
    assert(text.take(text.len() as int) =~= text);
}

/// Drops `//` and `/* */` comments outside strings.
fn strip_comments(c: &Vec<char>) -> (out: Vec<char>)
    ensures
        out@ == uncommented(c@, 0, false),
{
    let ghost whole = uncommented(c@, 0, false);
    let mut out: Vec<char> = Vec::new();
    let mut in_str: bool = false;
    let total: usize = c.len();
    let mut i: usize = 0;
    assert(out@ + uncommented(c@, 0, false) =~= whole);
    while i < total
        invariant
            total == c@.len(),
            i <= total,
            whole == uncommented(c@, 0, false),
            out@ + uncommented(c@, i as int, in_str) == whole,
        decreases total - i,
    {
        let ghost done = out@;
        let ghost rest = uncommented(c@, i as int, in_str);
        let b: char = c[i];
        if in_str {
            out.push(b);
            if b == '\\' && i + 1 < total {
                out.push(c[i + 1]);
                i += 2;
                assert(out@ + uncommented(c@, i as int, true) =~= done + rest);
            } else {
                if b == '"' {
                    in_str = false;
                }
                i += 1;
                assert(out@ + uncommented(c@, i as int, in_str) =~= done + rest);
            }
        } else if b == '"' {
            in_str = true;
            out.push(b);
            i += 1;
            assert(out@ + uncommented(c@, i as int, true) =~= done + rest);
        } else if b == '/' && i + 1 < total && c[i + 1] == '/' {
            let ghost from = i as int;
            proof {
                lemma_line_end(c@, from);
            }
            while i < total && c[i] != '\n'
                invariant
                    total == c@.len(),
                    from <= i <= total,
                    line_end(c@, from) == line_end(c@, i as int),
                decreases total - i,
            {
                i += 1;
            }
            assert(i == line_end(c@, from));
        } else if b == '/' && i + 1 < total && c[i + 1] == '*' {
            i += 2;
            let ghost from = i as int;
            proof {
                lemma_comment_end(c@, from);
            }
            let mut open: bool = true;
            while open
                invariant
                    total == c@.len(),
                    from <= i <= total,
                    open ==> comment_end(c@, from) == comment_end(c@, i as int),
                    !open ==> comment_end(c@, from) == i,
                decreases (total - i) + (if open { 1int } else { 0 }),
            {
                if i >= total || i + 1 >= total {
                    i = total;
                    open = false;
                } else if c[i] == '*' && c[i + 1] == '/' {
                    i += 2;
                    open = false;
                } else {
                    i += 1;
                }
            }
        } else {
            out.push(b);
            i += 1;
            assert(out@ + uncommented(c@, i as int, false) =~= done + rest);
        }
    }
    assert(out@ + Seq::<char>::empty() =~= out@);
    out
}

/// Drops comments outside strings, and commas before closing brackets.
pub fn strip_jsonc(text: &str) -> (r: String)
    ensures
        r@ == plain_json(text@),
{
    let s = strip_comments(&chars_of(text));
    let mut cleaned: String = String::new();
    let mut i: usize = 0;
    assert(cleaned@ =~= without_trailing_commas(s@, 0));
    while i < s.len()
        invariant
            i <= s@.len(),
            cleaned@ == without_trailing_commas(s@, i as int),
        decreases s@.len() - i,
    {
        let c: char = s[i];
        let mut trailing: bool = false;
        if c == ',' {
            let mut j: usize = i + 1;
            while j < s.len() && whitespace(s[j])
                invariant
                    i < j <= s@.len(),
                    skip_space(s@, i + 1) == skip_space(s@, j as int),
                decreases s@.len() - j,
            {
                j += 1;
            }
            trailing = j < s.len() && (s[j] == '}' || s[j] == ']');
        }
        if !trailing {
            cleaned.push(c);
        }
        i += 1;
    }
    cleaned
}

} // verus!

//! The order in which findings are listed: by file, line, parameter and path,
//! ties in the order in which they were found.

use vstd::prelude::*;

use crate::model::{views, Finding, FindingView};
use crate::text::{chars_of, same_text};

verus! {

/// Lexicographic order of texts: `a` stands before `b` or equals it.
pub open spec fn text_le(a: Seq<char>, b: Seq<char>) -> bool
    decreases a.len(),
{
    if a.len() == 0 {
        true
    } else if b.len() == 0 {
        false
    } else if a[0] != b[0] {
        a[0] < b[0]
    } else {
        text_le(a.drop_first(), b.drop_first())
    }
}

/// Whether finding `a` may stand before finding `b`.
pub open spec fn finding_le(a: FindingView, b: FindingView) -> bool {
    if a.file != b.file {
        text_le(a.file, b.file)
    } else if a.line != b.line {
        a.line < b.line
    } else if a.param != b.param {
        text_le(a.param, b.param)
    } else {
        text_le(a.path, b.path)
    }
}

/// The number of findings that stay in front of `f` when it is put behind all
/// the last ones that may stand before it.
pub open spec fn place(s: Seq<FindingView>, f: FindingView) -> int
    decreases s.len(),
{
    if s.len() == 0 || finding_le(s.last(), f) {
        s.len() as int
    } else {
        place(s.drop_last(), f)
    }
}

/// The findings in order, ties as they came.
pub open spec fn sorted(s: Seq<FindingView>) -> Seq<FindingView>
    decreases s.len(),
{
    if s.len() == 0 {
        s
    } else {
        let before = sorted(s.drop_last());
        before.insert(place(before, s.last()), s.last())
    }
}

pub open spec fn in_order(s: Seq<FindingView>) -> bool {
    forall|i: int, j: int| 0 <= i < j < s.len() ==> finding_le(#[trigger] s[i], #[trigger] s[j])
}

proof fn lemma_text_le_reflexive(a: Seq<char>)
    ensures
        text_le(a, a),
    decreases a.len(),
{
    if a.len() > 0 {
        lemma_text_le_reflexive(a.drop_first());
    }
}

proof fn lemma_text_le_total(a: Seq<char>, b: Seq<char>)
    ensures
        text_le(a, b) || text_le(b, a),
    decreases a.len(),
{
    if a.len() > 0 && b.len() > 0 {
        lemma_text_le_total(a.drop_first(), b.drop_first());
    }
}

proof fn lemma_text_le_transitive(a: Seq<char>, b: Seq<char>, c: Seq<char>)
    requires
        text_le(a, b),
        text_le(b, c),
    ensures
        text_le(a, c),
    decreases a.len(),
{
    if a.len() > 0 && b.len() > 0 && c.len() > 0 && a[0] == b[0] && b[0] == c[0] {
        lemma_text_le_transitive(a.drop_first(), b.drop_first(), c.drop_first());
    }
}

proof fn lemma_text_le_antisymmetric(a: Seq<char>, b: Seq<char>)
    requires
        text_le(a, b),
        text_le(b, a),
    ensures
        a == b,
    decreases a.len(),
{
    if a.len() > 0 && b.len() > 0 {
        let x = a.drop_first();
        let y = b.drop_first();
        lemma_text_le_antisymmetric(x, y);
        assert(x.len() == y.len());
        assert(a[0] == b[0]);
        assert forall|i: int| 0 <= i < a.len() implies a[i] == b[i] by {
            if i > 0 {
                assert(a[i] == x[i - 1]);
                assert(b[i] == y[i - 1]);
            }
        }
    }
    assert(a =~= b);
}

proof fn lemma_finding_le_total(a: FindingView, b: FindingView)
    ensures
        finding_le(a, b) || finding_le(b, a),
{
    lemma_text_le_total(a.file, b.file);
    lemma_text_le_total(a.param, b.param);
    lemma_text_le_total(a.path, b.path);
}

proof fn lemma_finding_le_transitive(a: FindingView, b: FindingView, c: FindingView)
    requires
        finding_le(a, b),
        finding_le(b, c),
    ensures
        finding_le(a, c),
{
    if text_le(a.file, b.file) && text_le(b.file, c.file) {
        lemma_text_le_transitive(a.file, b.file, c.file);
    }
    if a.file == c.file && a.file != b.file {
        lemma_text_le_antisymmetric(a.file, b.file);
    }
    if a.param == c.param && a.param != b.param && text_le(a.param, b.param) && text_le(
        b.param,
        c.param,
    ) {
        lemma_text_le_antisymmetric(a.param, b.param);
    }
    if text_le(a.param, b.param) && text_le(b.param, c.param) {
        lemma_text_le_transitive(a.param, b.param, c.param);
    }
    if text_le(a.path, b.path) && text_le(b.path, c.path) {
        lemma_text_le_transitive(a.path, b.path, c.path);
    }
}

/// Everything in front of the place may stand before `f`, everything behind it after.
proof fn lemma_place(s: Seq<FindingView>, f: FindingView)
    requires
        in_order(s),
    ensures
        0 <= place(s, f) <= s.len(),
        forall|i: int| 0 <= i < place(s, f) ==> finding_le(#[trigger] s[i], f),
        forall|i: int| place(s, f) <= i < s.len() ==> finding_le(f, #[trigger] s[i]),
    decreases s.len(),
{
    if s.len() > 0 {
        if finding_le(s.last(), f) {
            assert forall|i: int| 0 <= i < s.len() implies finding_le(#[trigger] s[i], f) by {
                if i < s.len() - 1 {
                    lemma_finding_le_transitive(s[i], s[s.len() - 1], f);
                }
            }
        } else {
            assert(in_order(s.drop_last())) by {
                assert forall|i: int, j: int| 0 <= i < j < s.drop_last().len() implies finding_le(
                    #[trigger] s.drop_last()[i],
                    #[trigger] s.drop_last()[j],
                ) by {
                    assert(finding_le(s[i], s[j]));
                }
            }
            lemma_place(s.drop_last(), f);
            lemma_finding_le_total(s.last(), f);
            assert forall|i: int| place(s, f) <= i < s.len() implies finding_le(
                f,
                #[trigger] s[i],
            ) by {
                if i < s.len() - 1 {
                    assert(s.drop_last()[i] == s[i]);
                }
            }
            assert forall|i: int| 0 <= i < place(s, f) implies finding_le(#[trigger] s[i], f) by {
                assert(s.drop_last()[i] == s[i]);
            }
        }
    }
}

/// Sorting puts the findings in order and keeps each of them.
pub proof fn law_sorted(s: Seq<FindingView>)
    ensures
        in_order(sorted(s)),
        sorted(s).len() == s.len(),
        sorted(s).to_multiset() == s.to_multiset(),
    decreases s.len(),
{
    broadcast use vstd::seq_lib::group_to_multiset_ensures;

    if s.len() > 0 {
        let before = sorted(s.drop_last());
        let f = s.last();
        law_sorted(s.drop_last());
        lemma_place(before, f);
        let k = place(before, f);
        let after = before.insert(k, f);
        assert forall|i: int, j: int| 0 <= i < j < after.len() implies finding_le(
            #[trigger] after[i],
            #[trigger] after[j],
        ) by {
            let a = if i < k {
                i
            } else {
                i - 1
            };
            let b = if j < k {
                j
            } else {
                j - 1
            };
            if i != k && j != k {
                assert(finding_le(before[a], before[b]));
            }
        }
        assert(s =~= s.drop_last().push(f));
        assert(after =~= before.subrange(0, k) + seq![f] + before.subrange(
            k,
            before.len() as int,
        ));
        assert(before =~= before.subrange(0, k) + before.subrange(k, before.len() as int));
        vstd::seq_lib::lemma_multiset_commutative(
            before.subrange(0, k),
            before.subrange(k, before.len() as int),
        );
        vstd::seq_lib::lemma_multiset_commutative(
            before.subrange(0, k) + seq![f],
            before.subrange(k, before.len() as int),
        );
        vstd::seq_lib::lemma_multiset_commutative(before.subrange(0, k), seq![f]);
        vstd::seq_lib::lemma_multiset_commutative(s.drop_last(), seq![f]);
        assert(s.drop_last() + seq![f] =~= s);
        assert(after.to_multiset() =~= s.to_multiset());
    }
}

/// Two findings tie exactly when file, line, parameter and path agree.
pub proof fn law_tie(a: FindingView, b: FindingView)
    ensures
        (finding_le(a, b) && finding_le(b, a)) <==> (a.file == b.file && a.line == b.line
            && a.param == b.param && a.path == b.path),
{
    if finding_le(a, b) && finding_le(b, a) {
        if a.file != b.file {
            lemma_text_le_antisymmetric(a.file, b.file);
        } else if a.line == b.line {
            if a.param != b.param {
                lemma_text_le_antisymmetric(a.param, b.param);
            } else {
                lemma_text_le_antisymmetric(a.path, b.path);
            }
        }
    }
    lemma_text_le_reflexive(a.path);
}

/// Compares two texts lexicographically.
pub fn text_before(a: &str, b: &str) -> (r: bool)
    ensures
        r == text_le(a@, b@),
{
    let x: Vec<char> = chars_of(a);
    let y: Vec<char> = chars_of(b);
    let ghost s = x@;
    let ghost t = y@;
    let mut i: usize = 0;
    proof {
        assert(s.skip(0) =~= s);
        assert(t.skip(0) =~= t);
    }
    while i < x.len() && i < y.len()
        invariant
            s == x@,
            t == y@,
            s == a@,
            t == b@,
            i <= s.len(),
            i <= t.len(),
            text_le(s, t) == text_le(s.skip(i as int), t.skip(i as int)),
        decreases s.len() - i,
    {
        if x[i] != y[i] {
            assert(s.skip(i as int)[0] == x@[i as int] && t.skip(i as int)[0] == y@[i as int]);
            return x[i] < y[i];
        }
        proof {
            assert(s.skip(i as int).drop_first() =~= s.skip(i + 1));
            assert(t.skip(i as int).drop_first() =~= t.skip(i + 1));
        }
        i += 1;
    }
    i >= x.len()
}

fn finding_before(a: &Finding, b: &Finding) -> (r: bool)
    ensures
        r == finding_le(a@, b@),
{
    if !same_text(a.file.as_str(), b.file.as_str()) {
        text_before(a.file.as_str(), b.file.as_str())
    } else if a.line != b.line {
        a.line < b.line
    } else if !same_text(a.param.as_str(), b.param.as_str()) {
        text_before(a.param.as_str(), b.param.as_str())
    } else {
        text_before(a.path.as_str(), b.path.as_str())
    }
}

/// Puts findings in order, keeping ties as they came.
pub fn sort_findings(list: Vec<Finding>) -> (r: Vec<Finding>)
    ensures
        views(r@) == sorted(views(list@)),
{
    let ghost items = list@;
    let ghost all = views(list@);
    let mut out: Vec<Finding> = Vec::new();
    assert(views(out@) =~= sorted(all.take(0)));
    for f in it: list
        invariant
            it.seq() == items,
            all == views(items),
            views(out@) == sorted(all.take(it.index())),
    {
        let ghost before = views(out@);
        let mut k: usize = out.len();
        proof {
            assert(before.take(before.len() as int) =~= before);
        }
        while k > 0 && !finding_before(&out[k - 1], &f)
            invariant
                before == views(out@),
                k <= out@.len(),
                place(before, f@) == place(before.take(k as int), f@),
            decreases k,
        {
            proof {
                assert(before.take(k as int).drop_last() =~= before.take(k - 1));
                assert(before.take(k as int).last() == out@[k - 1]@);
            }
            k -= 1;
        }
        proof {
            if k > 0 {
                assert(before.take(k as int).last() == out@[k - 1]@);
            }
            assert(place(before, f@) == k);
        }
        out.insert(k, f);
        proof {
            assert(views(out@) =~= before.insert(k as int, f@));
            assert(all.take(it.index() + 1).drop_last() =~= all.take(it.index()));
        }
    }
    assert(all.take(all.len() as int) =~= all);
    out
}

} // verus!

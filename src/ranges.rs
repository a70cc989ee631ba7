use vstd::prelude::*;

use crate::interval::interval_text;

verus! {

// A set of identifiers is modelled as a sequence of closed ranges `(lower, upper)`.

/// Each range has its bounds in order, the ranges are sorted, and any two of
/// them are separated by at least one value that neither holds: they are
/// disjoint and none could be merged with another.
pub open spec fn ranges_wf(s: Seq<(int, int)>) -> bool {
    &&& forall|i: int| 0 <= i < s.len() ==> #[trigger] s[i].0 <= s[i].1
    &&& forall|i: int, j: int| 0 <= i < j < s.len() ==> #[trigger] s[i].1 + 1 < #[trigger] s[j].0
}

/// Whether one of the ranges holds `v`.
pub open spec fn ranges_contain(s: Seq<(int, int)>, v: int) -> bool {
    exists|i: int| 0 <= i < s.len() && #[trigger] s[i].0 <= v && v <= s[i].1
}

/// The values that the ranges hold.
pub open spec fn values_of(s: Seq<(int, int)>) -> Set<int> {
    Set::new(|v: int| ranges_contain(s, v))
}

/// The values of the closed range `[lo, hi]`.
pub open spec fn span(lo: int, hi: int) -> Set<int> {
    Set::new(|v: int| lo <= v <= hi)
}

/// The text of the ranges in order, each as `[v]` or `[lower,upper]`,
/// separated by a comma and a space; empty for no ranges.
pub open spec fn ranges_text(s: Seq<(int, int)>) -> Seq<char>
    decreases s.len(),
{
    if s.len() == 0 {
        Seq::empty()
    } else if s.len() == 1 {
        interval_text(s[0].0, s[0].1)
    } else {
        ranges_text(s.drop_last()) + seq![',', ' '] + interval_text(s.last().0, s.last().1)
    }
}

pub proof fn lemma_values_single(x: (int, int))
    ensures
        values_of(seq![x]) == span(x.0, x.1),
{
    let s = seq![x];
    assert forall|v: int| #[trigger] values_of(s).contains(v) == span(x.0, x.1).contains(v) by {
        if x.0 <= v <= x.1 {
            assert(s[0].0 <= v <= s[0].1);
        }
    }
    assert(values_of(s) =~= span(x.0, x.1));
}

pub proof fn lemma_values_concat(p: Seq<(int, int)>, q: Seq<(int, int)>)
    ensures
        values_of(p + q) == values_of(p).union(values_of(q)),
{
    let t = p + q;
    assert forall|v: int| #[trigger] values_of(t).contains(v) == values_of(p).union(
        values_of(q),
    ).contains(v) by {
        if ranges_contain(t, v) {
            let i = choose|i: int| 0 <= i < t.len() && #[trigger] t[i].0 <= v && v <= t[i].1;
            if i < p.len() {
                assert(p[i].0 <= v <= p[i].1);
            } else {
                assert(q[i - p.len()].0 <= v <= q[i - p.len()].1);
            }
        }
        if ranges_contain(p, v) {
            let i = choose|i: int| 0 <= i < p.len() && #[trigger] p[i].0 <= v && v <= p[i].1;
            assert(t[i] == p[i]);
        }
        if ranges_contain(q, v) {
            let i = choose|i: int| 0 <= i < q.len() && #[trigger] q[i].0 <= v && v <= q[i].1;
            assert(t[i + p.len()] == q[i]);
        }
    }
    assert(values_of(t) =~= values_of(p).union(values_of(q)));
}

/// The first range of a well-formed sequence starts at its least value.
pub proof fn lemma_first_is_least(s: Seq<(int, int)>, v: int)
    requires
        ranges_wf(s),
        ranges_contain(s, v),
    ensures
        s[0].0 <= v,
{
    let i = choose|i: int| 0 <= i < s.len() && #[trigger] s[i].0 <= v && v <= s[i].1;
    if i > 0 {
        assert(s[0].1 + 1 < s[i].0);
        assert(s[0].0 <= s[0].1);
    }
}

/// Replacing the ranges at `[a, b)` of a well-formed sequence by the
/// well-formed `m` gives a well-formed sequence, provided `m` keeps a gap to
/// the ranges on either side; its values are those of `s` outside the
/// replaced ranges, and those of `m`.
pub proof fn lemma_splice(s: Seq<(int, int)>, a: int, b: int, m: Seq<(int, int)>)
    requires
        ranges_wf(s),
        ranges_wf(m),
        0 <= a <= b <= s.len(),
        a > 0 && m.len() > 0 ==> s[a - 1].1 + 1 < m[0].0,
        b < s.len() && m.len() > 0 ==> m[m.len() - 1].1 + 1 < s[b].0,
    ensures
        ranges_wf(s.subrange(0, a) + m + s.subrange(b, s.len() as int)),
        values_of(s.subrange(0, a) + m + s.subrange(b, s.len() as int)) == values_of(s).difference(
            values_of(s.subrange(a, b)),
        ).union(values_of(m)),
{
    let t = s.subrange(0, a) + m + s.subrange(b, s.len() as int);
    let n = m.len() as int;
    assert forall|i: int, j: int| 0 <= i < j < t.len() implies #[trigger] t[i].1 + 1 < #[trigger] t[j].0 by {
        if j < a {
        } else if j < a + n {
            if i >= a {
                assert(m[i - a].1 + 1 < m[j - a].0);
            } else {
                assert(m[0].0 <= m[j - a].0);
                if i < a - 1 {
                    assert(s[i].1 + 1 < s[a - 1].0);
                    assert(s[a - 1].0 <= s[a - 1].1);
                }
            }
        } else {
            if i < a {
                assert(s[i].1 + 1 < s[j - a - n + b].0);
            } else if i < a + n {
                if i - a < n - 1 {
                    assert(m[i - a].1 + 1 < m[n - 1].0);
                    assert(m[n - 1].0 <= m[n - 1].1);
                }
                assert(s[b].0 <= s[j - a - n + b].0);
            } else {
                assert(s[i - a - n + b].1 + 1 < s[j - a - n + b].0);
            }
        }
    }
    assert forall|i: int| 0 <= i < t.len() implies #[trigger] t[i].0 <= t[i].1 by {
        if i < a {
        } else if i < a + n {
            assert(m[i - a].0 <= m[i - a].1);
        } else {
            assert(s[i - a - n + b].0 <= s[i - a - n + b].1);
        }
    }
    let mid = s.subrange(a, b);
    assert forall|v: int| #[trigger] values_of(t).contains(v) == (values_of(s).difference(
        values_of(mid),
    ).union(values_of(m))).contains(v) by {
        if ranges_contain(t, v) {
            let i = choose|i: int| 0 <= i < t.len() && #[trigger] t[i].0 <= v && v <= t[i].1;
            if i < a {
                assert(s[i].0 <= v <= s[i].1);
                assert forall|k: int| 0 <= k < mid.len() implies !(#[trigger] mid[k].0 <= v
                    && v <= mid[k].1) by {
                    assert(s[i].1 + 1 < s[a + k].0);
                }
            } else if i < a + n {
                assert(m[i - a].0 <= v <= m[i - a].1);
            } else {
                let k0 = i - a - n + b;
                assert(s[k0].0 <= v <= s[k0].1);
                assert forall|k: int| 0 <= k < mid.len() implies !(#[trigger] mid[k].0 <= v
                    && v <= mid[k].1) by {
                    assert(s[a + k].1 + 1 < s[k0].0);
                }
            }
        }
        if ranges_contain(m, v) {
            let k = choose|k: int| 0 <= k < m.len() && #[trigger] m[k].0 <= v && v <= m[k].1;
            assert(t[a + k] == m[k]);
        }
        if ranges_contain(s, v) && !ranges_contain(mid, v) {
            let k = choose|k: int| 0 <= k < s.len() && #[trigger] s[k].0 <= v && v <= s[k].1;
            if k < a {
                assert(t[k] == s[k]);
            } else if k < b {
                assert(mid[k - a] == s[k]);
            } else {
                assert(t[k - b + a + n] == s[k]);
            }
        }
    }
    assert(values_of(t) =~= values_of(s).difference(values_of(mid)).union(values_of(m)));
}

/// Where `x` fits at index `i` of `s` (it overlaps no range, the range
/// before it ends below it and the one after it starts above it), merging it
/// with the neighbours that it touches gives a well-formed sequence that
/// holds the values of `s` and of `x`.
pub proof fn lemma_insert_merged(s: Seq<(int, int)>, i: int, x: (int, int), a: int, b: int, y: (int, int))
    requires
        ranges_wf(s),
        0 <= i <= s.len(),
        x.0 <= x.1,
        i < s.len() ==> x.1 < s[i].0,
        i > 0 ==> s[i - 1].1 < x.0,
        a == (if i > 0 && s[i - 1].1 + 1 == x.0 { i - 1 } else { i }),
        b == (if i < s.len() && x.1 + 1 == s[i].0 { i + 1 } else { i }),
        y == (if a < i { s[i - 1].0 } else { x.0 }, if b > i { s[i].1 } else { x.1 }),
    ensures
        ranges_wf(s.subrange(0, a) + seq![y] + s.subrange(b, s.len() as int)),
        values_of(s.subrange(0, a) + seq![y] + s.subrange(b, s.len() as int)) == values_of(s).union(
            span(x.0, x.1),
        ),
{
    let m = seq![y];
    let t = s.subrange(0, a) + m + s.subrange(b, s.len() as int);
    let mid = s.subrange(a, b);
    if a < i {
        assert(s[i - 1].0 <= s[i - 1].1);
        if a > 0 {
            assert(s[a - 1].1 + 1 < s[a].0);
        }
    }
    if b > i {
        assert(s[i].0 <= s[i].1);
        if b < s.len() {
            assert(s[i].1 + 1 < s[b].0);
        }
    }
    lemma_splice(s, a, b, m);
    lemma_values_single(y);
    assert forall|v: int| #[trigger] values_of(t).contains(v) == values_of(s).union(
        span(x.0, x.1),
    ).contains(v) by {
        if ranges_contain(mid, v) {
            let j = choose|j: int| 0 <= j < mid.len() && #[trigger] mid[j].0 <= v && v <= mid[j].1;
            assert(s[a + j].0 <= v <= s[a + j].1);
            if a + j < i {
                assert(a + j == i - 1);
            } else {
                assert(a + j == i);
            }
        }
        if y.0 <= v <= y.1 {
            if v < x.0 {
                assert(s[i - 1].0 <= v <= s[i - 1].1);
            } else if v > x.1 {
                assert(s[i].0 <= v <= s[i].1);
            }
        }
        if ranges_contain(s, v) {
            let k = choose|k: int| 0 <= k < s.len() && #[trigger] s[k].0 <= v && v <= s[k].1;
            if k < a || k >= b {
                assert forall|j: int| 0 <= j < mid.len() implies !(#[trigger] mid[j].0 <= v
                    && v <= mid[j].1) by {
                    if k < a + j {
                        assert(s[k].1 + 1 < s[a + j].0);
                    } else {
                        assert(s[a + j].1 + 1 < s[k].0);
                    }
                }
            } else if k < i {
                assert(k == i - 1);
            } else {
                assert(k == i);
            }
        }
    }
    assert(values_of(t) =~= values_of(s).union(span(x.0, x.1)));
}

/// What is left of the range `x` once the values `[lo, hi]` are taken out:
/// `x` itself where the two do not meet, else the part below `lo` and the
/// part above `hi`, those that are not empty.
pub open spec fn trimmed(x: (int, int), lo: int, hi: int) -> Seq<(int, int)> {
    if x.1 < lo || x.0 > hi {
        seq![x]
    } else {
        (if x.0 < lo {
            seq![(x.0, lo - 1)]
        } else {
            Seq::empty()
        }) + (if x.1 > hi {
            seq![(hi + 1, x.1)]
        } else {
            Seq::empty()
        })
    }
}

pub proof fn lemma_trimmed(x: (int, int), lo: int, hi: int)
    requires
        x.0 <= x.1,
        lo <= hi,
    ensures
        ranges_wf(trimmed(x, lo, hi)),
        values_of(trimmed(x, lo, hi)) == span(x.0, x.1).difference(span(lo, hi)),
        forall|j: int|
            0 <= j < trimmed(x, lo, hi).len() ==> x.0 <= #[trigger] trimmed(x, lo, hi)[j].0
                && trimmed(x, lo, hi)[j].1 <= x.1,
{
    let m = trimmed(x, lo, hi);
    let left: Seq<(int, int)> = if x.0 < lo {
        seq![(x.0, lo - 1)]
    } else {
        Seq::empty()
    };
    let right: Seq<(int, int)> = if x.1 > hi {
        seq![(hi + 1, x.1)]
    } else {
        Seq::empty()
    };
    if x.1 < lo || x.0 > hi {
        lemma_values_single(x);
        assert(span(x.0, x.1).difference(span(lo, hi)) =~= span(x.0, x.1));
    } else {
        assert(m == left + right);
        lemma_values_concat(left, right);
        if x.0 < lo {
            lemma_values_single((x.0, lo - 1));
        } else {
            assert(values_of(left) =~= Set::<int>::empty());
        }
        if x.1 > hi {
            lemma_values_single((hi + 1, x.1));
        } else {
            assert(values_of(right) =~= Set::<int>::empty());
        }
        assert(values_of(m) =~= span(x.0, x.1).difference(span(lo, hi)));
    }
}

/// Taking the value `v` out of the range at index `k` that holds it leaves a
/// well-formed sequence holding the other values of `s`.
pub proof fn lemma_cut_value(s: Seq<(int, int)>, k: int, v: int)
    requires
        ranges_wf(s),
        0 <= k < s.len(),
        s[k].0 <= v <= s[k].1,
    ensures
        ranges_wf(s.subrange(0, k) + trimmed(s[k], v, v) + s.subrange(k + 1, s.len() as int)),
        values_of(s.subrange(0, k) + trimmed(s[k], v, v) + s.subrange(k + 1, s.len() as int))
            == values_of(s).remove(v),
{
    let m = trimmed(s[k], v, v);
    lemma_trimmed(s[k], v, v);
    if m.len() > 0 {
        if k > 0 {
            assert(s[k - 1].1 + 1 < s[k].0);
        }
        if k + 1 < s.len() {
            assert(s[k].1 + 1 < s[k + 1].0);
        }
    }
    lemma_splice(s, k, k + 1, m);
    assert(s.subrange(k, k + 1) =~= seq![s[k]]);
    lemma_values_single(s[k]);
    assert forall|w: int| #[trigger] span(s[k].0, s[k].1).contains(w) implies values_of(s).contains(w) by {
        assert(s[k].0 <= w <= s[k].1);
    }
    assert(values_of(s).difference(span(s[k].0, s[k].1)).union(
        span(s[k].0, s[k].1).difference(span(v, v)),
    ) =~= values_of(s).remove(v));
}

/// A set of values has one well-formed sequence of ranges: two well-formed
/// sequences that hold the same values are the same sequence.
pub proof fn lemma_canonical(s1: Seq<(int, int)>, s2: Seq<(int, int)>)
    requires
        ranges_wf(s1),
        ranges_wf(s2),
        values_of(s1) == values_of(s2),
    ensures
        s1 == s2,
    decreases s1.len(),
{
    if s1.len() == 0 || s2.len() == 0 {
        if s1.len() > 0 {
            assert(s1[0].0 <= s1[0].0 <= s1[0].1);
            assert(values_of(s1).contains(s1[0].0));
        }
        if s2.len() > 0 {
            assert(s2[0].0 <= s2[0].0 <= s2[0].1);
            assert(values_of(s2).contains(s2[0].0));
        }
        assert(s1 =~= s2);
    } else {
        let (a1, b1) = s1[0];
        let (a2, b2) = s2[0];
        assert(s1[0].0 <= a1 <= s1[0].1);
        assert(s2[0].0 <= a2 <= s2[0].1);
        assert(values_of(s1).contains(a1));
        assert(values_of(s2).contains(a2));
        lemma_first_is_least(s2, a1);
        lemma_first_is_least(s1, a2);
        if b1 < b2 {
            assert(s2[0].0 <= b1 + 1 <= s2[0].1);
            assert(values_of(s2).contains(b1 + 1));
            let k = choose|k: int| 0 <= k < s1.len() && #[trigger] s1[k].0 <= b1 + 1 && b1 + 1 <= s1[k].1;
            if k > 0 {
                assert(s1[0].1 + 1 < s1[k].0);
            }
        }
        if b2 < b1 {
            assert(s1[0].0 <= b2 + 1 <= s1[0].1);
            assert(values_of(s1).contains(b2 + 1));
            let k = choose|k: int| 0 <= k < s2.len() && #[trigger] s2[k].0 <= b2 + 1 && b2 + 1 <= s2[k].1;
            if k > 0 {
                assert(s2[0].1 + 1 < s2[k].0);
            }
        }
        let r1 = s1.subrange(1, s1.len() as int);
        let r2 = s2.subrange(1, s2.len() as int);
        lemma_splice(s1, 0, 1, Seq::empty());
        lemma_splice(s2, 0, 1, Seq::empty());
        assert(s1.subrange(0, 0) + Seq::<(int, int)>::empty() + r1 =~= r1);
        assert(s2.subrange(0, 0) + Seq::<(int, int)>::empty() + r2 =~= r2);
        assert(s1.subrange(0, 1) =~= seq![s1[0]]);
        assert(s2.subrange(0, 1) =~= seq![s2[0]]);
        assert(values_of(Seq::<(int, int)>::empty()) =~= Set::<int>::empty());
        lemma_canonical(r1, r2);
        assert(s1 =~= seq![s1[0]] + r1);
        assert(s2 =~= seq![s2[0]] + r2);
    }
}

} // verus!

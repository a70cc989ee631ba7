use vstd::prelude::*;

use crate::error::IdError;
use crate::id_type::IdType;
use crate::interval::Interval;
use crate::ranges::{
    lemma_canonical,
    lemma_cut_value,
    lemma_first_is_least,
    lemma_insert_merged,
    lemma_splice,
    lemma_trimmed,
    lemma_values_concat,
    lemma_values_single,
    ranges_contain,
    ranges_text,
    ranges_wf,
    span,
    trimmed,
    values_of,
};

verus! {

/// A set of identifiers, held as sorted, disjoint, non-adjacent intervals.
pub struct Intervals<T: IdType> {
    intervals: Vec<Interval<T>>,
}

impl<T: IdType> View for Intervals<T> {
    type V = Seq<(int, int)>;

    closed spec fn view(&self) -> Seq<(int, int)> {
        bounds_of(self.intervals@)
    }
}

/// The bounds of each interval.
pub open spec fn bounds_of<T: IdType>(v: Seq<Interval<T>>) -> Seq<(int, int)> {
    v.map_values(|iv: Interval<T>| iv@)
}

/// `s` with the ranges at `[a, b)` replaced by `m`.
pub open spec fn spliced(s: Seq<(int, int)>, a: int, b: int, m: Seq<(int, int)>) -> Seq<(int, int)> {
    s.subrange(0, a) + m + s.subrange(b, s.len() as int)
}

/// The interval `x` can stand at index `i` of `s` with a value to spare
/// on either side of it, or, where it touches a neighbour, by merging.
pub open spec fn fits_at(s: Seq<(int, int)>, i: int, x: (int, int)) -> bool {
    &&& 0 <= i <= s.len()
    &&& x.0 <= x.1
    &&& i < s.len() ==> x.1 < s[i].0
    &&& i > 0 ==> s[i - 1].1 < x.0
}

impl<T: IdType> Intervals<T> {
    /// Sorted, disjoint and maximal: no two intervals overlap or touch.
    pub open spec fn wf(&self) -> bool {
        ranges_wf(self@)
    }

    /// The identifiers in the set.
    pub open spec fn values(&self) -> Set<int> {
        values_of(self@)
    }

    /// Every stored bound is a value of the identifier type.
    proof fn lemma_in_type(&self)
        ensures
            forall|i: int|
                0 <= i < self@.len() ==> T::min_int() <= #[trigger] self@[i].0 && self@[i].1
                    <= T::max_int(),
    {
        assert forall|i: int| 0 <= i < self@.len() implies T::min_int() <= #[trigger] self@[i].0
            && self@[i].1 <= T::max_int() by {
            self.intervals@[i].lemma_in_type();
        }
    }

    /// The empty set.
    pub fn new() -> (r: Self)
        ensures
            r@ == Seq::<(int, int)>::empty(),
            r.wf(),
            r.values() == Set::<int>::empty(),
    {
        let r = Intervals { intervals: Vec::new() };
        assert(r@ =~= Seq::<(int, int)>::empty());
        assert(r.values() =~= Set::<int>::empty());
        r
    }

    pub fn is_empty(&self) -> (r: bool)
        requires
            self.wf(),
        ensures
            r == (self@.len() == 0),
            r == (self.values() == Set::<int>::empty()),
    {
        if self.intervals.len() == 0 {
            assert(self.values() =~= Set::<int>::empty());
            true
        } else {
            assert(self@[0].0 <= self@[0].0 <= self@[0].1);
            assert(self.values().contains(self@[0].0));
            false
        }
    }

    /// The intervals in ascending order, as `[lower,upper]`, or `[v]` where
    /// the two bounds agree, separated by `", "`; empty for the empty set.
    pub fn dump(&self) -> (r: String)
        ensures
            r@ == ranges_text(self@),
    {
        let mut s = String::new();
        let n = self.intervals.len();
        let mut i: usize = 0;
        proof {
            reveal_strlit(", ");
            assert(self@.subrange(0, 0) =~= Seq::<(int, int)>::empty());
        }
        while i < n
            invariant
                n == self@.len(),
                i <= n,
                s@ == ranges_text(self@.subrange(0, i as int)),
            decreases n - i,
        {
            let ghost before = s@;
            if i > 0 {
                s.append(", ");
            }
            self.intervals[i].append_text(&mut s);
            proof {
                let t = self@.subrange(0, i + 1);
                assert(t.drop_last() =~= self@.subrange(0, i as int));
                reveal_strlit(", ");
                assert(t.last() == self@[i as int]);
                assert(s@ =~= ranges_text(t));
            }
            i = i + 1;
        }
        proof {
            assert(self@.subrange(0, n as int) =~= self@);
        }
        s
    }

    /// The number of intervals that start below `value`: the index at which
    /// an interval starting at `value` would stand.
    fn first_at_or_above(&self, value: u128) -> (r: usize)
        requires
            self.wf(),
        ensures
            r <= self@.len(),
            forall|k: int| 0 <= k < r ==> #[trigger] self@[k].0 < value,
            forall|k: int| r <= k < self@.len() ==> #[trigger] self@[k].0 >= value,
    {
        let mut lo: usize = 0;
        let mut hi: usize = self.intervals.len();
        while lo < hi
            invariant
                self.wf(),
                lo <= hi <= self@.len(),
                forall|k: int| 0 <= k < lo ==> #[trigger] self@[k].0 < value,
                forall|k: int| hi <= k < self@.len() ==> #[trigger] self@[k].0 >= value,
            decreases hi - lo,
        {
            let mid = lo + (hi - lo) / 2;
            if self.intervals[mid].lower().to_u128() < value {
                assert forall|k: int| 0 <= k <= mid implies #[trigger] self@[k].0 < value by {
                    if k < mid {
                        assert(self@[k].1 + 1 < self@[mid as int].0);
                    }
                }
                lo = mid + 1;
            } else {
                assert forall|k: int| mid <= k < self@.len() implies #[trigger] self@[k].0
                    >= value by {
                    if k > mid {
                        assert(self@[mid as int].1 + 1 < self@[k].0);
                    }
                }
                hi = mid;
            }
        }
        lo
    }

    /// The index of the interval that holds `value`, if any does.
    fn find(&self, value: T) -> (r: Option<usize>)
        requires
            self.wf(),
        ensures
            match r {
                Some(k) => k < self@.len() && self@[k as int].0 <= value.id_int() <= self@[k as int].1,
                None => !ranges_contain(self@, value.id_int()),
            },
    {
        let v = value.to_u128();
        let i = self.first_at_or_above(v);
        if i < self.intervals.len() && self.intervals[i].lower().to_u128() == v {
            return Some(i);
        }
        if i > 0 && self.intervals[i - 1].upper().to_u128() >= v {
            return Some(i - 1);
        }
        assert forall|k: int| 0 <= k < self@.len() implies !(#[trigger] self@[k].0 <= v
            && v <= self@[k].1) by {
            if k > i {
                assert(self@[i as int].1 + 1 < self@[k].0);
            }
            if k < i - 1 {
                assert(self@[k].1 + 1 < self@[i - 1].0);
            }
        }
        None
    }
    /// Replaces the intervals at `[a, b)`, at most two of them, by `y`.
    fn replace_with(&mut self, a: usize, b: usize, y: Interval<T>)
        requires
            a <= b <= a + 2,
            b <= old(self)@.len(),
        ensures
            final(self)@ == spliced(old(self)@, a as int, b as int, seq![y@]),
    {
        let ghost s = self@;
        if b == a {
            self.intervals.insert(a, y);
        } else {
            self.intervals[a] = y;
            if b - a == 2 {
                self.intervals.remove(a + 1);
            }
        }
        assert(self@ =~= spliced(s, a as int, b as int, seq![y@]));
    }

    /// Adds `interval`, which fits at index `i` between two intervals,
    /// merging it with each of the two that it touches.
    fn insert_or_join_intervals(&mut self, interval: Interval<T>, i: usize)
        requires
            old(self).wf(),
            0 < i < old(self)@.len(),
            fits_at(old(self)@, i as int, interval@),
        ensures
            final(self).wf(),
            final(self).values() == old(self).values().union(span(interval@.0, interval@.1)),
    {
        let ghost s = self@;
        let ghost x = interval@;
        let n = self.intervals.len();
        assert(i < n);
        assert(s[i - 1].0 <= s[i - 1].1 && s[i as int].0 <= s[i as int].1);
        let next_extends = self.intervals[i].extends_lower(&interval);
        let prev_extends = self.intervals[i - 1].extends_upper(&interval);
        if next_extends && prev_extends {
            // the interval bridges the gap between its two neighbours
            let merged = Interval::ordered(self.intervals[i - 1].lower(), self.intervals[i].upper());
            proof {
                lemma_insert_merged(s, i as int, x, i - 1, i + 1, merged@);
            }
            self.replace_with(i - 1, i + 1, merged);
        } else if next_extends {
            let merged = Interval::ordered(interval.lower(), self.intervals[i].upper());
            proof {
                lemma_insert_merged(s, i as int, x, i as int, i + 1, merged@);
            }
            self.replace_with(i, i + 1, merged);
        } else if prev_extends {
            let merged = Interval::ordered(self.intervals[i - 1].lower(), interval.upper());
            proof {
                lemma_insert_merged(s, i as int, x, i - 1, i as int, merged@);
            }
            self.replace_with(i - 1, i, merged);
        } else {
            proof {
                lemma_insert_merged(s, i as int, x, i as int, i as int, x);
            }
            self.replace_with(i, i, interval);
        }
    }

    /// Adds `interval`, which fits at index `i` with no interval before it,
    /// merging it with the one after it where it touches it.
    fn insert_or_merge_with_next(&mut self, interval: Interval<T>, i: usize)
        requires
            old(self).wf(),
            i == 0 < old(self)@.len(),
            fits_at(old(self)@, i as int, interval@),
        ensures
            final(self).wf(),
            final(self).values() == old(self).values().union(span(interval@.0, interval@.1)),
    {
        let ghost s = self@;
        let ghost x = interval@;
        let n = self.intervals.len();
        assert(i < n);
        assert(s[i as int].0 <= s[i as int].1);
        if self.intervals[i].extends_lower(&interval) {
            let merged = Interval::ordered(interval.lower(), self.intervals[i].upper());
            proof {
                lemma_insert_merged(s, i as int, x, i as int, i + 1, merged@);
            }
            self.replace_with(i, i + 1, merged);
        } else {
            proof {
                lemma_insert_merged(s, i as int, x, i as int, i as int, x);
            }
            self.replace_with(i, i, interval);
        }
    }

    /// Adds `interval`, which fits at index `i` after the last interval,
    /// merging it with that one where it touches it.
    fn insert_or_merge_with_prev(&mut self, interval: Interval<T>, i: usize)
        requires
            old(self).wf(),
            0 < i == old(self)@.len(),
            fits_at(old(self)@, i as int, interval@),
        ensures
            final(self).wf(),
            final(self).values() == old(self).values().union(span(interval@.0, interval@.1)),
    {
        let ghost s = self@;
        let ghost x = interval@;
        assert(s[i - 1].0 <= s[i - 1].1);
        if self.intervals[i - 1].extends_upper(&interval) {
            let merged = Interval::ordered(self.intervals[i - 1].lower(), interval.upper());
            proof {
                lemma_insert_merged(s, i as int, x, i - 1, i as int, merged@);
            }
            self.replace_with(i - 1, i, merged);
        } else {
            proof {
                lemma_insert_merged(s, i as int, x, i as int, i as int, x);
            }
            self.replace_with(i, i, interval);
        }
    }

    /// Adds `interval` unless it overlaps the set; returns whether it did.
    fn insert(&mut self, interval: Interval<T>) -> (r: bool)
        requires
            old(self).wf(),
            interval.wf(),
        ensures
            final(self).wf(),
            r == old(self).values().disjoint(span(interval@.0, interval@.1)),
            r ==> final(self).values() == old(self).values().union(span(interval@.0, interval@.1)),
            !r ==> final(self)@ == old(self)@,
    {
        let ghost s = self@;
        let ghost x = interval@;
        let i = self.first_at_or_above(interval.lower().to_u128());
        let next_is = i < self.intervals.len();
        if next_is && self.intervals[i].overlaps(&interval) {
            assert(s[i as int].0 <= s[i as int].0 <= s[i as int].1);
            assert(values_of(s).contains(s[i as int].0) && span(x.0, x.1).contains(s[i as int].0));
            return false;
        }
        let prev_is = i > 0;
        if prev_is && self.intervals[i - 1].overlaps(&interval) {
            assert(s[i - 1].0 <= x.0 <= s[i - 1].1);
            assert(values_of(s).contains(x.0) && span(x.0, x.1).contains(x.0));
            return false;
        }
        assert forall|v: int| #[trigger] values_of(s).contains(v) implies !span(x.0, x.1).contains(v) by {
            let k = choose|k: int| 0 <= k < s.len() && #[trigger] s[k].0 <= v && v <= s[k].1;
            if k > i {
                assert(s[i as int].1 + 1 < s[k].0);
            }
            if k < i - 1 {
                assert(s[k].1 + 1 < s[i - 1].0);
            }
        }
        if next_is && prev_is {
            self.insert_or_join_intervals(interval, i);
        } else if next_is {
            self.insert_or_merge_with_next(interval, i);
        } else if prev_is {
            self.insert_or_merge_with_prev(interval, i);
        } else {
            proof {
                lemma_insert_merged(s, i as int, x, i as int, i as int, x);
            }
            self.replace_with(i, i, interval);
        }
        true
    }

    /// Adds the values `[lower, upper]` unless one of them is in the set
    /// already; returns whether it did.
    pub fn insert_interval(&mut self, lower: T, upper: T) -> (r: bool)
        requires
            old(self).wf(),
            lower.id_int() <= upper.id_int(),
        ensures
            final(self).wf(),
            r == old(self).values().disjoint(span(lower.id_int(), upper.id_int())),
            r ==> final(self).values() == old(self).values().union(span(lower.id_int(), upper.id_int())),
            !r ==> final(self)@ == old(self)@,
    {
        let interval = Interval::ordered(lower, upper);
        self.insert(interval)
    }

    /// Adds `value` unless it is in the set already; returns whether it did.
    pub fn insert_value(&mut self, value: T) -> (r: bool)
        requires
            old(self).wf(),
        ensures
            final(self).wf(),
            r == !old(self).values().contains(value.id_int()),
            r ==> final(self).values() == old(self).values().insert(value.id_int()),
            !r ==> final(self)@ == old(self)@,
    {
        let interval = Interval::new_single_value_interval(value);
        let r = self.insert(interval);
        let ghost v = value.id_int();
        assert(span(v, v) =~= set![v]);
        assert(old(self).values().union(set![v]) =~= old(self).values().insert(v));
        if !r {
            assert(old(self).values().contains(v));
        }
        r
    }
    /// Takes out the interval with the smallest bounds and returns it;
    /// `EmptyPool` when the set is empty.
    pub fn remove_first_interval(&mut self) -> (r: Result<Interval<T>, IdError>)
        requires
            old(self).wf(),
        ensures
            final(self).wf(),
            old(self)@.len() == 0 <==> r is Err,
            r is Err ==> r == Err::<Interval<T>, IdError>(IdError::EmptyPool) && final(self)@ == old(self)@,
            r is Ok ==> {
                &&& r->Ok_0@ == old(self)@[0]
                &&& r->Ok_0.wf()
                &&& final(self)@ == old(self)@.subrange(1, old(self)@.len() as int)
                &&& final(self).values() == old(self).values().difference(
                    span(old(self)@[0].0, old(self)@[0].1),
                )
            },
    {
        if self.intervals.len() == 0 {
            return Err(IdError::EmptyPool);
        }
        let ghost s = self@;
        let first = self.intervals.remove(0);
        proof {
            lemma_splice(s, 0, 1, Seq::empty());
            assert(s.subrange(0, 1) =~= seq![s[0]]);
            lemma_values_single(s[0]);
            assert(spliced(s, 0, 1, Seq::empty()) =~= s.subrange(1, s.len() as int));
            assert(self@ =~= s.subrange(1, s.len() as int));
        }
        Ok(first)
    }

    /// Takes out the smallest value and returns it; `EmptyPool` when the
    /// set is empty.
    pub fn remove_first_value(&mut self) -> (r: Result<T, IdError>)
        requires
            old(self).wf(),
        ensures
            final(self).wf(),
            old(self)@.len() == 0 <==> r is Err,
            r is Err ==> r == Err::<T, IdError>(IdError::EmptyPool) && final(self)@ == old(self)@,
            r is Ok ==> {
                let v = r->Ok_0.id_int();
                &&& old(self).values().contains(v)
                &&& forall|w: int| #[trigger] old(self).values().contains(w) ==> v <= w
                &&& final(self).values() == old(self).values().remove(v)
            },
    {
        let ghost s = self@;
        let first = match self.remove_first_interval() {
            Ok(first) => first,
            Err(e) => {
                return Err(e);
            },
        };
        let first_value = first.lower();
        let ghost v = first_value.id_int();
        proof {
            first.lemma_in_type();
            lemma_trimmed(s[0], v, v);
            lemma_cut_value(s, 0, v);
            assert(s[0].0 <= v <= s[0].1);
            assert forall|w: int| #[trigger] values_of(s).contains(w) implies v <= w by {
                lemma_first_is_least(s, w);
            }
        }
        if first.lower().to_u128() != first.upper().to_u128() {
            let rest = Interval::ordered(T::from_u128(first_value.to_u128() + 1), first.upper());
            self.intervals.insert(0, rest);
            assert(self@ =~= spliced(s, 0, 1, trimmed(s[0], v, v)));
        } else {
            assert(self@ =~= spliced(s, 0, 1, trimmed(s[0], v, v)));
        }
        Ok(first_value)
    }

    /// Takes `value` out of the set; returns whether it was in it.
    pub fn remove_value(&mut self, value: T) -> (r: bool)
        requires
            old(self).wf(),
        ensures
            final(self).wf(),
            r == old(self).values().contains(value.id_int()),
            final(self).values() == old(self).values().remove(value.id_int()),
            !r ==> final(self)@ == old(self)@,
    {
        let ghost s = self@;
        let ghost v = value.id_int();
        let k = match self.find(value) {
            Some(k) => k,
            None => {
                assert(old(self).values().remove(v) =~= old(self).values());
                return false;
            },
        };
        let n = self.intervals.len();
        assert(k < n);
        let lower = self.intervals[k].lower();
        let upper = self.intervals[k].upper();
        let vv = value.to_u128();
        proof {
            self.lemma_in_type();
            lemma_cut_value(s, k as int, v);
            assert(s[k as int].0 <= v <= s[k as int].1);
        }
        if lower.to_u128() < vv && vv < upper.to_u128() {
            self.intervals[k] = Interval::ordered(lower, T::from_u128(vv - 1));
            self.intervals.insert(k + 1, Interval::ordered(T::from_u128(vv + 1), upper));
        } else if lower.to_u128() < vv {
            self.intervals[k] = Interval::ordered(lower, T::from_u128(vv - 1));
        } else if vv < upper.to_u128() {
            self.intervals[k] = Interval::ordered(T::from_u128(vv + 1), upper);
        } else {
            self.intervals.remove(k);
        }
        assert(self@ =~= spliced(s, k as int, k + 1, trimmed(s[k as int], v, v)));
        true
    }
    /// Takes the values `[lower, upper]` out of the set, those of them that
    /// are in it; taking out values that are not in it changes nothing.
    pub fn remove_interval(&mut self, lower: T, upper: T)
        requires
            old(self).wf(),
            lower.id_int() <= upper.id_int(),
        ensures
            final(self).wf(),
            final(self).values() == old(self).values().difference(
                span(lower.id_int(), upper.id_int()),
            ),
    {
        let ghost s = self@;
        let ghost lo = lower.id_int();
        let ghost hi = upper.id_int();
        let lo_u = lower.to_u128();
        let hi_u = upper.to_u128();
        proof {
            self.lemma_in_type();
            T::lemma_bounds(lower);
            T::lemma_bounds(upper);
            assert(s.subrange(0, 0) =~= Seq::<(int, int)>::empty());
            assert(bounds_of(Seq::<Interval<T>>::empty()) =~= Seq::<(int, int)>::empty());
            assert(values_of(Seq::<(int, int)>::empty()) =~= Set::<int>::empty());
            assert(Set::<int>::empty().difference(span(lo, hi)) =~= Set::<int>::empty());
        }
        let n = self.intervals.len();
        let mut kept: Vec<Interval<T>> = Vec::new();
        let mut k: usize = 0;
        while k < n
            invariant
                n == s.len(),
                k <= n,
                self@ == s,
                ranges_wf(s),
                forall|i: int| 0 <= i < s.len() ==> T::min_int() <= #[trigger] s[i].0 && s[i].1 <= T::max_int(),
                T::min_int() <= lo <= hi <= T::max_int(),
                lo_u == lo,
                hi_u == hi,
                ranges_wf(bounds_of(kept@)),
                values_of(bounds_of(kept@)) == values_of(s.subrange(0, k as int)).difference(span(lo, hi)),
                bounds_of(kept@).len() > 0 ==> k > 0 && bounds_of(kept@).last().1 <= s[k - 1].1,
            decreases n - k,
        {
            let ghost before = bounds_of(kept@);
            let ghost x = s[k as int];
            let iv_lower = self.intervals[k].lower();
            let iv_upper = self.intervals[k].upper();
            let a = iv_lower.to_u128();
            let b = iv_upper.to_u128();
            proof {
                assert(T::min_int() <= x.0 && x.1 <= T::max_int());
            }
            if b < lo_u || a > hi_u {
                kept.push(Interval::ordered(iv_lower, iv_upper));
            } else {
                if a < lo_u {
                    kept.push(Interval::ordered(iv_lower, T::from_u128(lo_u - 1)));
                }
                if b > hi_u {
                    kept.push(Interval::ordered(T::from_u128(hi_u + 1), iv_upper));
                }
            }
            proof {
                let m = trimmed(x, lo, hi);
                let t = bounds_of(kept@);
                assert(t =~= before + m);
                lemma_trimmed(x, lo, hi);
                if k > 0 {
                    assert(s[k - 1].1 + 1 < x.0);
                }
                let len = before.len() as int;
                if len > 0 && m.len() > 0 {
                    assert(m[0].0 >= x.0);
                }
                lemma_splice(before, len, len, m);
                assert(before.subrange(0, len) + m + before.subrange(len, len) =~= before + m);
                lemma_values_concat(before, m);
                let done = s.subrange(0, k as int);
                assert(s.subrange(0, k + 1) =~= done + seq![x]);
                lemma_values_concat(done, seq![x]);
                lemma_values_single(x);
                assert(values_of(t) =~= values_of(s.subrange(0, k + 1)).difference(span(lo, hi)));
                if t.len() > 0 {
                    if m.len() > 0 {
                        assert(m[m.len() - 1].1 <= x.1);
                    } else {
                        assert(x.0 <= x.1);
                    }
                }
            }
            k = k + 1;
        }
        self.intervals = kept;
        assert(s.subrange(0, n as int) =~= s);
    }
}

/// Taking the same interval out a second time changes nothing: the set, and
/// so its dump, is what taking it out once left.
pub proof fn lemma_remove_interval_idempotent<T: IdType>(
    first: Intervals<T>,
    once: Intervals<T>,
    twice: Intervals<T>,
    lower: int,
    upper: int,
)
    requires
        once.wf(),
        twice.wf(),
        once.values() == first.values().difference(span(lower, upper)),
        twice.values() == once.values().difference(span(lower, upper)),
    ensures
        twice@ == once@,
        ranges_text(twice@) == ranges_text(once@),
{
    assert(once.values().difference(span(lower, upper)) =~= once.values());
    lemma_canonical(twice@, once@);
}

} // verus!

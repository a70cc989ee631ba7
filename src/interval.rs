use std::cmp::Ordering;

use vstd::prelude::*;

use crate::error::IdError;
use crate::id_type::IdType;
use crate::text::{decimal, push_decimal};

verus! {

/// A closed range `[lower, upper]` of identifiers, with `lower <= upper`.
#[derive(Clone, Copy, Debug, Eq, Ord)]
pub struct Interval<T: IdType> {
    lower: T,
    upper: T,
}

impl<T: IdType> View for Interval<T> {
    type V = (int, int);

    closed spec fn view(&self) -> (int, int) {
        (self.lower.id_int(), self.upper.id_int())
    }
}

/// Intervals are ordered by lower bound, then by upper bound.
pub open spec fn interval_order(a: (int, int), b: (int, int)) -> Ordering {
    if a.0 < b.0 {
        Ordering::Less
    } else if a.0 > b.0 {
        Ordering::Greater
    } else if a.1 < b.1 {
        Ordering::Less
    } else if a.1 > b.1 {
        Ordering::Greater
    } else {
        Ordering::Equal
    }
}

impl<T: IdType> PartialEq for Interval<T> {
    fn eq(&self, other: &Self) -> (r: bool) {
        self.lower.to_u128() == other.lower.to_u128() && self.upper.to_u128() == other.upper.to_u128()
    }
}

impl<T: IdType> vstd::std_specs::cmp::PartialEqSpecImpl for Interval<T> {
    open spec fn obeys_eq_spec() -> bool {
        true
    }

    open spec fn eq_spec(&self, other: &Self) -> bool {
        self@ == other@
    }
}

impl<T: IdType> PartialOrd for Interval<T> {
    fn partial_cmp(&self, other: &Self) -> (r: Option<Ordering>) {
        let (a, b) = (self.lower.to_u128(), other.lower.to_u128());
        if a < b {
            return Some(Ordering::Less);
        }
        if a > b {
            return Some(Ordering::Greater);
        }
        let (c, d) = (self.upper.to_u128(), other.upper.to_u128());
        if c < d {
            Some(Ordering::Less)
        } else if c > d {
            Some(Ordering::Greater)
        } else {
            Some(Ordering::Equal)
        }
    }
}

impl<T: IdType> vstd::std_specs::cmp::PartialOrdSpecImpl for Interval<T> {
    open spec fn obeys_partial_cmp_spec() -> bool {
        true
    }

    open spec fn partial_cmp_spec(&self, other: &Self) -> Option<Ordering> {
        Some(interval_order(self@, other@))
    }
}

/// The text of an interval: `[v]` for a single value, `[lower,upper]` otherwise.
pub open spec fn interval_text(lo: int, hi: int) -> Seq<char> {
    if lo == hi {
        seq!['['] + decimal(lo as nat) + seq![']']
    } else {
        seq!['['] + decimal(lo as nat) + seq![','] + decimal(hi as nat) + seq![']']
    }
}

impl<T: IdType> Interval<T> {
    /// Bounds in order.
    pub open spec fn wf(&self) -> bool {
        self@.0 <= self@.1
    }

    /// The interval `[lower, upper]`; `MalformedRange` when `upper < lower`.
    pub fn new(lower: T, upper: T) -> (r: Result<Self, IdError>)
        ensures
            upper.id_int() < lower.id_int() <==> r is Err,
            r is Err ==> r == Err::<Self, IdError>(IdError::MalformedRange),
            r is Ok ==> r->Ok_0@ == (lower.id_int(), upper.id_int()) && r->Ok_0.wf(),
    {
        if upper.to_u128() < lower.to_u128() {
            Err(IdError::MalformedRange)
        } else {
            Ok(Interval { lower, upper })
        }
    }

    /// The interval `[lower, upper]` for bounds known to be in order.
    pub(crate) fn ordered(lower: T, upper: T) -> (r: Self)
        requires
            lower.id_int() <= upper.id_int(),
        ensures
            r@ == (lower.id_int(), upper.id_int()),
            r.wf(),
    {
        Interval { lower, upper }
    }

    /// Both bounds are values of the identifier type.
    pub proof fn lemma_in_type(&self)
        ensures
            T::min_int() <= self@.0 <= T::max_int(),
            T::min_int() <= self@.1 <= T::max_int(),
    {
        T::lemma_bounds(self.lower);
        T::lemma_bounds(self.upper);
    }

    /// The interval holding `value` alone.
    pub fn new_single_value_interval(value: T) -> (r: Self)
        ensures
            r@ == (value.id_int(), value.id_int()),
            r.wf(),
    {
        Interval { lower: value, upper: value }
    }

    pub fn lower(&self) -> (r: T)
        ensures
            r.id_int() == self@.0,
    {
        self.lower
    }

    pub fn upper(&self) -> (r: T)
        ensures
            r.id_int() == self@.1,
    {
        self.upper
    }

    /// `[v]` for a single value, `[lower,upper]` otherwise.
    pub fn dump(&self) -> (r: String)
        ensures
            r@ == interval_text(self@.0, self@.1),
    {
        let mut s = String::new();
        self.append_text(&mut s);
        s
    }

    /// Appends the text of the interval to `s`.
    pub fn append_text(&self, s: &mut String)
        ensures
            final(s)@ == old(s)@ + interval_text(self@.0, self@.1),
    {
        let lo = self.lower.to_u128();
        let hi = self.upper.to_u128();
        proof {
            reveal_strlit("[");
            reveal_strlit("]");
            reveal_strlit(",");
        }
        s.append("[");
        push_decimal(s, lo);
        if lo != hi {
            s.append(",");
            push_decimal(s, hi);
        }
        s.append("]");
        proof {
            assert(final(s)@ =~= old(s)@ + interval_text(self@.0, self@.1));
        }
    }

    pub fn contains_value(&self, value: T) -> (r: bool)
        ensures
            r == (self@.0 <= value.id_int() <= self@.1),
    {
        value.to_u128() >= self.lower.to_u128() && value.to_u128() <= self.upper.to_u128()
    }

    /// Whether the two closed ranges share a value.
    pub fn overlaps(&self, value: &Self) -> (r: bool)
        ensures
            r == (value@.1 >= self@.0 && value@.0 <= self@.1),
    {
        value.upper.to_u128() >= self.lower.to_u128() && value.lower.to_u128() <= self.upper.to_u128()
    }

    /// Whether `value` ends right below this interval.
    pub fn extends_lower(&self, value: &Self) -> (r: bool)
        ensures
            r == (value@.1 + 1 == self@.0),
    {
        proof {
            T::lemma_bounds(self.lower);
            T::lemma_bounds(value.upper);
        }
        let top = value.upper.to_u128();
        if top == T::max_value().to_u128() {
            return false;
        }
        top + 1 == self.lower.to_u128()
    }

    /// Whether `value` starts right above this interval.
    pub fn extends_upper(&self, value: &Self) -> (r: bool)
        ensures
            r == (value@.0 - 1 == self@.1),
    {
        proof {
            T::lemma_bounds(self.upper);
            T::lemma_bounds(value.lower);
        }
        let bottom = value.lower.to_u128();
        if bottom == T::min_value().to_u128() {
            return false;
        }
        bottom - 1 == self.upper.to_u128()
    }
}

} // verus!

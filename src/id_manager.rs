use vstd::prelude::*;

use crate::error::IdError;
use crate::id_type::IdType;
use crate::intervals::Intervals;
use crate::ranges::{lemma_canonical, ranges_text, ranges_wf, span, values_of};
use crate::reuse_policy::ReusePolicy;

verus! {

/// What a manager holds, as mathematical values.
pub struct ManagerView {
    /// The free identifiers, as sorted, disjoint, non-adjacent ranges.
    pub free: Seq<(int, int)>,
    pub policy: ReusePolicy,
    /// Where the cursor of the delayed-reuse policy stands.
    pub next: int,
    /// The smallest identifier served.
    pub min: int,
    /// The largest identifier served.
    pub max: int,
}

impl ManagerView {
    /// The free ranges are well formed and lie within `[min, max]`, which
    /// holds the cursor.
    pub open spec fn wf(self) -> bool {
        &&& ranges_wf(self.free)
        &&& self.min <= self.next <= self.max
        &&& self.free_set().subset_of(span(self.min, self.max))
    }

    /// The identifiers that are free.
    pub open spec fn free_set(self) -> Set<int> {
        values_of(self.free)
    }

    /// The identifiers that are handed out, or marked as used.
    pub open spec fn allocated(self) -> Set<int> {
        span(self.min, self.max).difference(self.free_set())
    }

    /// The number of identifiers served.
    pub open spec fn size(self) -> int {
        self.max - self.min + 1
    }

    /// The identifier after `v`, where `max` is followed by `min`.
    pub open spec fn step(self, v: int) -> int {
        if v == self.max {
            self.min
        } else {
            v + 1
        }
    }

    /// How many steps the cursor takes to reach `v`.
    pub open spec fn distance(self, v: int) -> int {
        if v >= self.next {
            v - self.next
        } else {
            v - self.next + self.size()
        }
    }

    /// `post` is this manager after it handed out `v`: the smallest free
    /// identifier under immediate reuse; under delayed reuse, the first
    /// free one that the cursor reaches, which then moves one step past it.
    pub open spec fn allocates(self, post: ManagerView, v: int) -> bool {
        &&& self.free_set().contains(v)
        &&& match self.policy {
            ReusePolicy::ReuseFast => forall|w: int| #[trigger] self.free_set().contains(w) ==> v <= w,
            ReusePolicy::ReuseSlow => forall|w: int|
                #[trigger] self.free_set().contains(w) ==> self.distance(v) <= self.distance(w),
        }
        &&& post.free_set() == self.free_set().remove(v)
        &&& post.next == (if self.policy == ReusePolicy::ReuseSlow {
            self.step(v)
        } else {
            self.next
        })
        &&& post.policy == self.policy
        &&& post.min == self.min
        &&& post.max == self.max
    }

    /// `post` is this manager with the free identifiers `free` and all else kept.
    pub open spec fn with_free(self, post: ManagerView, free: Set<int>) -> bool {
        &&& post.free_set() == free
        &&& post.next == self.next
        &&& post.policy == self.policy
        &&& post.min == self.min
        &&& post.max == self.max
    }
}

/// Hands out identifiers of type `T` from `[min_id, max_id]` under a reuse
/// policy, and takes them back.
pub struct IdManager<T: IdType> {
    free_ids: Intervals<T>,
    reuse_policy: ReusePolicy,
    next_to_allocate: T,
    min_id: T,
    max_id: T,
}

impl<T: IdType> View for IdManager<T> {
    type V = ManagerView;

    closed spec fn view(&self) -> ManagerView {
        ManagerView {
            free: self.free_ids@,
            policy: self.reuse_policy,
            next: self.next_to_allocate.id_int(),
            min: self.min_id.id_int(),
            max: self.max_id.id_int(),
        }
    }
}

impl<T: IdType> IdManager<T> {
    pub open spec fn wf(&self) -> bool {
        self@.wf()
    }

    /// A manager over the whole range of `T`, with every identifier free.
    pub fn new(reuse_policy: ReusePolicy) -> (r: Self)
        ensures
            r.wf(),
            r@.free_set() == span(T::min_int(), T::max_int()),
            r@.free == seq![(T::min_int(), T::max_int())],
            r@.policy == reuse_policy,
            r@.next == T::min_int(),
            r@.min == T::min_int(),
            r@.max == T::max_int(),
    {
        let min_id = T::min_value();
        let max_id = T::max_value();
        proof {
            T::lemma_bounds(min_id);
        }
        Self::build(reuse_policy, min_id, max_id)
    }

    /// A manager over `[min_id, max_id]`, with every identifier free;
    /// `MalformedRange` when `max_id < min_id`.
    pub fn new_limited_range(reuse_policy: ReusePolicy, min_id: T, max_id: T) -> (r: Result<
        Self,
        IdError,
    >)
        ensures
            max_id.id_int() < min_id.id_int() <==> r is Err,
            r is Err ==> r == Err::<Self, IdError>(IdError::MalformedRange),
            r is Ok ==> {
                let m = r->Ok_0;
                &&& m.wf()
                &&& m@.free_set() == span(min_id.id_int(), max_id.id_int())
                &&& m@.free == seq![(min_id.id_int(), max_id.id_int())]
                &&& m@.policy == reuse_policy
                &&& m@.next == min_id.id_int()
                &&& m@.min == min_id.id_int()
                &&& m@.max == max_id.id_int()
            },
    {
        if max_id.to_u128() < min_id.to_u128() {
            return Err(IdError::MalformedRange);
        }
        Ok(Self::build(reuse_policy, min_id, max_id))
    }

    fn build(reuse_policy: ReusePolicy, min_id: T, max_id: T) -> (r: Self)
        requires
            min_id.id_int() <= max_id.id_int(),
        ensures
            r.wf(),
            r@.free_set() == span(min_id.id_int(), max_id.id_int()),
            r@.free == seq![(min_id.id_int(), max_id.id_int())],
            r@.policy == reuse_policy,
            r@.next == min_id.id_int(),
            r@.min == min_id.id_int(),
            r@.max == max_id.id_int(),
    {
        let mut manager = IdManager {
            free_ids: Intervals::new(),
            reuse_policy,
            next_to_allocate: min_id,
            min_id,
            max_id,
        };
        let ghost lo = min_id.id_int();
        let ghost hi = max_id.id_int();
        manager.free_ids.insert_interval(min_id, max_id);
        proof {
            assert(Set::<int>::empty().union(span(lo, hi)) =~= span(lo, hi));
            let one = seq![(lo, hi)];
            crate::ranges::lemma_values_single((lo, hi));
            lemma_canonical(manager@.free, one);
        }
        manager
    }
    /// The free identifiers, as `Intervals::dump` writes them.
    pub fn dump(&self) -> (r: String)
        ensures
            r@ == ranges_text(self@.free),
    {
        self.free_ids.dump()
    }

    /// Whether an identifier is free.
    pub fn can_allocate(&self) -> (r: bool)
        requires
            self.wf(),
        ensures
            r == (self@.free_set() != Set::<int>::empty()),
            r == (self@.free.len() > 0),
    {
        !self.free_ids.is_empty()
    }

    /// The identifier after `id`, where `max_id` is followed by `min_id`.
    fn increment_id(&self, id: T) -> (r: T)
        requires
            self.wf(),
            self@.min <= id.id_int() <= self@.max,
        ensures
            r.id_int() == self@.step(id.id_int()),
    {
        proof {
            T::lemma_bounds(self.max_id);
            T::lemma_bounds(id);
        }
        if id.to_u128() == self.max_id.to_u128() {
            self.min_id
        } else {
            T::from_u128(id.to_u128() + 1)
        }
    }

    /// Hands out a free identifier, chosen by the reuse policy;
    /// `PoolExhausted` when none is free.
    pub fn allocate(&mut self) -> (r: Result<T, IdError>)
        requires
            old(self).wf(),
        ensures
            final(self).wf(),
            old(self)@.free_set() == Set::<int>::empty() <==> r is Err,
            r is Err ==> r == Err::<T, IdError>(IdError::PoolExhausted) && final(self)@ == old(self)@,
            r is Ok ==> old(self)@.allocates(final(self)@, r->Ok_0.id_int()),
    {
        if self.free_ids.is_empty() {
            return Err(IdError::PoolExhausted);
        }
        let ghost pre = self@;
        match self.reuse_policy {
            ReusePolicy::ReuseFast => {
                return match self.free_ids.remove_first_value() {
                    Ok(id) => Ok(id),
                    Err(_) => Err(IdError::PoolExhausted),
                };
            },
            ReusePolicy::ReuseSlow => {},
        }
        let ghost w0 = pre.free[0].0;
        let ghost mut steps: int = 0;
        proof {
            assert(pre.free[0].0 <= w0 <= pre.free[0].1);
            assert(pre.free_set().contains(w0));
        }
        loop
            invariant
                pre == old(self)@,
                pre.wf(),
                pre.policy == ReusePolicy::ReuseSlow,
                self.wf(),
                self@.free == pre.free,
                self@.policy == pre.policy,
                self@.min == pre.min,
                self@.max == pre.max,
                0 <= steps < pre.size(),
                pre.distance(self@.next) == steps,
                pre.free_set().contains(w0),
                forall|w: int| #[trigger] pre.free_set().contains(w) ==> pre.distance(w) >= steps,
            decreases pre.size() - steps,
        {
            let candidate = self.next_to_allocate;
            let ghost c = candidate.id_int();
            if self.free_ids.remove_value(candidate) {
                self.next_to_allocate = self.increment_id(candidate);
                return Ok(candidate);
            }
            self.next_to_allocate = self.increment_id(candidate);
            proof {
                assert(w0 != c);
                assert(pre.min <= w0 <= pre.max);
                if pre.distance(w0) == steps {
                    assert(w0 == c);
                }
                assert forall|w: int| #[trigger] pre.free_set().contains(w) implies pre.distance(w)
                    >= steps + 1 by {
                    assert(pre.min <= w <= pre.max);
                    if pre.distance(w) == steps {
                        assert(w == c);
                    }
                }
                steps = steps + 1;
            }
        }
    }
    /// Takes `id` out of the free identifiers without handing it out;
    /// marking an identifier that is not free changes nothing.
    /// `OutOfRange` when `id` lies outside `[min_id, max_id]`.
    pub fn mark_value_as_used(&mut self, id: T) -> (r: Result<(), IdError>)
        requires
            old(self).wf(),
        ensures
            final(self).wf(),
            !(old(self)@.min <= id.id_int() <= old(self)@.max) <==> r is Err,
            r is Err ==> r == Err::<(), IdError>(IdError::OutOfRange) && final(self)@ == old(self)@,
            r is Ok ==> old(self)@.with_free(final(self)@, old(self)@.free_set().remove(id.id_int())),
    {
        if id.to_u128() < self.min_id.to_u128() || id.to_u128() > self.max_id.to_u128() {
            return Err(IdError::OutOfRange);
        }
        self.free_ids.remove_value(id);
        Ok(())
    }

    /// Takes `[lower, upper]` out of the free identifiers without handing
    /// them out; marking identifiers that are not free changes nothing.
    /// `MalformedRange` when `upper < lower`; `OutOfRange` when the interval
    /// reaches outside `[min_id, max_id]`.
    pub fn mark_interval_as_used(&mut self, lower: T, upper: T) -> (r: Result<(), IdError>)
        requires
            old(self).wf(),
        ensures
            final(self).wf(),
            upper.id_int() < lower.id_int() <==> r == Err::<(), IdError>(IdError::MalformedRange),
            lower.id_int() <= upper.id_int() && (lower.id_int() < old(self)@.min || upper.id_int()
                > old(self)@.max) <==> r == Err::<(), IdError>(IdError::OutOfRange),
            r is Ok <==> old(self)@.min <= lower.id_int() <= upper.id_int() <= old(self)@.max,
            r is Err ==> final(self)@ == old(self)@,
            r is Ok ==> old(self)@.with_free(
                final(self)@,
                old(self)@.free_set().difference(span(lower.id_int(), upper.id_int())),
            ),
    {
        if upper.to_u128() < lower.to_u128() {
            return Err(IdError::MalformedRange);
        }
        if lower.to_u128() < self.min_id.to_u128() || upper.to_u128() > self.max_id.to_u128() {
            return Err(IdError::OutOfRange);
        }
        self.free_ids.remove_interval(lower, upper);
        Ok(())
    }

    /// Returns `id` to the free identifiers. `OutOfRange` when it lies
    /// outside `[min_id, max_id]`; `NotAllocated` when it is free already.
    pub fn free(&mut self, id: T) -> (r: Result<(), IdError>)
        requires
            old(self).wf(),
        ensures
            final(self).wf(),
            !(old(self)@.min <= id.id_int() <= old(self)@.max) <==> r == Err::<(), IdError>(
                IdError::OutOfRange,
            ),
            old(self)@.min <= id.id_int() <= old(self)@.max && old(self)@.free_set().contains(
                id.id_int(),
            ) <==> r == Err::<(), IdError>(IdError::NotAllocated),
            r is Ok <==> old(self)@.allocated().contains(id.id_int()),
            r is Err ==> final(self)@ == old(self)@,
            r is Ok ==> old(self)@.with_free(final(self)@, old(self)@.free_set().insert(id.id_int())),
    {
        if id.to_u128() < self.min_id.to_u128() || id.to_u128() > self.max_id.to_u128() {
            return Err(IdError::OutOfRange);
        }
        if !self.free_ids.insert_value(id) {
            return Err(IdError::NotAllocated);
        }
        Ok(())
    }
}

/// Every identifier that a well-formed manager serves is free or handed
/// out, never both, and no identifier outside its range is free.
pub proof fn lemma_free_or_allocated(m: ManagerView, v: int)
    requires
        m.wf(),
    ensures
        m.min <= v <= m.max ==> m.free_set().contains(v) != m.allocated().contains(v),
        !(m.min <= v <= m.max) ==> !m.free_set().contains(v) && !m.allocated().contains(v),
{
}

/// Handing out an identifier and then returning it succeeds and leaves the
/// free identifiers, and so the dump, as they were, under either policy.
pub proof fn lemma_allocate_then_free(pre: ManagerView, mid: ManagerView, post: ManagerView, v: int)
    requires
        pre.wf(),
        mid.wf(),
        post.wf(),
        pre.allocates(mid, v),
        mid.with_free(post, mid.free_set().insert(v)),
    ensures
        mid.allocated().contains(v),
        post.free == pre.free,
        ranges_text(post.free) == ranges_text(pre.free),
{
    assert(pre.free_set().remove(v).insert(v) =~= pre.free_set());
    lemma_canonical(post.free, pre.free);
}

/// Under delayed reuse, while the free identifiers are exactly those from
/// the cursor up to `max`, allocation hands out the cursor's identifier and
/// moves the cursor one up, to `min` after `max`: a fresh manager hands out
/// its whole range in ascending order, then wraps round.
pub proof fn lemma_delayed_reuse_in_order(pre: ManagerView, post: ManagerView, v: int)
    requires
        pre.wf(),
        pre.policy == ReusePolicy::ReuseSlow,
        pre.free_set() == span(pre.next, pre.max),
        pre.allocates(post, v),
    ensures
        v == pre.next,
        post.free_set() == span(pre.next + 1, pre.max),
        post.next == (if pre.next == pre.max {
            pre.min
        } else {
            pre.next + 1
        }),
{
    assert(pre.free_set().contains(pre.next));
    assert(pre.free_set().remove(v) =~= span(pre.next + 1, pre.max));
}

} // verus!

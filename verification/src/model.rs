//! The mathematical model of the cache: its state as a sequence of slots, and
//! what a lookup and its resolution do to that state.
//!
//! Everything here is ghost code. The executable cache states its
//! contracts over these definitions.

use vstd::prelude::*;
use crate::slot::Slot;

verus! {

/// What one lookup asks of the slots.
///
/// A reference with a stable identity asks for that identity and for nothing
/// else. A reference without one asks the fingerprint matcher about each
/// slot's fingerprint; `verdicts(fp, v)` says that the matcher may answer `v`
/// for the fingerprint `fp`, where `Some(true)` is a definite match,
/// `Some(false)` a definite mismatch and `None` no decision.
#[verifier::reject_recursive_types(F)]
pub struct Query<F> {
    pub key: Option<u64>,
    pub verdicts: spec_fn(F, Option<bool>) -> bool,
}

impl<F> Query<F> {
    /// The matcher gives at most one answer for each fingerprint.
    pub open spec fn decided(self) -> bool {
        forall|fp: F, a: Option<bool>, b: Option<bool>|
            #[trigger] (self.verdicts)(fp, a) && #[trigger] (self.verdicts)(fp, b) ==> a == b
    }
}

/// The state of a cache: its slots in order, the bound it was made with, and
/// its epoch.
pub struct CacheState<T, F> {
    pub slots: Seq<Slot<T, F>>,
    pub max_slots: usize,
    pub epoch: u64,
}

impl<T, F> CacheState<T, F> {
    /// The state of a cache that has just been made.
    pub open spec fn empty(max_slots: usize) -> Self {
        CacheState { slots: Seq::empty(), max_slots, epoch: 0 }
    }

    /// The number of slots that the cache may hold. A miss always stores its
    /// value, so a bound of zero still leaves room for one slot.
    pub open spec fn capacity(self) -> nat {
        if self.max_slots == 0 {
            1
        } else {
            self.max_slots as nat
        }
    }

    /// The invariant of the cache.
    ///
    /// - The slots never outnumber the capacity.
    /// - No slot was confirmed later than the current epoch.
    /// - A slot written for a stable identity carries no fingerprint.
    /// - No two slots written for a stable identity share their identity.
    pub open spec fn wf(self) -> bool {
        &&& self.slots.len() <= self.capacity()
        &&& forall|i: int|
            0 <= i < self.slots.len() ==> (#[trigger] self.slots[i]).last_epoch <= self.epoch
        &&& forall|i: int|
            0 <= i < self.slots.len() && (#[trigger] self.slots[i]).stable@
                ==> self.slots[i].fingerprint is None
        &&& forall|i: int, j: int|
            0 <= i < j < self.slots.len() && (#[trigger] self.slots[i]).stable@
                && (#[trigger] self.slots[j]).stable@
                ==> self.slots[i].identity != self.slots[j].identity
    }

    /// Slot `c` is the coldest: no slot was confirmed earlier, and every slot
    /// before it was confirmed later.
    pub open spec fn is_coldest(self, c: int) -> bool {
        &&& 0 <= c < self.slots.len()
        &&& forall|j: int|
            0 <= j < self.slots.len()
                ==> self.slots[c].last_epoch <= (#[trigger] self.slots[j]).last_epoch
        &&& forall|j: int|
            0 <= j < c ==> self.slots[c].last_epoch < (#[trigger] self.slots[j]).last_epoch
    }

    /// The index of the coldest slot; 0 for a cache without slots.
    pub open spec fn coldest(self) -> int {
        if self.slots.len() == 0 {
            0
        } else {
            choose|c: int| self.is_coldest(c)
        }
    }

    /// Where a miss writes: behind the last slot while the bound has not been
    /// reached, over the coldest slot after that.
    pub open spec fn miss_index(self) -> int {
        if self.slots.len() < self.max_slots {
            self.slots.len() as int
        } else {
            self.coldest()
        }
    }

    /// Slot `i` may answer the query with a match.
    pub open spec fn may_hit(self, q: Query<F>, i: int) -> bool {
        match q.key {
            Some(k) => self.slots[i].identity == k,
            None => match self.slots[i].fingerprint {
                Some(fp) => (q.verdicts)(fp, Some(true)),
                None => false,
            },
        }
    }

    /// Slot `i` may answer the query with anything but a match.
    pub open spec fn may_pass(self, q: Query<F>, i: int) -> bool {
        match q.key {
            Some(k) => self.slots[i].identity != k,
            None => match self.slots[i].fingerprint {
                Some(fp) => (q.verdicts)(fp, Some(false)) || (q.verdicts)(fp, None),
                None => true,
            },
        }
    }

    /// The scan stops at slot `i`: it matches, and no slot before it did.
    pub open spec fn hit_at(self, q: Query<F>, i: int) -> bool {
        &&& 0 <= i < self.slots.len()
        &&& self.may_hit(q, i)
        &&& forall|j: int| 0 <= j < i ==> #[trigger] self.may_pass(q, j)
    }

    /// The scan runs to its end: no slot matches.
    pub open spec fn missed(self, q: Query<F>) -> bool {
        forall|j: int| 0 <= j < self.slots.len() ==> #[trigger] self.may_pass(q, j)
    }

    /// The state after a hit at slot `i`: the slot is stamped with the current
    /// epoch, and nothing else changes.
    pub open spec fn refreshed(self, i: int) -> Self {
        CacheState {
            slots: self.slots.update(i, Slot { last_epoch: self.epoch, ..self.slots[i] }),
            ..self
        }
    }

    /// The state after a miss that stores `slot`: the epoch advances by one and
    /// the slot is written at [`CacheState::miss_index`].
    pub open spec fn replaced(self, slot: Slot<T, F>) -> Self {
        let m = self.miss_index();
        CacheState {
            slots: if m == self.slots.len() {
                self.slots.push(slot)
            } else {
                self.slots.update(m, slot)
            },
            max_slots: self.max_slots,
            epoch: (self.epoch + 1) as u64,
        }
    }

    /// A lookup that hits slot `i`, leaves the cache in `post` and returns
    /// `identity` and `value`.
    pub open spec fn hit(self, q: Query<F>, i: int, post: Self, identity: u64, value: T) -> bool {
        &&& self.hit_at(q, i)
        &&& post == self.refreshed(i)
        &&& identity == self.slots[i].identity
        &&& value == self.slots[i].value
    }

    /// A lookup that misses, leaves the cache in `post` and returns `identity`
    /// and `value`.
    ///
    /// The slot it writes carries the new epoch. For a reference with a stable
    /// identity the slot is bound to that identity and has no fingerprint.
    pub open spec fn miss(self, q: Query<F>, post: Self, identity: u64, value: T) -> bool {
        let written = post.slots[self.miss_index()];
        &&& self.missed(q)
        &&& self.epoch < u64::MAX
        &&& post == self.replaced(written)
        &&& written.last_epoch == self.epoch + 1
        &&& written.identity == identity
        &&& written.value == value
        &&& match q.key {
            Some(k) => identity == k && written.fingerprint is None && written.stable@,
            None => !written.stable@,
        }
    }

    /// One lookup with its resolution, as a hit or as a miss.
    pub open spec fn step(self, q: Query<F>, post: Self, identity: u64, value: T) -> bool {
        ||| exists|i: int| self.hit(q, i, post, identity, value)
        ||| self.miss(q, post, identity, value)
    }

    /// Among the first `n` slots there is one that no earlier slot equals or
    /// undercuts and no slot among them undercuts.
    proof fn first_minimum(self, n: int) -> (c: int)
        requires
            0 < n <= self.slots.len(),
        ensures
            0 <= c < n,
            forall|j: int|
                0 <= j < n ==> self.slots[c].last_epoch <= (#[trigger] self.slots[j]).last_epoch,
            forall|j: int|
                0 <= j < c ==> self.slots[c].last_epoch < (#[trigger] self.slots[j]).last_epoch,
        decreases n,
    {
        if n == 1 {
            0
        } else {
            let before = self.first_minimum(n - 1);
            if self.slots[n - 1].last_epoch < self.slots[before].last_epoch {
                n - 1
            } else {
                before
            }
        }
    }

    /// A cache with a slot has a coldest slot, and [`CacheState::coldest`] is
    /// its index.
    pub proof fn coldest_exists(self)
        requires
            self.slots.len() > 0,
        ensures
            self.is_coldest(self.coldest()),
    {
        let c = self.first_minimum(self.slots.len() as int);
        assert(self.is_coldest(c));
    }

    /// A cache has no more than one coldest slot.
    pub proof fn coldest_unique(self, a: int, b: int)
        requires
            self.is_coldest(a),
            self.is_coldest(b),
        ensures
            a == b,
    {
        if a < b {
            assert(self.slots[b].last_epoch < self.slots[a].last_epoch);
            assert(self.slots[a].last_epoch <= self.slots[b].last_epoch);
        } else if b < a {
            assert(self.slots[a].last_epoch < self.slots[b].last_epoch);
            assert(self.slots[b].last_epoch <= self.slots[a].last_epoch);
        }
    }

    /// A miss writes inside the slots or directly behind them, and behind them
    /// only while the capacity is not exhausted.
    pub proof fn miss_index_in_range(self)
        ensures
            0 <= self.miss_index() <= self.slots.len(),
            self.miss_index() == self.slots.len() ==> self.slots.len() < self.capacity(),
            self.miss_index() < self.slots.len() ==> self.is_coldest(self.miss_index()),
    {
        if self.slots.len() > 0 {
            self.coldest_exists();
        }
    }

    /// A hit keeps the invariant.
    pub proof fn refreshed_wf(self, i: int)
        requires
            self.wf(),
            0 <= i < self.slots.len(),
        ensures
            self.refreshed(i).wf(),
    {
    }

    /// A miss keeps the invariant, whatever value it stores.
    pub proof fn replaced_wf(self, q: Query<F>, slot: Slot<T, F>)
        requires
            self.wf(),
            self.missed(q),
            self.epoch < u64::MAX,
            slot.last_epoch == self.epoch + 1,
            match q.key {
                Some(k) => slot.identity == k && slot.fingerprint is None && slot.stable@,
                None => !slot.stable@,
            },
        ensures
            self.replaced(slot).wf(),
    {
        self.miss_index_in_range();
        let post = self.replaced(slot);
        let m = self.miss_index();
        assert forall|i: int| 0 <= i < post.slots.len() implies
            (#[trigger] post.slots[i]).last_epoch <= post.epoch by {
            if i != m {
                assert(post.slots[i] == self.slots[i]);
            }
        }
        assert forall|i: int|
            0 <= i < post.slots.len() && (#[trigger] post.slots[i]).stable@ implies
            post.slots[i].fingerprint is None by {
            if i != m {
                assert(post.slots[i] == self.slots[i]);
            }
        }
        assert forall|i: int, j: int|
            0 <= i < j < post.slots.len() && (#[trigger] post.slots[i]).stable@ && (
            #[trigger] post.slots[j]).stable@ implies post.slots[i].identity
            != post.slots[j].identity by {
            if i != m {
                assert(post.slots[i] == self.slots[i]);
                assert(self.may_pass(q, i));
            }
            if j != m {
                assert(post.slots[j] == self.slots[j]);
                assert(self.may_pass(q, j));
            }
        }
    }

    /// The state after a run of misses that store `stored`, in order.
    pub open spec fn after_misses(self, stored: Seq<Slot<T, F>>) -> Self
        decreases stored.len(),
    {
        if stored.len() == 0 {
            self
        } else {
            self.after_misses(stored.drop_last()).replaced(stored.last())
        }
    }
}

} // verus!

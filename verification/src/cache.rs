//! The cache itself: a bounded vector of slots, scanned once per lookup.

use vstd::prelude::*;
use crate::font::FontRef;
use crate::model::{CacheState, Query};
use crate::slot::Slot;

verus! {

/// A bounded cache from font references to values of type `T`, which keeps a
/// fingerprint of type `F` for each font that has no stable identity.
///
/// The collaborators that the cache consumes are handed to each call: the
/// fingerprint matcher, the fingerprint computation, the identity source and
/// the factory of the value.
pub struct FontCache<T, F> {
    slots: Vec<Slot<T, F>>,
    max_slots: usize,
    epoch: u64,
}

impl<T, F> View for FontCache<T, F> {
    type V = CacheState<T, F>;

    closed spec fn view(&self) -> CacheState<T, F> {
        CacheState { slots: self.slots@, max_slots: self.max_slots, epoch: self.epoch }
    }
}

/// What a lookup of `font` asks of the slots when `matches` is the fingerprint
/// matcher: the font's stable identity if it has one, and otherwise the
/// answers that `matches` may give for the font and its remaining length.
pub open spec fn query_of<F, M>(font: &FontRef, matches: M) -> Query<F> where
    M: Fn(&F, &FontRef, usize) -> Option<bool>,
 {
    Query {
        key: font.key,
        verdicts: |fp: F, v: Option<bool>|
            call_ensures(matches, (&fp, font, font.remaining_len()), v),
    }
}

/// The matcher may be asked about every fingerprint that `state` holds.
pub open spec fn askable<T, F, M>(state: CacheState<T, F>, font: &FontRef, matches: M) -> bool where
    M: Fn(&F, &FontRef, usize) -> Option<bool>,
 {
    forall|i: int|
        0 <= i < state.slots.len() ==> match (#[trigger] state.slots[i]).fingerprint {
            Some(fp) => call_requires(matches, (&fp, font, font.remaining_len())),
            None => true,
        }
}

impl<T, F> FontCache<T, F> {
    /// Makes an empty cache that holds up to `max_slots` slots.
    pub fn new(max_slots: usize) -> (cache: Self)
        ensures
            cache@ == CacheState::<T, F>::empty(max_slots),
            cache@.wf(),
    {
        FontCache { slots: Vec::new(), max_slots, epoch: 0 }
    }

    /// Scans the slots once for `font`.
    ///
    /// A font with a stable identity matches the first slot that is bound to
    /// the same identity. A font without one matches the first slot for whose
    /// fingerprint `matches` answers `Some(true)`, given the font and its
    /// remaining length; a slot without a fingerprint is passed over unasked.
    ///
    /// Returns `(true, index)` for a match at `index`, and `(false, index)`
    /// where no slot matches, with the index at which a miss writes.
    pub fn find<M>(&self, font: &FontRef, matches: M) -> (r: (bool, usize)) where
        M: Fn(&F, &FontRef, usize) -> Option<bool>,

        requires
            self@.wf(),
            font.key is None ==> askable(self@, font, matches),
        ensures
            r.0 ==> self@.hit_at(query_of(font, matches), r.1 as int),
            !r.0 ==> self@.missed(query_of(font, matches)) && r.1 == self@.miss_index(),
    {
        let ghost q = query_of::<F, M>(font, matches);
        let len: usize = font.remaining();
        let mut lowest: usize = 0;
        let mut lowest_epoch: u64 = self.epoch;
        let mut i: usize = 0;
        while i < self.slots.len()
            invariant
                self@.wf(),
                font.key is None ==> askable(self@, font, matches),
                q == query_of::<F, M>(font, matches),
                len == font.remaining_len(),
                0 <= i <= self.slots.len(),
                forall|j: int| 0 <= j < i ==> #[trigger] self@.may_pass(q, j),
                lowest_epoch <= self.epoch,
                i == 0 ==> lowest == 0 && lowest_epoch == self.epoch,
                i > 0 ==> lowest < i && self.slots[lowest as int].last_epoch == lowest_epoch,
                forall|j: int| 0 <= j < i ==> lowest_epoch <= (#[trigger] self.slots[j]).last_epoch,
                forall|j: int|
                    0 <= j < lowest ==> lowest_epoch < (#[trigger] self.slots[j]).last_epoch,
            decreases self.slots.len() - i,
        {
            let slot = &self.slots[i];
            let matched: bool = match font.key {
                Some(k) => slot.identity == k,
                None => match &slot.fingerprint {
                    Some(fp) => match matches(fp, font, len) {
                        Some(true) => true,
                        _ => false,
                    },
                    None => false,
                },
            };
            if matched {
                assert(self@.may_hit(q, i as int));
                return (true, i);
            }
            assert(self@.may_pass(q, i as int));
            if slot.last_epoch < lowest_epoch {
                lowest_epoch = slot.last_epoch;
                lowest = i;
            }
            i += 1;
        }
        if self.slots.len() < self.max_slots {
            (false, self.slots.len())
        } else {
            proof {
                if self.slots.len() > 0 {
                    assert(self@.is_coldest(lowest as int));
                    self@.coldest_exists();
                    self@.coldest_unique(lowest as int, self@.coldest());
                }
            }
            (false, lowest)
        }
    }

    /// Returns the identity and the cached value for `font`, computing and
    /// storing the value if no slot matches.
    ///
    /// The slots are scanned as [`FontCache::find`] says.
    ///
    /// On a hit the matched slot is stamped with the current epoch, and its
    /// identity and value are returned; none of `fingerprint`, `mint` and
    /// `compute` is called.
    ///
    /// On a miss the epoch advances by one and `compute` makes the value. A
    /// font with a stable identity is stored under that identity, without a
    /// fingerprint. Any other font is stored under an identity from `mint`,
    /// with the fingerprint that `fingerprint` returns for it; where that is
    /// `None`, the slot has no fingerprint and will match no later reference.
    /// The slot is written behind the others while the bound allows it, and
    /// over the coldest slot after that.
    pub fn get<'a, M, P, N, C>(
        &'a mut self,
        font: &FontRef,
        matches: M,
        fingerprint: P,
        mint: N,
        compute: C,
    ) -> (r: (u64, &'a T)) where
        M: Fn(&F, &FontRef, usize) -> Option<bool>,
        P: FnOnce(&FontRef) -> Option<F>,
        N: FnOnce() -> u64,
        C: FnOnce(&FontRef) -> T,

        requires
            old(self)@.wf(),
            old(self)@.epoch < u64::MAX,
            call_requires(compute, (font,)),
            font.key is None ==> {
                &&& askable(old(self)@, font, matches)
                &&& call_requires(mint, ())
                &&& call_requires(fingerprint, (font,))
            },
        ensures
            final(self)@.wf(),
            old(self)@.step(query_of(font, matches), final(self)@, r.0, *r.1),
            final(self)@.epoch != old(self)@.epoch ==> {
                &&& call_ensures(compute, (font,), *r.1)
                &&& font.key is None ==> {
                    &&& call_ensures(mint, (), r.0)
                    &&& call_ensures(
                        fingerprint,
                        (font,),
                        final(self)@.slots[old(self)@.miss_index()].fingerprint,
                    )
                }
            },
    {
        let ghost pre = self@;
        let ghost q = query_of::<F, M>(font, matches);
        let (found, index) = self.find(font, matches);
        if found {
            let epoch: u64 = self.epoch;
            self.slots[index].last_epoch = epoch;
            proof {
                pre.refreshed_wf(index as int);
                assert(self@.slots =~= pre.refreshed(index as int).slots);
                let hit = pre.slots[index as int];
                assert(pre.hit(q, index as int, self@, hit.identity, hit.value));
            }
            let slot = &self.slots[index];
            (slot.identity, &slot.value)
        } else {
            self.epoch += 1;
            let value = compute(font);
            let slot = match font.key {
                Some(k) => Slot {
                    last_epoch: self.epoch,
                    identity: k,
                    fingerprint: None,
                    value,
                    stable: Ghost(true),
                },
                None => {
                    let identity: u64 = mint();
                    let print = fingerprint(font);
                    Slot {
                        last_epoch: self.epoch,
                        identity,
                        fingerprint: print,
                        value,
                        stable: Ghost(false),
                    }
                },
            };
            let identity: u64 = slot.identity;
            let ghost written = slot;
            proof {
                pre.miss_index_in_range();
                pre.replaced_wf(q, slot);
            }
            if index == self.slots.len() {
                self.slots.push(slot);
            } else {
                self.slots[index] = slot;
            }
            proof {
                assert(self@.slots =~= pre.replaced(written).slots);
                assert(self@.slots[pre.miss_index()] == written);
                assert(pre.miss(q, self@, identity, written.value));
            }
            (identity, &self.slots[index].value)
        }
    }

    /// The number of slots in use.
    pub fn len(&self) -> (n: usize)
        ensures
            n == self@.slots.len(),
    {
        self.slots.len()
    }

    /// The bound that the cache was made with.
    pub fn max_slots(&self) -> (n: usize)
        ensures
            n == self@.max_slots,
    {
        self.max_slots
    }

    /// The current epoch: the number of misses so far.
    pub fn epoch(&self) -> (e: u64)
        ensures
            e == self@.epoch,
    {
        self.epoch
    }

    /// The slot at `index`, or `None` where the cache has no such slot.
    pub fn slot(&self, index: usize) -> (s: Option<&Slot<T, F>>)
        ensures
            index < self@.slots.len() ==> s == Some(&self@.slots[index as int]),
            index >= self@.slots.len() ==> s is None,
    {
        if index < self.slots.len() {
            Some(&self.slots[index])
        } else {
            None
        }
    }
}

} // verus!

//! What holds of every cache, proved from the model.
//!
//! Each statement is about the pure transition that the executable cache
//! promises: one lookup takes a state `pre` to a state `post` and returns an
//! identity and a value.

use vstd::prelude::*;
use crate::model::{CacheState, Query};
use crate::slot::Slot;

verus! {

/// A lookup keeps the invariant of the cache, never removes a slot and never
/// changes the bound. With a bound of at least one the slots never outnumber
/// the bound.
pub proof fn lookup_keeps_invariant<T, F>(
    pre: CacheState<T, F>,
    q: Query<F>,
    post: CacheState<T, F>,
    identity: u64,
    value: T,
)
    requires
        pre.wf(),
        pre.step(q, post, identity, value),
    ensures
        post.wf(),
        post.max_slots == pre.max_slots,
        pre.slots.len() <= post.slots.len() <= pre.slots.len() + 1,
        pre.max_slots >= 1 ==> post.slots.len() <= pre.max_slots,
{
    pre.miss_index_in_range();
    if pre.miss(q, post, identity, value) {
        pre.replaced_wf(q, post.slots[pre.miss_index()]);
    } else {
        let i = choose|i: int| pre.hit(q, i, post, identity, value);
        pre.refreshed_wf(i);
    }
}

/// The epoch never decreases. A hit leaves it as it is, and a miss advances
/// it by exactly one.
pub proof fn epoch_advances_only_on_miss<T, F>(
    pre: CacheState<T, F>,
    q: Query<F>,
    post: CacheState<T, F>,
    identity: u64,
    value: T,
)
    requires
        pre.step(q, post, identity, value),
    ensures
        post.epoch >= pre.epoch,
        (exists|i: int| pre.hit(q, i, post, identity, value)) ==> post.epoch == pre.epoch,
        pre.miss(q, post, identity, value) ==> post.epoch == pre.epoch + 1,
        post.epoch == pre.epoch || post.epoch == pre.epoch + 1,
{
}

/// A lookup by stable identity looks at nothing but the identity: two
/// references that carry the same stable identity hit the same slots, miss
/// together and take the cache through the same steps, whatever their bytes
/// are and whatever a fingerprint matcher would say of them.
pub proof fn stable_identity_ignores_content<T, F>(
    pre: CacheState<T, F>,
    a: Query<F>,
    b: Query<F>,
    post: CacheState<T, F>,
    identity: u64,
    value: T,
)
    requires
        a.key is Some,
        a.key == b.key,
    ensures
        forall|i: int| pre.hit_at(a, i) <==> pre.hit_at(b, i),
        pre.missed(a) <==> pre.missed(b),
        pre.step(a, post, identity, value) <==> pre.step(b, post, identity, value),
{
    assert forall|i: int| pre.may_hit(a, i) == pre.may_hit(b, i) by {}
    assert forall|i: int| pre.may_pass(a, i) == pre.may_pass(b, i) by {}
    assert forall|i: int| pre.hit_at(a, i) <==> pre.hit_at(b, i) by {
        if pre.hit_at(a, i) {
            assert forall|j: int| 0 <= j < i implies #[trigger] pre.may_pass(b, j) by {
                assert(pre.may_pass(a, j));
            }
        }
        if pre.hit_at(b, i) {
            assert forall|j: int| 0 <= j < i implies #[trigger] pre.may_pass(a, j) by {
                assert(pre.may_pass(b, j));
            }
        }
    }
    assert(pre.missed(a) <==> pre.missed(b)) by {
        if pre.missed(a) {
            assert forall|j: int| 0 <= j < pre.slots.len() implies #[trigger] pre.may_pass(
                b,
                j,
            ) by {
                assert(pre.may_pass(a, j));
            }
        }
        if pre.missed(b) {
            assert forall|j: int| 0 <= j < pre.slots.len() implies #[trigger] pre.may_pass(
                a,
                j,
            ) by {
                assert(pre.may_pass(b, j));
            }
        }
    }
    if pre.step(a, post, identity, value) {
        if !pre.miss(a, post, identity, value) {
            let i = choose|i: int| pre.hit(a, i, post, identity, value);
            assert(pre.hit(b, i, post, identity, value));
        }
    }
    if pre.step(b, post, identity, value) {
        if !pre.miss(b, post, identity, value) {
            let i = choose|i: int| pre.hit(b, i, post, identity, value);
            assert(pre.hit(a, i, post, identity, value));
        }
    }
}

/// Two lookups in a row by the same stable identity return that identity and
/// the same value both times, and the second one is a hit: it leaves the epoch
/// and the number of slots as they are, so that the value is made at most
/// once.
pub proof fn repeated_stable_identity_hits<T, F>(
    pre: CacheState<T, F>,
    first: Query<F>,
    mid: CacheState<T, F>,
    identity1: u64,
    value1: T,
    second: Query<F>,
    post: CacheState<T, F>,
    identity2: u64,
    value2: T,
)
    requires
        first.key is Some,
        first.key == second.key,
        pre.step(first, mid, identity1, value1),
        mid.step(second, post, identity2, value2),
    ensures
        identity1 == first.key->0,
        identity2 == identity1,
        value2 == value1,
        exists|i: int| mid.hit(second, i, post, identity2, value2),
        !mid.missed(second),
        post.epoch == mid.epoch,
        post.slots.len() == mid.slots.len(),
{
    let k = first.key->0;
    pre.miss_index_in_range();
    // The slot that served the first lookup.
    let served = if pre.miss(first, mid, identity1, value1) {
        pre.miss_index()
    } else {
        choose|i: int| pre.hit(first, i, mid, identity1, value1)
    };
    assert(0 <= served < mid.slots.len());
    assert(mid.slots[served].identity == k);
    assert(mid.slots[served].value == value1);
    assert forall|j: int| 0 <= j < served implies mid.slots[j].identity != k by {
        assert(pre.may_pass(first, j));
    }
    assert(mid.may_hit(second, served));
    assert(!mid.may_pass(second, served));
    if mid.miss(second, post, identity2, value2) {
        assert(mid.may_pass(second, served));
    }
    let i = choose|i: int| mid.hit(second, i, post, identity2, value2);
    if i < served {
        assert(mid.slots[i].identity != k);
    } else if served < i {
        assert(mid.may_pass(second, served));
    }
    assert(i == served);
}

/// Two lookups in a row by references without a stable identity that are the
/// same to the matcher return the same identity and the same value, and the
/// second one is a hit, provided that the matcher is decided and that, where
/// the first lookup stored the font, the second reference matches the
/// fingerprint that was stored for it.
pub proof fn repeated_content_hits<T, F>(
    pre: CacheState<T, F>,
    first: Query<F>,
    mid: CacheState<T, F>,
    identity1: u64,
    value1: T,
    second: Query<F>,
    post: CacheState<T, F>,
    identity2: u64,
    value2: T,
)
    requires
        first.key is None,
        second.key is None,
        second.decided(),
        forall|fp: F, v: Option<bool>|
            #![trigger (first.verdicts)(fp, v)]
            #![trigger (second.verdicts)(fp, v)]
            (first.verdicts)(fp, v) == (second.verdicts)(fp, v),
        pre.step(first, mid, identity1, value1),
        mid.step(second, post, identity2, value2),
        pre.miss(first, mid, identity1, value1) ==> mid.may_hit(second, pre.miss_index()),
    ensures
        identity2 == identity1,
        value2 == value1,
        exists|i: int| mid.hit(second, i, post, identity2, value2),
        !mid.missed(second),
        post.epoch == mid.epoch,
        post.slots.len() == mid.slots.len(),
{
    pre.miss_index_in_range();
    let served = if pre.miss(first, mid, identity1, value1) {
        pre.miss_index()
    } else {
        choose|i: int| pre.hit(first, i, mid, identity1, value1)
    };
    assert(0 <= served < mid.slots.len());
    assert(mid.slots[served].identity == identity1);
    assert(mid.slots[served].value == value1);
    assert(mid.may_hit(second, served));
    assert forall|j: int| 0 <= j < served implies !mid.may_hit(second, j) by {
        assert(pre.may_pass(first, j));
        assert(mid.slots[j].fingerprint == pre.slots[j].fingerprint);
        if let Some(fp) = pre.slots[j].fingerprint {
            assert((second.verdicts)(fp, Some(false)) || (second.verdicts)(fp, None));
        }
    }
    assert(!mid.may_pass(second, served));
    if mid.miss(second, post, identity2, value2) {
        assert(mid.may_pass(second, served));
    }
    let i = choose|i: int| mid.hit(second, i, post, identity2, value2);
    if served < i {
        assert(mid.may_pass(second, served));
    }
    assert(i == served);
}

/// A reference that the cache has not seen is stored by a miss, and the next
/// lookup of the same reference finds it: it returns the identity and the
/// value of the miss and makes no new value. For a reference without a stable
/// identity this asks that the matcher is decided and matches the reference
/// against the fingerprint that was stored for it.
pub proof fn stored_reference_is_found_again<T, F>(
    pre: CacheState<T, F>,
    q: Query<F>,
    mid: CacheState<T, F>,
    identity1: u64,
    value1: T,
    post: CacheState<T, F>,
    identity2: u64,
    value2: T,
)
    requires
        pre.miss(q, mid, identity1, value1),
        mid.step(q, post, identity2, value2),
        q.key is None ==> q.decided() && mid.may_hit(q, pre.miss_index()),
    ensures
        mid.epoch == pre.epoch + 1,
        identity2 == identity1,
        value2 == value1,
        exists|i: int| mid.hit(q, i, post, identity2, value2),
        post.epoch == mid.epoch,
{
    if q.key is Some {
        repeated_stable_identity_hits(
            pre,
            q,
            mid,
            identity1,
            value1,
            q,
            post,
            identity2,
            value2,
        );
    } else {
        repeated_content_hits(pre, q, mid, identity1, value1, q, post, identity2, value2);
    }
}

/// A slot without a fingerprint matches no reference that has no stable
/// identity, whatever the matcher would answer.
pub proof fn absent_fingerprint_never_matches<T, F>(state: CacheState<T, F>, q: Query<F>, i: int)
    requires
        q.key is None,
        state.slots[i].fingerprint is None,
    ensures
        !state.may_hit(q, i),
        state.may_pass(q, i),
        !state.hit_at(q, i),
{
}

/// A font that could not be fingerprinted keeps its slot to itself: after a
/// miss that stored no fingerprint, no reference without a stable identity
/// hits that slot, and while the bound has not been reached the next miss gets
/// a slot of its own and leaves the first one as it is.
pub proof fn unfingerprinted_fonts_stay_apart<T, F>(
    pre: CacheState<T, F>,
    first: Query<F>,
    mid: CacheState<T, F>,
    identity1: u64,
    value1: T,
    second: Query<F>,
    post: CacheState<T, F>,
    identity2: u64,
    value2: T,
)
    requires
        first.key is None,
        second.key is None,
        pre.miss(first, mid, identity1, value1),
        mid.slots[pre.miss_index()].fingerprint is None,
        mid.step(second, post, identity2, value2),
    ensures
        forall|i: int| mid.hit(second, i, post, identity2, value2) ==> i != pre.miss_index(),
        mid.miss(second, post, identity2, value2) && mid.slots.len() < mid.max_slots ==> {
            &&& mid.miss_index() != pre.miss_index()
            &&& post.slots.len() == mid.slots.len() + 1
            &&& post.slots[pre.miss_index()] == mid.slots[pre.miss_index()]
            &&& post.slots[mid.miss_index()].value == value2
        },
{
    pre.miss_index_in_range();
    mid.miss_index_in_range();
}

/// A miss adds a slot while the capacity allows it and keeps the number of
/// slots after that; a hit never changes it.
pub proof fn only_a_miss_below_capacity_adds_a_slot<T, F>(
    pre: CacheState<T, F>,
    q: Query<F>,
    post: CacheState<T, F>,
    identity: u64,
    value: T,
)
    requires
        pre.wf(),
        pre.step(q, post, identity, value),
    ensures
        pre.miss(q, post, identity, value) && pre.slots.len() < pre.capacity()
            ==> post.slots.len() == pre.slots.len() + 1,
        pre.miss(q, post, identity, value) && pre.slots.len() == pre.capacity()
            ==> post.slots.len() == pre.slots.len(),
        (exists|i: int| pre.hit(q, i, post, identity, value)) ==> post.slots.len()
            == pre.slots.len(),
{
    pre.miss_index_in_range();
}

/// Starting from an empty cache with a bound of at least one, a run of misses
/// leaves as many slots as there were misses, until the bound is reached, and
/// exactly as many slots as the bound allows from then on.
pub proof fn misses_fill_the_cache_up_to_its_bound<T, F>(max_slots: usize, stored: Seq<Slot<T, F>>)
    requires
        max_slots >= 1,
    ensures
        CacheState::<T, F>::empty(max_slots).after_misses(stored).max_slots == max_slots,
        CacheState::<T, F>::empty(max_slots).after_misses(stored).slots.len() == if stored.len()
            <= max_slots {
            stored.len()
        } else {
            max_slots as nat
        },
    decreases stored.len(),
{
    if stored.len() > 0 {
        misses_fill_the_cache_up_to_its_bound::<T, F>(max_slots, stored.drop_last());
        let before = CacheState::<T, F>::empty(max_slots).after_misses(stored.drop_last());
        before.miss_index_in_range();
    }
}

/// Once the bound is reached a miss overwrites the coldest slot, which is the
/// first among the slots that were confirmed at the earliest epoch, and leaves
/// every other slot as it is.
pub proof fn full_cache_evicts_the_coldest_slot<T, F>(
    pre: CacheState<T, F>,
    q: Query<F>,
    post: CacheState<T, F>,
    identity: u64,
    value: T,
)
    requires
        pre.slots.len() > 0,
        pre.slots.len() >= pre.max_slots,
        pre.miss(q, post, identity, value),
    ensures
        pre.is_coldest(pre.miss_index()),
        post.slots.len() == pre.slots.len(),
        post.slots[pre.miss_index()].value == value,
        post.slots[pre.miss_index()].identity == identity,
        forall|j: int|
            0 <= j < pre.slots.len() && j != pre.miss_index() ==> post.slots[j] == pre.slots[j],
{
    pre.miss_index_in_range();
}

} // verus!

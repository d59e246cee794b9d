//! One entry of the cache.

use vstd::prelude::*;

verus! {

/// One cache entry: a value bound to an identity, with the epoch at which the
/// entry was last confirmed.
///
/// `T` is the cached value and `F` the fingerprint type; the cache inspects
/// neither.
pub struct Slot<T, F> {
    /// The cache's epoch when this slot was written or last matched.
    pub last_epoch: u64,
    /// The font's stable identity, or the identity minted for it.
    pub identity: u64,
    /// The content fingerprint by which later references are recognised.
    /// Absent in a slot written for a stable identity, and in one whose font
    /// could not be fingerprinted: such a slot matches no content.
    pub fingerprint: Option<F>,
    /// The cached value.
    pub value: T,
    /// Whether the slot was written for a reference with a stable identity.
    pub stable: Ghost<bool>,
}

} // verus!

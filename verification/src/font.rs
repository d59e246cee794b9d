//! The font reference that the cache is asked about.

use vstd::prelude::*;

verus! {

/// A borrowed view of one font: the buffer that holds it, the offset at which
/// it starts, and the stable identity that the caller may have assigned to it.
///
/// A stable identity is trusted: two references that carry the same one are
/// taken to denote the same font, whatever their bytes.
pub struct FontRef<'a> {
    /// The bytes of the file or collection that holds the font.
    pub data: &'a [u8],
    /// Where in `data` the font begins.
    pub offset: u32,
    /// The caller-assigned stable identity, if the reference has one.
    pub key: Option<u64>,
}

impl<'a> FontRef<'a> {
    /// The number of bytes from the font's offset to the end of its buffer,
    /// zero where the offset lies beyond the buffer.
    pub open spec fn remaining_len(&self) -> usize {
        if self.offset <= self.data@.len() {
            (self.data@.len() - self.offset) as usize
        } else {
            0
        }
    }

    /// Computes [`FontRef::remaining_len`].
    pub fn remaining(&self) -> (len: usize)
        ensures
            len == self.remaining_len(),
    {
        let total: usize = self.data.len();
        let start: usize = self.offset as usize;
        if start <= total {
            total - start
        } else {
            0
        }
    }
}

} // verus!

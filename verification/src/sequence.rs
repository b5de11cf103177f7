//! The unbounded sequence: an infinite monotonically increasing raw-integer
//! source, mapped through a caller-supplied conversion capability into an
//! arbitrary output type. No prefix, no timestamp, no upper bound.

use vstd::prelude::*;

verus! {

/// A raw unsigned cursor starting at zero and incremented on every pull;
/// restartable only by constructing a fresh instance.
#[derive(Debug)]
pub struct UnboundedSequence {
    cursor: u128,
}

impl UnboundedSequence {
    /// The next raw value to be produced.
    pub closed spec fn cursor(&self) -> u128 {
        self.cursor
    }

    /// A fresh sequence, starting at zero.
    pub fn new() -> (r: Self)
        ensures
            r.cursor() == 0,
    {
        UnboundedSequence { cursor: 0 }
    }

    /// Pulls the next raw value: returns the cursor and advances it. The
    /// cursor is a 128-bit machine integer, so the one value it can never
    /// step past is its maximum.
    pub fn next_raw(&mut self) -> (r: u128)
        requires
            old(self).cursor() < u128::MAX,
        ensures
            r == old(self).cursor(),
            final(self).cursor() == old(self).cursor() + 1,
    {
        let r = self.cursor;
        self.cursor = self.cursor + 1;
        r
    }

    /// Pulls the next value through the caller's conversion capability: the
    /// raw cursor value is handed to `convert` and its result is returned.
    pub fn next_with<T, F: Fn(u128) -> T>(&mut self, convert: &F) -> (r: T)
        requires
            old(self).cursor() < u128::MAX,
            call_requires(*convert, (old(self).cursor(),)),
        ensures
            final(self).cursor() == old(self).cursor() + 1,
            call_ensures(*convert, (old(self).cursor(),), r),
    {
        let raw = self.next_raw();
        convert(raw)
    }
}

impl Default for UnboundedSequence {
    /// A fresh sequence, starting at zero.
    fn default() -> (r: Self)
        ensures
            r.cursor() == 0,
    {
        UnboundedSequence::new()
    }
}

} // verus!

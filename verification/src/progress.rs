//! The shared progress state, modelled.
//!
//! Every worker reports the bytes or items it finishes to one counter; the
//! traversal grows the discovered total while it runs and freezes it when it
//! ends. The invariant is that, at any stable snapshot, what has been
//! processed never exceeds what has been discovered.

use vstd::prelude::*;

verus! {

/// A progress counter: the discovered total and the processed amount, with
/// processed never past the total.
pub struct ProgressCounter {
    processed: u64,
    total: u64,
}

impl ProgressCounter {
    /// The amount processed so far.
    pub closed spec fn processed_spec(&self) -> u64 {
        self.processed
    }

    /// The total discovered so far.
    pub closed spec fn total_spec(&self) -> u64 {
        self.total
    }

    /// The invariant: processed never exceeds the discovered total.
    pub open spec fn wf(&self) -> bool {
        self.processed_spec() <= self.total_spec()
    }

    /// A fresh counter: nothing discovered, nothing processed.
    pub fn new() -> (c: ProgressCounter)
        ensures
            c.wf(),
            c.processed_spec() == 0,
            c.total_spec() == 0,
    {
        ProgressCounter { processed: 0, total: 0 }
    }

    /// Grow the discovered total, as the traversal reports another file.
    pub fn inc_length(&mut self, n: u64)
        requires
            old(self).wf(),
            old(self).total_spec() + n <= u64::MAX,
        ensures
            final(self).wf(),
            final(self).total_spec() == old(self).total_spec() + n,
            final(self).processed_spec() == old(self).processed_spec(),
    {
        self.total = self.total + n;
    }

    /// Record finished work. A worker only reports work the traversal has
    /// already counted, so the processed amount stays within the total.
    pub fn inc(&mut self, n: u64)
        requires
            old(self).wf(),
            old(self).processed_spec() + n <= old(self).total_spec(),
        ensures
            final(self).wf(),
            final(self).processed_spec() == old(self).processed_spec() + n,
            final(self).total_spec() == old(self).total_spec(),
    {
        self.processed = self.processed + n;
    }

    /// The amount processed so far.
    pub fn processed(&self) -> (r: u64)
        ensures
            r == self.processed_spec(),
    {
        self.processed
    }

    /// The total discovered so far.
    pub fn total(&self) -> (r: u64)
        ensures
            r == self.total_spec(),
    {
        self.total
    }

    /// Whether everything discovered has been processed.
    pub fn is_finished(&self) -> (r: bool)
        ensures
            r == (self.processed_spec() == self.total_spec()),
    {
        self.processed == self.total
    }
}

} // verus!

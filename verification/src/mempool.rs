//! The buffer workload of the memory-pool benchmarks.

use vstd::prelude::*;

verus! {

/// How many buffers the pool keeps.
pub const POOL_CAP: usize = 2048;

/// The capacity each buffer is created with.
pub const BUF_CAP: usize = 8192;

/// A fresh, empty buffer with room for `BUF_CAP` bytes.
pub fn allocate() -> (v: Vec<u8>)
    ensures
        v@ == Seq::<u8>::empty(),
{
    Vec::with_capacity(BUF_CAP)
}

/// A unit of work: it fills buffers with its byte.
pub struct Work {
    pub x: u8,
}

impl Work {
    pub fn new(x: u8) -> (w: Work)
        ensures
            w.x == x,
    {
        Work { x }
    }

    /// Sets every byte of `s` to the work's byte.
    pub fn fill(&mut self, s: &mut [u8])
        ensures
            *final(self) == *old(self),
            final(s)@ == Seq::new(old(s)@.len(), |i: int| old(self).x),
    {
        let mut i: usize = 0;
        while i < s.len()
            invariant
                i <= s@.len(),
                s@.len() == old(s)@.len(),
                forall|j: int| 0 <= j < i ==> s@[j] == self.x,
            decreases s@.len() - i,
        {
            s[i] = self.x;
            i = i + 1;
        }
        assert(s@ =~= Seq::new(old(s)@.len(), |i: int| self.x));
    }
}

} // verus!

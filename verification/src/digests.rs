//! The key workload of the hash-map benchmarks: digests made of one
//! repeated byte, a new byte for each digest.

use vstd::prelude::*;

verus! {

/// The length of a digest in bytes.
pub const DIGEST_SIZE: usize = 32;

/// A digest generator: its byte goes up by one with each digest.
pub struct Work {
    pub x: u8,
}

impl Work {
    pub fn new() -> (w: Work)
        ensures
            w.x == 0,
    {
        Work { x: 0 }
    }

    /// The digest of `DIGEST_SIZE` copies of the current byte; the byte then
    /// goes up by one, which must not pass 255.
    pub fn digest(&mut self) -> (d: [u8; 32])
        requires
            old(self).x < 255,
        ensures
            d@ == Seq::new(DIGEST_SIZE as nat, |i: int| old(self).x),
            final(self).x == old(self).x + 1,
    {
        let mut digest = [0u8; 32];
        let mut i: usize = 0;
        while i < DIGEST_SIZE
            invariant
                i <= DIGEST_SIZE,
                digest@.len() == DIGEST_SIZE,
                forall|j: int| 0 <= j < i ==> digest@[j] == self.x,
            decreases DIGEST_SIZE - i,
        {
            digest[i] = self.x;
            i = i + 1;
        }
        assert(digest@ =~= Seq::new(DIGEST_SIZE as nat, |i: int| self.x));
        self.x = self.x + 1;
        digest
    }
}

/// Digests of different bytes differ: as the byte only goes up, every
/// digest a generator gives is new.
pub proof fn lemma_digests_differ(a: u8, b: u8)
    requires
        a != b,
    ensures
        Seq::new(DIGEST_SIZE as nat, |i: int| a) != Seq::new(DIGEST_SIZE as nat, |i: int| b),
{
    assert(Seq::new(DIGEST_SIZE as nat, |i: int| a)[0] == a);
    assert(Seq::new(DIGEST_SIZE as nat, |i: int| b)[0] == b);
}

} // verus!

//! Big-endian integer encoding (through `byteorder`) and byte-buffer helpers.

use byteorder::{BigEndian, ByteOrder};
use vstd::prelude::*;

verus! {

/// The four big-endian bytes of the two's-complement form of `n`.
pub open spec fn spec_be_i32(n: i32) -> Seq<u8> {
    let u = n as u32;
    seq![(u >> 24u32) as u8, (u >> 16u32) as u8, (u >> 8u32) as u8, u as u8]
}

/// The `i32` whose big-endian two's-complement bytes are `b[0..4]`.
pub open spec fn spec_i32_from_be(b: Seq<u8>) -> i32 {
    (((b[0] as u32) << 24u32) | ((b[1] as u32) << 16u32) | ((b[2] as u32) << 8u32) | (b[3] as u32))
        as i32
}

/// `byteorder::BigEndian::write_i32`, called on a four-byte buffer: the
/// buffer receives the big-endian bytes of `n` (the crate copies
/// `n.to_be_bytes()` into it).
#[verifier::external_body]
fn be_bytes_of_i32(n: i32) -> (b: [u8; 4])
    ensures
        b@ == spec_be_i32(n),
{
    let mut buf = [0u8; 4];
    BigEndian::write_i32(&mut buf, n);
    buf
}

/// `byteorder::BigEndian::read_i32`: the crate reads the first four bytes
/// with `i32::from_be_bytes`; it panics on fewer than four, which `requires`
/// rules out.
#[verifier::external_body]
fn i32_of_be_bytes(b: &[u8]) -> (n: i32)
    requires
        b@.len() >= 4,
    ensures
        n == spec_i32_from_be(b@),
{
    BigEndian::read_i32(b)
}

/// Reading back the four bytes written for `n` gives `n`.
pub proof fn lemma_be_i32_roundtrip(n: i32)
    ensures
        spec_i32_from_be(spec_be_i32(n)) == n,
{
    let u = n as u32;
    let b = spec_be_i32(n);
    assert(b[0] == (u >> 24u32) as u8);
    assert(b[1] == (u >> 16u32) as u8);
    assert(b[2] == (u >> 8u32) as u8);
    assert(b[3] == u as u8);
    assert(((((u >> 24u32) as u8) as u32) << 24u32) | ((((u >> 16u32) as u8) as u32) << 16u32) | ((((
    u >> 8u32) as u8) as u32) << 8u32) | ((u as u8) as u32) == u) by (bit_vector);
    assert((n as u32) as i32 == n) by (bit_vector);
}

/// Appends the big-endian bytes of `n` to `buf`.
pub fn push_i32_be(buf: &mut Vec<u8>, n: i32)
    ensures
        final(buf)@ == old(buf)@ + spec_be_i32(n),
{
    let b = be_bytes_of_i32(n);
    buf.push(b[0]);
    buf.push(b[1]);
    buf.push(b[2]);
    buf.push(b[3]);
    assert(final(buf)@ =~= old(buf)@ + spec_be_i32(n));
}

/// Reads a big-endian `i32` from the first four bytes of `b`.
pub fn read_i32_be(b: &[u8]) -> (n: i32)
    requires
        b@.len() >= 4,
    ensures
        n == spec_i32_from_be(b@),
{
    i32_of_be_bytes(b)
}

/// Appends all of `data` to `buf`.
pub fn push_all(buf: &mut Vec<u8>, data: &[u8])
    ensures
        final(buf)@ == old(buf)@ + data@,
{
    let ghost start = buf@;
    let mut i: usize = 0;
    while i < data.len()
        invariant
            i <= data@.len(),
            buf@ == start + data@.take(i as int),
        decreases data@.len() - i,
    {
        buf.push(data[i]);
        i = i + 1;
        assert(buf@ =~= start + data@.take(i as int));
    }
    assert(data@.take(i as int) =~= data@);
}

} // verus!

//! Big-endian integers and fixed-size byte strings as they travel on the wire.
use vstd::prelude::*;

verus! {

/// The big-endian value of two bytes.
pub open spec fn u16_of_be(b: Seq<u8>) -> u16 {
    ((b[0] as u16) << 8u16) | (b[1] as u16)
}

/// The big-endian value of four bytes.
pub open spec fn u32_of_be(b: Seq<u8>) -> u32 {
    ((b[0] as u32) << 24u32) | ((b[1] as u32) << 16u32) | ((b[2] as u32) << 8u32) | (b[3] as u32)
}

/// The big-endian value of eight bytes.
pub open spec fn u64_of_be(b: Seq<u8>) -> u64 {
    ((u32_of_be(b) as u64) << 32u64) | (u32_of_be(b.subrange(4, 8)) as u64)
}

/// The two big-endian bytes of a value.
pub open spec fn be_of_u16(v: u16) -> Seq<u8> {
    seq![(v >> 8u16) as u8, v as u8]
}

/// The four big-endian bytes of a value.
pub open spec fn be_of_u32(v: u32) -> Seq<u8> {
    seq![(v >> 24u32) as u8, (v >> 16u32) as u8, (v >> 8u32) as u8, v as u8]
}

/// The eight big-endian bytes of a value.
pub open spec fn be_of_u64(v: u64) -> Seq<u8> {
    be_of_u32((v >> 32u64) as u32) + be_of_u32(v as u32)
}

pub proof fn lemma_u16_round_trip(v: u16)
    ensures
        u16_of_be(be_of_u16(v)) == v,
{
    let b = be_of_u16(v);
    assert(((((v >> 8u16) as u8) as u16) << 8u16) | ((v as u8) as u16) == v) by (bit_vector);
}

pub proof fn lemma_u32_round_trip(v: u32)
    ensures
        u32_of_be(be_of_u32(v)) == v,
{
    let b = be_of_u32(v);
    assert(((((v >> 24u32) as u8) as u32) << 24u32) | ((((v >> 16u32) as u8) as u32) << 16u32)
        | ((((v >> 8u32) as u8) as u32) << 8u32) | ((v as u8) as u32) == v) by (bit_vector);
}

pub proof fn lemma_u64_round_trip(v: u64)
    ensures
        u64_of_be(be_of_u64(v)) == v,
{
    let hi = (v >> 32u64) as u32;
    let lo = v as u32;
    lemma_u32_round_trip(hi);
    lemma_u32_round_trip(lo);
    assert(be_of_u64(v).subrange(0, 4) =~= be_of_u32(hi));
    assert(be_of_u64(v).subrange(4, 8) =~= be_of_u32(lo));
    assert(u32_of_be(be_of_u64(v)) == u32_of_be(be_of_u64(v).subrange(0, 4)));
    assert((((((v >> 32u64) as u32) as u64) << 32u64) | ((v as u32) as u64)) == v) by (bit_vector);
}

pub proof fn lemma_i32_round_trip(v: i32)
    ensures
        (v as u32) as i32 == v,
{
    assert((v as u32) as i32 == v) by (bit_vector);
}

pub proof fn lemma_i64_round_trip(v: i64)
    ensures
        (v as u64) as i64 == v,
{
    assert((v as u64) as i64 == v) by (bit_vector);
}

/// Reads the big-endian `u16` at `off`.
pub fn read_u16(b: &[u8], off: usize) -> (r: u16)
    requires
        off + 2 <= b@.len(),
    ensures
        r == u16_of_be(b@.subrange(off as int, off + 2)),
{
    ((b[off] as u16) << 8u16) | (b[off + 1] as u16)
}

/// Reads the big-endian `u32` at `off`.
pub fn read_u32(b: &[u8], off: usize) -> (r: u32)
    requires
        off + 4 <= b@.len(),
    ensures
        r == u32_of_be(b@.subrange(off as int, off + 4)),
{
    ((b[off] as u32) << 24u32) | ((b[off + 1] as u32) << 16u32) | ((b[off + 2] as u32) << 8u32)
        | (b[off + 3] as u32)
}

/// Reads the big-endian `u64` at `off`.
pub fn read_u64(b: &[u8], off: usize) -> (r: u64)
    requires
        off + 8 <= b@.len(),
    ensures
        r == u64_of_be(b@.subrange(off as int, off + 8)),
{
    let _n = b.len();
    let hi = read_u32(b, off);
    let lo = read_u32(b, off + 4);
    assert(b@.subrange(off as int, off + 8).subrange(4, 8) =~= b@.subrange(off + 4, off + 8));
    assert(b@.subrange(off as int, off + 8).subrange(0, 4) =~= b@.subrange(off as int, off + 4));
    ((hi as u64) << 32u64) | (lo as u64)
}

/// Appends the big-endian bytes of `v`.
pub fn push_u16(out: &mut Vec<u8>, v: u16)
    ensures
        final(out)@ == old(out)@ + be_of_u16(v),
{
    out.push((v >> 8u16) as u8);
    out.push(v as u8);
    assert(final(out)@ =~= old(out)@ + be_of_u16(v));
}

/// Appends the big-endian bytes of `v`.
pub fn push_u32(out: &mut Vec<u8>, v: u32)
    ensures
        final(out)@ == old(out)@ + be_of_u32(v),
{
    out.push((v >> 24u32) as u8);
    out.push((v >> 16u32) as u8);
    out.push((v >> 8u32) as u8);
    out.push(v as u8);
    assert(final(out)@ =~= old(out)@ + be_of_u32(v));
}

/// Appends the big-endian bytes of `v`.
pub fn push_u64(out: &mut Vec<u8>, v: u64)
    ensures
        final(out)@ == old(out)@ + be_of_u64(v),
{
    push_u32(out, (v >> 32u64) as u32);
    push_u32(out, v as u32);
    assert(final(out)@ =~= old(out)@ + be_of_u64(v));
}

/// Appends every byte of `src`.
pub fn push_all(out: &mut Vec<u8>, src: &[u8])
    ensures
        final(out)@ == old(out)@ + src@,
{
    let mut i: usize = 0;
    while i < src.len()
        invariant
            i <= src@.len(),
            out@ == old(out)@ + src@.subrange(0, i as int),
        decreases src@.len() - i,
    {
        out.push(src[i]);
        i = i + 1;
        assert(out@ =~= old(out)@ + src@.subrange(0, i as int));
    }
    assert(src@.subrange(0, i as int) =~= src@);
}

/// Copies the 20 bytes at `off` into an array.
pub fn read_array20(b: &[u8], off: usize) -> (r: [u8; 20])
    requires
        off + 20 <= b@.len(),
    ensures
        r@ == b@.subrange(off as int, off + 20),
{
    let _n = b.len();
    let mut r = [0u8; 20];
    let mut i: usize = 0;
    while i < 20
        invariant
            i <= 20,
            off + 20 <= b@.len(),
            b@.len() == _n,
            forall|j: int| 0 <= j < i ==> r@[j] == b@[off + j],
        decreases 20 - i,
    {
        r[i] = b[off + i];
        i = i + 1;
    }
    assert(r@ =~= b@.subrange(off as int, off + 20));
    r
}

} // verus!

//! Fixed-width integer encodings used by the terrain file formats.
//!
//! Each encoding is given as a spec function over byte sequences, an
//! executable reader or writer that is proved to agree with it, and a
//! lemma that decoding an encoded value gives the value back.

use vstd::prelude::*;

verus! {

// ---------------------------------------------------------------------------
// Specifications
// ---------------------------------------------------------------------------

/// Little-endian `u16` stored at `off`.
pub open spec fn u16_from_le(s: Seq<u8>, off: int) -> u16 {
    (s[off] as u16) | ((s[off + 1] as u16) << 8u16)
}

/// Little-endian `u32` stored at `off`.
pub open spec fn u32_from_le(s: Seq<u8>, off: int) -> u32 {
    (s[off] as u32) | ((s[off + 1] as u32) << 8u32) | ((s[off + 2] as u32) << 16u32) | ((s[off
        + 3] as u32) << 24u32)
}

/// Little-endian `u64` stored at `off`.
pub open spec fn u64_from_le(s: Seq<u8>, off: int) -> u64 {
    (s[off] as u64) | ((s[off + 1] as u64) << 8u64) | ((s[off + 2] as u64) << 16u64) | ((s[off
        + 3] as u64) << 24u64) | ((s[off + 4] as u64) << 32u64) | ((s[off + 5] as u64) << 40u64)
        | ((s[off + 6] as u64) << 48u64) | ((s[off + 7] as u64) << 56u64)
}

/// Little-endian `i16` stored at `off` (two's complement).
pub open spec fn i16_from_le(s: Seq<u8>, off: int) -> i16 {
    u16_from_le(s, off) as i16
}

/// Big-endian `i16` stored at `off` (two's complement).
pub open spec fn i16_from_be(s: Seq<u8>, off: int) -> i16 {
    (((s[off] as u16) << 8u16) | (s[off + 1] as u16)) as i16
}

/// The two little-endian bytes of `v`.
pub open spec fn u16_to_le(v: u16) -> Seq<u8> {
    seq![(v & 0xffu16) as u8, (v >> 8u16) as u8]
}

/// The four little-endian bytes of `v`.
pub open spec fn u32_to_le(v: u32) -> Seq<u8> {
    seq![
        (v & 0xffu32) as u8,
        ((v >> 8u32) & 0xffu32) as u8,
        ((v >> 16u32) & 0xffu32) as u8,
        (v >> 24u32) as u8,
    ]
}

/// The eight little-endian bytes of `v`.
pub open spec fn u64_to_le(v: u64) -> Seq<u8> {
    seq![
        (v & 0xffu64) as u8,
        ((v >> 8u64) & 0xffu64) as u8,
        ((v >> 16u64) & 0xffu64) as u8,
        ((v >> 24u64) & 0xffu64) as u8,
        ((v >> 32u64) & 0xffu64) as u8,
        ((v >> 40u64) & 0xffu64) as u8,
        ((v >> 48u64) & 0xffu64) as u8,
        (v >> 56u64) as u8,
    ]
}

/// The two little-endian bytes of `v` (two's complement).
pub open spec fn i16_to_le(v: i16) -> Seq<u8> {
    u16_to_le(v as u16)
}

/// The two big-endian bytes of `v` (two's complement).
pub open spec fn i16_to_be(v: i16) -> Seq<u8> {
    seq![((v as u16) >> 8u16) as u8, ((v as u16) & 0xffu16) as u8]
}

/// `n` zero bytes.
pub open spec fn zeros(n: nat) -> Seq<u8> {
    Seq::new(n, |i: int| 0u8)
}

// ---------------------------------------------------------------------------
// Round-trip lemmas
// ---------------------------------------------------------------------------

pub proof fn lemma_u16_roundtrip(v: u16)
    ensures
        u16_from_le(u16_to_le(v), 0) == v,
{
    let b0 = (v & 0xffu16) as u8;
    let b1 = (v >> 8u16) as u8;
    assert(((b0 as u16) | ((b1 as u16) << 8u16)) == v) by (bit_vector)
        requires
            b0 == (v & 0xffu16) as u8,
            b1 == (v >> 8u16) as u8,
    ;
}

pub proof fn lemma_u32_roundtrip(v: u32)
    ensures
        u32_from_le(u32_to_le(v), 0) == v,
{
    let b0 = (v & 0xffu32) as u8;
    let b1 = ((v >> 8u32) & 0xffu32) as u8;
    let b2 = ((v >> 16u32) & 0xffu32) as u8;
    let b3 = (v >> 24u32) as u8;
    assert(((b0 as u32) | ((b1 as u32) << 8u32) | ((b2 as u32) << 16u32) | ((b3 as u32)
        << 24u32)) == v) by (bit_vector)
        requires
            b0 == (v & 0xffu32) as u8,
            b1 == ((v >> 8u32) & 0xffu32) as u8,
            b2 == ((v >> 16u32) & 0xffu32) as u8,
            b3 == (v >> 24u32) as u8,
    ;
}

pub proof fn lemma_u64_roundtrip(v: u64)
    ensures
        u64_from_le(u64_to_le(v), 0) == v,
{
    let b0 = (v & 0xffu64) as u8;
    let b1 = ((v >> 8u64) & 0xffu64) as u8;
    let b2 = ((v >> 16u64) & 0xffu64) as u8;
    let b3 = ((v >> 24u64) & 0xffu64) as u8;
    let b4 = ((v >> 32u64) & 0xffu64) as u8;
    let b5 = ((v >> 40u64) & 0xffu64) as u8;
    let b6 = ((v >> 48u64) & 0xffu64) as u8;
    let b7 = (v >> 56u64) as u8;
    assert(((b0 as u64) | ((b1 as u64) << 8u64) | ((b2 as u64) << 16u64) | ((b3 as u64)
        << 24u64) | ((b4 as u64) << 32u64) | ((b5 as u64) << 40u64) | ((b6 as u64) << 48u64) | ((
    b7 as u64) << 56u64)) == v) by (bit_vector)
        requires
            b0 == (v & 0xffu64) as u8,
            b1 == ((v >> 8u64) & 0xffu64) as u8,
            b2 == ((v >> 16u64) & 0xffu64) as u8,
            b3 == ((v >> 24u64) & 0xffu64) as u8,
            b4 == ((v >> 32u64) & 0xffu64) as u8,
            b5 == ((v >> 40u64) & 0xffu64) as u8,
            b6 == ((v >> 48u64) & 0xffu64) as u8,
            b7 == (v >> 56u64) as u8,
    ;
}

pub proof fn lemma_i16_le_roundtrip(v: i16)
    ensures
        i16_from_le(i16_to_le(v), 0) == v,
{
    let u = v as u16;
    lemma_u16_roundtrip(u);
    assert((u as i16) == v) by (bit_vector)
        requires
            u == v as u16,
    ;
}

pub proof fn lemma_i16_be_roundtrip(v: i16)
    ensures
        i16_from_be(i16_to_be(v), 0) == v,
{
    let u = v as u16;
    let b0 = (u >> 8u16) as u8;
    let b1 = (u & 0xffu16) as u8;
    assert((((b0 as u16) << 8u16) | (b1 as u16)) as i16 == v) by (bit_vector)
        requires
            u == v as u16,
            b0 == (u >> 8u16) as u8,
            b1 == (u & 0xffu16) as u8,
    ;
}

// ---------------------------------------------------------------------------
// Executable readers
// ---------------------------------------------------------------------------

pub fn read_u16_le(data: &[u8], off: usize) -> (v: u16)
    requires
        off + 2 <= data@.len(),
    ensures
        v == u16_from_le(data@, off as int),
{
    (data[off] as u16) | ((data[off + 1] as u16) << 8u16)
}

pub fn read_u32_le(data: &[u8], off: usize) -> (v: u32)
    requires
        off + 4 <= data@.len(),
    ensures
        v == u32_from_le(data@, off as int),
{
    (data[off] as u32) | ((data[off + 1] as u32) << 8u32) | ((data[off + 2] as u32) << 16u32) | ((
    data[off + 3] as u32) << 24u32)
}

pub fn read_u64_le(data: &[u8], off: usize) -> (v: u64)
    requires
        off + 8 <= data@.len(),
    ensures
        v == u64_from_le(data@, off as int),
{
    (data[off] as u64) | ((data[off + 1] as u64) << 8u64) | ((data[off + 2] as u64) << 16u64) | ((
    data[off + 3] as u64) << 24u64) | ((data[off + 4] as u64) << 32u64) | ((data[off + 5] as u64)
        << 40u64) | ((data[off + 6] as u64) << 48u64) | ((data[off + 7] as u64) << 56u64)
}

pub fn read_i16_le(data: &[u8], off: usize) -> (v: i16)
    requires
        off + 2 <= data@.len(),
    ensures
        v == i16_from_le(data@, off as int),
{
    read_u16_le(data, off) as i16
}

pub fn read_i16_be(data: &[u8], off: usize) -> (v: i16)
    requires
        off + 2 <= data@.len(),
    ensures
        v == i16_from_be(data@, off as int),
{
    (((data[off] as u16) << 8u16) | (data[off + 1] as u16)) as i16
}

// ---------------------------------------------------------------------------
// Executable writers
// ---------------------------------------------------------------------------

pub fn push_u16_le(buf: &mut Vec<u8>, v: u16)
    ensures
        final(buf)@ == old(buf)@ + u16_to_le(v),
{
    buf.push((v & 0xffu16) as u8);
    buf.push((v >> 8u16) as u8);
    assert(buf@ =~= old(buf)@ + u16_to_le(v));
}

pub fn push_u32_le(buf: &mut Vec<u8>, v: u32)
    ensures
        final(buf)@ == old(buf)@ + u32_to_le(v),
{
    buf.push((v & 0xffu32) as u8);
    buf.push(((v >> 8u32) & 0xffu32) as u8);
    buf.push(((v >> 16u32) & 0xffu32) as u8);
    buf.push((v >> 24u32) as u8);
    assert(buf@ =~= old(buf)@ + u32_to_le(v));
}

pub fn push_u64_le(buf: &mut Vec<u8>, v: u64)
    ensures
        final(buf)@ == old(buf)@ + u64_to_le(v),
{
    buf.push((v & 0xffu64) as u8);
    buf.push(((v >> 8u64) & 0xffu64) as u8);
    buf.push(((v >> 16u64) & 0xffu64) as u8);
    buf.push(((v >> 24u64) & 0xffu64) as u8);
    buf.push(((v >> 32u64) & 0xffu64) as u8);
    buf.push(((v >> 40u64) & 0xffu64) as u8);
    buf.push(((v >> 48u64) & 0xffu64) as u8);
    buf.push((v >> 56u64) as u8);
    assert(buf@ =~= old(buf)@ + u64_to_le(v));
}

pub fn push_i16_le(buf: &mut Vec<u8>, v: i16)
    ensures
        final(buf)@ == old(buf)@ + i16_to_le(v),
{
    push_u16_le(buf, v as u16);
}

pub fn push_i16_be(buf: &mut Vec<u8>, v: i16)
    ensures
        final(buf)@ == old(buf)@ + i16_to_be(v),
{
    let u = v as u16;
    buf.push((u >> 8u16) as u8);
    buf.push((u & 0xffu16) as u8);
    assert(buf@ =~= old(buf)@ + i16_to_be(v));
}

pub fn push_zeros(buf: &mut Vec<u8>, n: usize)
    ensures
        final(buf)@ == old(buf)@ + zeros(n as nat),
{
    let ghost start = buf@;
    let mut i: usize = 0;
    while i < n
        invariant
            i <= n,
            buf@ =~= start + zeros(i as nat),
        decreases n - i,
    {
        buf.push(0u8);
        i = i + 1;
        assert(buf@ =~= start + zeros(i as nat));
    }
}

} // verus!

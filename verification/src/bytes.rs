//! Fixed-width integer fields in on-disk byte layouts, little- and
//! big-endian.

use vstd::prelude::*;

verus! {

pub open spec fn le16(s: Seq<u8>, o: int) -> int {
    s[o] + s[o + 1] * 0x100
}

pub open spec fn le32(s: Seq<u8>, o: int) -> int {
    s[o] + s[o + 1] * 0x100 + s[o + 2] * 0x1_0000 + s[o + 3] * 0x100_0000
}

pub open spec fn le64(s: Seq<u8>, o: int) -> int {
    le32(s, o) + le32(s, o + 4) * 0x1_0000_0000
}

pub open spec fn be16(s: Seq<u8>, o: int) -> int {
    s[o] * 0x100 + s[o + 1]
}

pub open spec fn be24(s: Seq<u8>, o: int) -> int {
    s[o] * 0x1_0000 + s[o + 1] * 0x100 + s[o + 2]
}

pub open spec fn be32(s: Seq<u8>, o: int) -> int {
    s[o] * 0x100_0000 + s[o + 1] * 0x1_0000 + s[o + 2] * 0x100 + s[o + 3]
}

/// Little-endian `u16` at byte `o`.
pub fn rd_le16(s: &[u8], o: usize) -> (r: u16)
    requires
        o + 2 <= s@.len(),
    ensures
        r == le16(s@, o as int),
{
    s[o] as u16 + (s[o + 1] as u16) * 0x100
}

/// Little-endian `u32` at byte `o`.
pub fn rd_le32(s: &[u8], o: usize) -> (r: u32)
    requires
        o + 4 <= s@.len(),
    ensures
        r == le32(s@, o as int),
{
    s[o] as u32 + (s[o + 1] as u32) * 0x100 + (s[o + 2] as u32) * 0x1_0000 + (s[o + 3] as u32)
        * 0x100_0000
}

/// Little-endian `u64` at byte `o`.
pub fn rd_le64(s: &[u8], o: usize) -> (r: u64)
    requires
        o + 8 <= s@.len(),
    ensures
        r == le64(s@, o as int),
{
    let n = s.len();
    let lo = rd_le32(s, o) as u64;
    let hi = rd_le32(s, o + 4) as u64;
    lo + hi * 0x1_0000_0000
}

/// Big-endian `u16` at byte `o`.
pub fn rd_be16(s: &[u8], o: usize) -> (r: u16)
    requires
        o + 2 <= s@.len(),
    ensures
        r == be16(s@, o as int),
{
    (s[o] as u16) * 0x100 + s[o + 1] as u16
}

/// Big-endian 24-bit value at byte `o`.
pub fn rd_be24(s: &[u8], o: usize) -> (r: u32)
    requires
        o + 3 <= s@.len(),
    ensures
        r == be24(s@, o as int),
{
    (s[o] as u32) * 0x1_0000 + (s[o + 1] as u32) * 0x100 + s[o + 2] as u32
}

/// Big-endian `u32` at byte `o`.
pub fn rd_be32(s: &[u8], o: usize) -> (r: u32)
    requires
        o + 4 <= s@.len(),
    ensures
        r == be32(s@, o as int),
{
    (s[o] as u32) * 0x100_0000 + (s[o + 1] as u32) * 0x1_0000 + (s[o + 2] as u32) * 0x100
        + s[o + 3] as u32
}


/// The bytes of `v` in little-endian order.
pub open spec fn le32_bytes(v: u32) -> Seq<u8> {
    seq![(v % 0x100) as u8, ((v / 0x100) % 0x100) as u8, ((v / 0x1_0000) % 0x100) as u8, (v / 0x100_0000) as u8]
}

/// The bytes of `v` in little-endian order.
pub open spec fn le16_bytes(v: u16) -> Seq<u8> {
    seq![(v % 0x100) as u8, (v / 0x100) as u8]
}

/// The bytes of `v` in big-endian order.
pub open spec fn be32_bytes(v: u32) -> Seq<u8> {
    seq![(v / 0x100_0000) as u8, ((v / 0x1_0000) % 0x100) as u8, ((v / 0x100) % 0x100) as u8, (v % 0x100) as u8]
}

/// The bytes of `v` in big-endian order.
pub open spec fn be16_bytes(v: u16) -> Seq<u8> {
    seq![(v / 0x100) as u8, (v % 0x100) as u8]
}

/// `s` with the bytes of `w` written over it from offset `o`.
pub open spec fn splice(s: Seq<u8>, o: int, w: Seq<u8>) -> Seq<u8> {
    Seq::new(s.len(), |i: int| if o <= i < o + w.len() { w[i - o] } else { s[i] })
}

pub proof fn lemma_le32_round(v: u32)
    ensures
        le32(le32_bytes(v), 0) == v,
{
    let b = le32_bytes(v);
    assert(b[0] + b[1] * 0x100 + b[2] * 0x1_0000 + b[3] * 0x100_0000 == v) by (nonlinear_arith)
        requires
            b[0] == v % 0x100,
            b[1] == (v / 0x100) % 0x100,
            b[2] == (v / 0x1_0000) % 0x100,
            b[3] == v / 0x100_0000,
            0 <= v < 0x1_0000_0000,
    ;
}

pub proof fn lemma_le16_round(v: u16)
    ensures
        le16(le16_bytes(v), 0) == v,
{
}

pub proof fn lemma_be32_round(v: u32)
    ensures
        be32(be32_bytes(v), 0) == v,
{
    let b = be32_bytes(v);
    assert(b[0] * 0x100_0000 + b[1] * 0x1_0000 + b[2] * 0x100 + b[3] == v) by (nonlinear_arith)
        requires
            b[3] == v % 0x100,
            b[2] == (v / 0x100) % 0x100,
            b[1] == (v / 0x1_0000) % 0x100,
            b[0] == v / 0x100_0000,
            0 <= v < 0x1_0000_0000,
    ;
}

pub proof fn lemma_be16_round(v: u16)
    ensures
        be16(be16_bytes(v), 0) == v,
{
}

/// Store `v` little-endian at byte `o`.
pub fn wr_le32(s: &mut [u8], o: usize, v: u32)
    requires
        o + 4 <= old(s)@.len(),
    ensures
        final(s)@ == splice(old(s)@, o as int, le32_bytes(v)),
        le32(final(s)@, o as int) == v,
{
    s[o] = (v % 0x100) as u8;
    s[o + 1] = ((v / 0x100) % 0x100) as u8;
    s[o + 2] = ((v / 0x1_0000) % 0x100) as u8;
    s[o + 3] = (v / 0x100_0000) as u8;
    proof {
        lemma_le32_round(v);
        assert(s@ =~= splice(old(s)@, o as int, le32_bytes(v)));
    }
}

/// Store `v` little-endian at byte `o`.
pub fn wr_le16(s: &mut [u8], o: usize, v: u16)
    requires
        o + 2 <= old(s)@.len(),
    ensures
        final(s)@ == splice(old(s)@, o as int, le16_bytes(v)),
        le16(final(s)@, o as int) == v,
{
    s[o] = (v % 0x100) as u8;
    s[o + 1] = (v / 0x100) as u8;
    assert(s@ =~= splice(old(s)@, o as int, le16_bytes(v)));
}

/// Store `v` big-endian at byte `o`.
pub fn wr_be32(s: &mut [u8], o: usize, v: u32)
    requires
        o + 4 <= old(s)@.len(),
    ensures
        final(s)@ == splice(old(s)@, o as int, be32_bytes(v)),
        be32(final(s)@, o as int) == v,
{
    s[o] = (v / 0x100_0000) as u8;
    s[o + 1] = ((v / 0x1_0000) % 0x100) as u8;
    s[o + 2] = ((v / 0x100) % 0x100) as u8;
    s[o + 3] = (v % 0x100) as u8;
    proof {
        lemma_be32_round(v);
        assert(s@ =~= splice(old(s)@, o as int, be32_bytes(v)));
    }
}

/// Store `v` big-endian at byte `o`.
pub fn wr_be16(s: &mut [u8], o: usize, v: u16)
    requires
        o + 2 <= old(s)@.len(),
    ensures
        final(s)@ == splice(old(s)@, o as int, be16_bytes(v)),
        be16(final(s)@, o as int) == v,
{
    s[o] = (v / 0x100) as u8;
    s[o + 1] = (v % 0x100) as u8;
    assert(s@ =~= splice(old(s)@, o as int, be16_bytes(v)));
}

} // verus!

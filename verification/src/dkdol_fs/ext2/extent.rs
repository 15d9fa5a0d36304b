//! Extent-tree nodes and indirect-block indexing.

use vstd::prelude::*;
use crate::bytes::{le16, le32, rd_le16, rd_le32, wr_le16, wr_le32, splice, le16_bytes, le32_bytes};

verus! {

/// Entries in the node (header field at byte 2).
pub open spec fn node_count(node: Seq<u8>) -> int {
    le16(node, 2)
}

/// Capacity of the node (header field at byte 4).
pub open spec fn node_max(node: Seq<u8>) -> int {
    le16(node, 4)
}

/// Depth of the node (0 for a leaf).
pub open spec fn node_depth(node: Seq<u8>) -> int {
    le16(node, 6)
}

/// Every entry the header counts lies inside the node.
pub open spec fn node_fits(node: Seq<u8>) -> bool {
    12 + 12 * node_count(node) <= node.len()
}

/// Byte offset of entry `i`.
pub open spec fn ent(i: int) -> int {
    12 + 12 * i
}

/// First logical block of leaf entry `i`.
pub open spec fn leaf_logical(node: Seq<u8>, i: int) -> int {
    le32(node, ent(i))
}

/// Length of leaf entry `i` (the uninitialised-extent bit dropped).
pub open spec fn leaf_len(node: Seq<u8>, i: int) -> int {
    le16(node, ent(i) + 4) % 0x8000
}

/// First physical block of leaf entry `i` (low 32 bits).
pub open spec fn leaf_phys(node: Seq<u8>, i: int) -> int {
    le32(node, ent(i) + 8)
}

/// Child block of index entry `i`.
pub open spec fn index_child(node: Seq<u8>, i: int) -> int {
    le32(node, ent(i) + 4)
}

/// The (physical start, length) of each entry of a leaf node.
pub open spec fn leaf_extents(node: Seq<u8>) -> Seq<(u32, u32)> {
    Seq::new(node_count(node) as nat, |i: int| (leaf_phys(node, i) as u32, leaf_len(node, i) as u32))
}

/// Read the entry count, refusing nodes whose entries overrun them.
pub fn checked_count(node: &[u8]) -> (r: Option<usize>)
    requires
        node@.len() >= 8,
    ensures
        r is Some <==> node_fits(node@),
        r matches Some(n) ==> n == node_count(node@),
{
    let n = rd_le16(node, 2) as usize;
    if 12 + 12 * n <= node.len() {
        Some(n)
    } else {
        None
    }
}

/// Leaf entry `i`: (physical start, length).
pub fn leaf_entry(node: &[u8], i: usize) -> (r: (u32, u32))
    requires
        ent(i as int) + 12 <= node@.len(),
    ensures
        r == (leaf_phys(node@, i as int) as u32, leaf_len(node@, i as int) as u32),
{
    let nl = node.len();
    let o = 12 + 12 * i;
    let len = (rd_le16(node, o + 4) % 0x8000) as u32;
    (rd_le32(node, o + 8), len)
}

/// The leaf entry holding `logical`, searched first to last.
pub open spec fn leaf_hit(node: Seq<u8>, logical: int, i: int) -> Option<u32>
    decreases node_count(node) - i,
{
    if i < 0 || i >= node_count(node) {
        None
    } else if leaf_logical(node, i) <= logical < leaf_logical(node, i) + leaf_len(node, i) {
        Some((leaf_phys(node, i) + (logical - leaf_logical(node, i))) as u32)
    } else {
        leaf_hit(node, logical, i + 1)
    }
}

/// An extent leaf maps `logical` through the first of its entries (from
/// `i` on) whose run covers it: entry k starts at byte 12 + 12k with its
/// first logical block (32 bits), its length (16 bits, top bit the
/// uninitialised flag, not part of the length) and, at byte 8 of the entry,
/// the low 32 bits of its first physical block; the block is that physical
/// start plus the offset into the run. No covering entry, no block.
pub proof fn leaf_hit_law(node: Seq<u8>, logical: int, i: int)
    requires
        0 <= i,
    ensures
        leaf_hit(node, logical, i) matches Some(p) ==> exists|k: int| #![trigger leaf_logical(node, k)] {
            let o = 12 + 12 * k;
            let first = node[o] + node[o + 1] * 0x100 + node[o + 2] * 0x1_0000 + node[o + 3] * 0x100_0000;
            let len = (node[o + 4] + node[o + 5] * 0x100) % 0x8000;
            let phys = node[o + 8] + node[o + 9] * 0x100 + node[o + 10] * 0x1_0000 + node[o + 11] * 0x100_0000;
            &&& i <= k < node[2] + node[3] * 0x100
            &&& leaf_logical(node, k) == first
            &&& first <= logical < first + len
            &&& p == (phys + (logical - first)) as u32
            &&& forall|j: int| #![trigger leaf_logical(node, j)] i <= j < k ==> !(leaf_logical(node, j) <= logical
                < leaf_logical(node, j) + leaf_len(node, j))
        },
        leaf_hit(node, logical, i) is None ==> forall|j: int| #![trigger leaf_logical(node, j)] i <= j < node_count(node)
            ==> !(leaf_logical(node, j) <= logical < leaf_logical(node, j) + leaf_len(node, j)),
    decreases node_count(node) - i,
{
    if i < node_count(node) {
        leaf_hit_law(node, logical, i + 1);
        if leaf_logical(node, i) <= logical < leaf_logical(node, i) + leaf_len(node, i) {
            let v = leaf_phys(node, i) + (logical - leaf_logical(node, i));
            let k = i;
            assert({
                let o = 12 + 12 * k;
                let first = node[o] + node[o + 1] * 0x100 + node[o + 2] * 0x1_0000 + node[o + 3] * 0x100_0000;
                let len = (node[o + 4] + node[o + 5] * 0x100) % 0x8000;
                let phys = node[o + 8] + node[o + 9] * 0x100 + node[o + 10] * 0x1_0000 + node[o + 11] * 0x100_0000;
                &&& i <= k < node[2] + node[3] * 0x100
                &&& leaf_logical(node, k) == first
                &&& first <= logical < first + len
                &&& leaf_hit(node, logical, i)->0 == (phys + (logical - first)) as u32
                &&& forall|j: int| #![trigger leaf_logical(node, j)] i <= j < k ==> !(leaf_logical(node, j) <= logical
                    < leaf_logical(node, j) + leaf_len(node, j))
            });
        }
    }
}

/// The physical block of `logical` in a leaf node, if an entry maps it.
pub fn search_leaf(node: &[u8], logical: u32) -> (r: Option<u32>)
    requires
        node_fits(node@),
    ensures
        r == leaf_hit(node@, logical as int, 0),
{
    let n = rd_le16(node, 2) as usize;
    let mut i: usize = 0;
    while i < n
        invariant
            n == node_count(node@),
            node_fits(node@),
            i <= n,
            leaf_hit(node@, logical as int, 0) == leaf_hit(node@, logical as int, i as int),
        decreases n - i,
    {
        let o = 12 + 12 * i;
        let el = rd_le32(node, o);
        let len = (rd_le16(node, o + 4) % 0x8000) as u32;
        if logical >= el && (logical as u64) < el as u64 + len as u64 {
            let phy = rd_le32(node, o + 8);
            return Some((phy as u64 + (logical - el) as u64) as u32);
        }
        i = i + 1;
    }
    None
}

/// The index entry covering `logical`: the first whose range
/// [own start, next start) holds it, the last entry reaching to the end.
pub open spec fn index_hit(node: Seq<u8>, logical: int, i: int) -> Option<u32>
    decreases node_count(node) - i,
{
    let n = node_count(node);
    if i < 0 || i >= n {
        None
    } else {
        let nx = if i + 1 < n {
            le32(node, ent(i + 1))
        } else {
            0xFFFF_FFFFint
        };
        if le32(node, ent(i)) <= logical < nx {
            Some(index_child(node, i) as u32)
        } else {
            index_hit(node, logical, i + 1)
        }
    }
}

/// An extent index node sends `logical` to the child of its last entry (from
/// `i` on) whose first logical block (the word at byte 12 + 12k) is at most
/// `logical`, the next entry's first block being above it; the child is the
/// word at byte 4 of that entry.
pub proof fn index_hit_law(node: Seq<u8>, logical: int, i: int)
    requires
        0 <= i,
    ensures
        index_hit(node, logical, i) matches Some(c) ==> exists|k: int| #![trigger index_child(node, k)] {
            let o = 12 + 12 * k;
            &&& i <= k < node[2] + node[3] * 0x100
            &&& node[o] + node[o + 1] * 0x100 + node[o + 2] * 0x1_0000 + node[o + 3] * 0x100_0000 <= logical
            &&& (k + 1 < node[2] + node[3] * 0x100 ==> logical < node[o + 12] + node[o + 13] * 0x100 + node[o + 14]
                * 0x1_0000 + node[o + 15] * 0x100_0000)
            &&& c == (node[o + 4] + node[o + 5] * 0x100 + node[o + 6] * 0x1_0000 + node[o + 7] * 0x100_0000) as u32
            &&& c == index_child(node, k) as u32
        },
    decreases node_count(node) - i,
{
    if i < node_count(node) {
        index_hit_law(node, logical, i + 1);
        let n = node_count(node);
        let nx = if i + 1 < n { le32(node, ent(i + 1)) } else { 0xFFFF_FFFFint };
        if le32(node, ent(i)) <= logical < nx {
            let k = i;
            assert(index_child(node, k) == le32(node, ent(k) + 4));
        }
    }
}


/// The child block of an index node that covers `logical`.
pub fn search_index(node: &[u8], logical: u32) -> (r: Option<u32>)
    requires
        node_fits(node@),
    ensures
        r == index_hit(node@, logical as int, 0),
{
    let n = rd_le16(node, 2) as usize;
    let mut i: usize = 0;
    while i < n
        invariant
            n == node_count(node@),
            node_fits(node@),
            i <= n,
            index_hit(node@, logical as int, 0) == index_hit(node@, logical as int, i as int),
        decreases n - i,
    {
        let o = 12 + 12 * i;
        let il = rd_le32(node, o);
        let nx: u32 = if i + 1 < n {
            rd_le32(node, o + 12)
        } else {
            0xFFFF_FFFF
        };
        if logical >= il && logical < nx {
            return Some(rd_le32(node, o + 4));
        }
        i = i + 1;
    }
    None
}

// ─── Indirect blocks ────────────────────────────────────────────────────────

/// Where logical block `l` of an indirect-mapped file is found, with `bpp`
/// pointers per block: a direct slot, or a path through the singly, doubly
/// or triply indirect tree.
#[derive(Clone, Copy, PartialEq, Eq, Structural)]
pub enum IndPath {
    Direct(usize),
    Single(usize),
    Double(usize, usize),
    Triple(usize, usize, usize),
}

pub open spec fn spec_ind_path(l: int, bpp: int) -> IndPath {
    if l < 12 {
        IndPath::Direct(l as usize)
    } else if l - 12 < bpp {
        IndPath::Single((l - 12) as usize)
    } else if l - 12 - bpp < bpp * bpp {
        let m = l - 12 - bpp;
        IndPath::Double((m / bpp) as usize, (m % bpp) as usize)
    } else {
        let m = l - 12 - bpp - bpp * bpp;
        IndPath::Triple((m / (bpp * bpp)) as usize, ((m / bpp) % bpp) as usize, (m % bpp) as usize)
    }
}

/// A pointer path leads back to the logical block it was computed for: a
/// direct slot is the block itself; a singly indirect slot counts from
/// block 12; a doubly indirect path (i, j) takes slot i of the doubly
/// indirect block, naming a singly indirect block whose slot j holds the
/// block, and so counts `i` whole pointer blocks and `j` more from block
/// 12 + bpp; a triply indirect path likewise from 12 + bpp + bpp². Every
/// index below the top one is a slot of a pointer block.
#[verifier::spinoff_prover]
pub proof fn ind_path_law(l: int, bpp: int)
    requires
        0 <= l <= u32::MAX,
        1 <= bpp <= 1024,
    ensures
        match spec_ind_path(l, bpp) {
            IndPath::Direct(i) => l < 12 && i == l,
            IndPath::Single(i) => 12 <= l < 12 + bpp && i == l - 12,
            IndPath::Double(i, j) => i < bpp && j < bpp && l == 12 + bpp + i * bpp + j,
            IndPath::Triple(i, j, k) => j < bpp && k < bpp && l == 12 + bpp + bpp * bpp + i * (bpp * bpp) + j * bpp
                + k,
        },
{
    if l >= 12 && l - 12 >= bpp {
        if l - 12 - bpp < bpp * bpp {
            let m = l - 12 - bpp;
            vstd::arithmetic::div_mod::lemma_fundamental_div_mod(m, bpp);
            assert(m / bpp < bpp) by (nonlinear_arith)
                requires
                    0 <= m < bpp * bpp,
                    bpp >= 1,
            ;
            assert(0 <= m / bpp && 0 <= m % bpp < bpp);
        } else {
            let m = l - 12 - bpp - bpp * bpp;
            let q = m / bpp;
            vstd::arithmetic::div_mod::lemma_fundamental_div_mod(m, bpp);
            vstd::arithmetic::div_mod::lemma_fundamental_div_mod(q, bpp);
            vstd::arithmetic::div_mod::lemma_div_denominator(m, bpp, bpp);
            assert(0 <= m % bpp < bpp && 0 <= q % bpp < bpp && q >= 0);
            assert(m / (bpp * bpp) == q / bpp);
            assert(m == (q / bpp) * (bpp * bpp) + (q % bpp) * bpp + m % bpp) by (nonlinear_arith)
                requires
                    m == bpp * q + m % bpp,
                    q == bpp * (q / bpp) + q % bpp,
            ;
            assert(q / bpp <= m) by (nonlinear_arith)
                requires
                    q == m / bpp,
                    m >= 0,
                    bpp >= 1,
            ;
        }
    }
}

/// The path to logical block `l`.
pub fn ind_path(l: u32, bpp: usize) -> (r: IndPath)
    requires
        256 <= bpp <= 1024,
    ensures
        r == spec_ind_path(l as int, bpp as int),
        r matches IndPath::Direct(i) ==> i < 12,
        r matches IndPath::Single(i) ==> i < bpp,
        r matches IndPath::Double(i, j) ==> i < bpp && j < bpp,
        r matches IndPath::Triple(i, j, k) ==> j < bpp && k < bpp,
{
    let l = l as u64;
    let b = bpp as u64;
    if l < 12 {
        return IndPath::Direct(l as usize);
    }
    let l2 = l - 12;
    if l2 < b {
        return IndPath::Single(l2 as usize);
    }
    let l3 = l2 - b;
    assert(b * b <= 1024 * 1024) by (nonlinear_arith)
        requires
            b <= 1024,
    ;
    if l3 < b * b {
        proof {
            assert(l3 / b < b) by (nonlinear_arith)
                requires
                    l3 < b * b,
                    b > 0,
            ;
        }
        return IndPath::Double((l3 / b) as usize, (l3 % b) as usize);
    }
    let l4 = l3 - b * b;
    proof {
        assert((l4 as int) / (b * b) <= l4) by (nonlinear_arith)
            requires
                b >= 1,
                l4 >= 0,
        ;
        assert((l4 / b) % b < b) by (nonlinear_arith)
            requires
                b >= 1,
        ;
    }
    let bb = b * b;
    assert(bb > 0) by (nonlinear_arith)
        requires
            bb == b * b,
            b >= 1,
    ;
    IndPath::Triple((l4 / bb) as usize, ((l4 / b) % b) as usize, (l4 % b) as usize)
}

// ─── Building nodes ─────────────────────────────────────────────────────────

pub const EXTENT_MAGIC: u16 = 0xF30A;

/// The 12 bytes of a leaf entry with a zero high start word.
pub open spec fn leaf_entry_bytes(logical: u32, len: u16, phys: u32) -> Seq<u8> {
    le32_bytes(logical) + le16_bytes(len) + le16_bytes(0) + le32_bytes(phys)
}

/// Whether the last entry of the leaf `node` extends to cover `logical` at
/// `phys` (both contiguous, and room in the entry's length).
pub open spec fn extends_last(node: Seq<u8>, logical: int, phys: int) -> bool {
    let n = node_count(node);
    &&& n > 0
    &&& leaf_logical(node, n - 1) + leaf_len(node, n - 1) == logical
    &&& leaf_phys(node, n - 1) + leaf_len(node, n - 1) == phys
    &&& leaf_len(node, n - 1) < 0x7FFF
}

/// The leaf after mapping `logical` to `phys`: the last entry grown by one
/// when contiguous, else a new one-block entry when the node has room.
pub open spec fn leaf_appended(node: Seq<u8>, logical: u32, phys: u32) -> Option<Seq<u8>> {
    let n = node_count(node);
    if extends_last(node, logical as int, phys as int) {
        Some(splice(node, ent(n - 1) + 4, le16_bytes((leaf_len(node, n - 1) + 1) as u16)))
    } else if n < node_max(node) {
        Some(splice(splice(node, ent(n), leaf_entry_bytes(logical, 1, phys)), 2, le16_bytes((n + 1) as u16)))
    } else {
        None
    }
}

/// Writing outside bytes 6..8 keeps a node's depth.
pub proof fn lemma_splice_keeps_depth(node: Seq<u8>, o: int, w: Seq<u8>)
    requires
        8 <= node.len(),
        o + w.len() <= 6 || 8 <= o,
    ensures
        node_depth(splice(node, o, w)) == node_depth(node),
{
    assert(splice(node, o, w)[6] == node[6]);
    assert(splice(node, o, w)[7] == node[7]);
}

/// Appending to a leaf keeps its depth.
pub proof fn lemma_appended_depth(node: Seq<u8>, logical: u32, phys: u32)
    requires
        8 <= node.len(),
        leaf_appended(node, logical, phys) is Some,
    ensures
        node_depth(leaf_appended(node, logical, phys).unwrap()) == node_depth(node),
{
    let n = node_count(node);
    if extends_last(node, logical as int, phys as int) {
        lemma_splice_keeps_depth(node, ent(n - 1) + 4, le16_bytes((leaf_len(node, n - 1) + 1) as u16));
    } else {
        let s1 = splice(node, ent(n), leaf_entry_bytes(logical, 1, phys));
        lemma_splice_keeps_depth(node, ent(n), leaf_entry_bytes(logical, 1, phys));
        lemma_splice_keeps_depth(s1, 2, le16_bytes((n + 1) as u16));
    }
}

/// Map `logical` to `phys` in the leaf `node` as `leaf_appended` says;
/// false (and the node unchanged) when it is full.
pub fn leaf_append(node: &mut [u8], logical: u32, phys: u32) -> (r: bool)
    requires
        node_fits(old(node)@),
        ent(node_max(old(node)@)) <= old(node)@.len(),
    ensures
        r == leaf_appended(old(node)@, logical, phys) is Some,
        r ==> final(node)@ == leaf_appended(old(node)@, logical, phys).unwrap(),
        !r ==> final(node)@ == old(node)@,
{
    let len = node.len();
    let n = rd_le16(node, 2) as usize;
    let max = rd_le16(node, 4) as usize;
    if n > 0 {
        let o = 12 + 12 * (n - 1);
        let el = rd_le32(node, o);
        let elen = (rd_le16(node, o + 4) % 0x8000) as u32;
        let eph = rd_le32(node, o + 8);
        if el as u64 + elen as u64 == logical as u64 && eph as u64 + elen as u64 == phys as u64 && elen < 0x7FFF {
            wr_le16(node, o + 4, (elen + 1) as u16);
            return true;
        }
    }
    if n < max {
        let o = 12 + 12 * n;
        let ghost s0 = node@;
        wr_le32(node, o, logical);
        wr_le16(node, o + 4, 1);
        wr_le16(node, o + 6, 0);
        wr_le32(node, o + 8, phys);
        assert(node@ =~= splice(s0, ent(n as int), leaf_entry_bytes(logical, 1, phys)));
        wr_le16(node, 2, (n + 1) as u16);
        return true;
    }
    false
}

/// A fresh node of `bs` bytes: magic, entry count, capacity and depth.
pub fn new_node(bs: usize, count: u16, max: u16, depth: u16) -> (r: Vec<u8>)
    requires
        12 <= bs,
    ensures
        r@.len() == bs,
        le16(r@, 0) == EXTENT_MAGIC,
        node_count(r@) == count,
        node_max(r@) == max,
        node_depth(r@) == depth,
        forall|i: int| 12 <= i < bs ==> #[trigger] r@[i] == 0,
{
    let mut b: Vec<u8> = vec![0u8; bs];
    wr_le16(b.as_mut_slice(), 0, EXTENT_MAGIC);
    wr_le16(b.as_mut_slice(), 2, count);
    wr_le16(b.as_mut_slice(), 4, max);
    wr_le16(b.as_mut_slice(), 6, depth);
    b
}

/// Store index entry `i`: first logical block and child block.
pub fn put_index(node: &mut [u8], i: usize, logical: u32, child: u32)
    requires
        ent(i as int) + 12 <= old(node)@.len(),
    ensures
        final(node)@ == splice(splice(old(node)@, ent(i as int), le32_bytes(logical)), ent(i as int) + 4, le32_bytes(child)),
{
    let n = node.len();
    wr_le32(node, 12 + 12 * i, logical);
    wr_le32(node, 12 + 12 * i + 4, child);
}

/// Store a one-block leaf entry `i` mapping `logical` to `phys` (the high
/// start word left as it was).
pub fn put_leaf(node: &mut [u8], i: usize, logical: u32, phys: u32)
    requires
        ent(i as int) + 12 <= old(node)@.len(),
    ensures
        final(node)@ == splice(
            splice(splice(old(node)@, ent(i as int), le32_bytes(logical)), ent(i as int) + 4, le16_bytes(1)),
            ent(i as int) + 8,
            le32_bytes(phys),
        ),
{
    let n = node.len();
    wr_le32(node, 12 + 12 * i, logical);
    wr_le16(node, 12 + 12 * i + 4, 1);
    wr_le32(node, 12 + 12 * i + 8, phys);
}

} // verus!

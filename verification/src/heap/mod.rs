//! First-fit heap allocator over an address-sorted free list.
//!
//! Every block starts with a 32-byte header; sizes count the header. A
//! request is served from the first free block large enough for the header,
//! the rounded-up payload and any padding for over-alignment; the rest of
//! the block is split off as a free block when it can hold a header and a
//! minimal payload. A freed block is put back in address order and merged
//! with adjacent free neighbours.

use vstd::prelude::*;

verus! {

/// Block alignment and header size.
pub const ALIGN: usize = 32;
pub const HEADER: usize = 32;
/// Smallest block split off as free: a header and one aligned payload unit.
pub const MIN_BLOCK: usize = 64;
/// Addresses the heap may span.
pub const HEAP_TOP: usize = 0xE000_0000;

/// `v` rounded up to a multiple of `a`.
pub open spec fn spec_align_up(v: int, a: int) -> int {
    (v + a - 1) / a * a
}

/// `v` rounded up to a multiple of `a`.
pub fn align_up(v: usize, a: usize) -> (r: usize)
    requires
        a > 0,
        v + a <= usize::MAX,
    ensures
        r == spec_align_up(v as int, a as int),
        v <= r < v + a,
        r % a == 0,
{
    let q = (v + a - 1) / a;
    proof {
        let qi = q as int;
        let ai = a as int;
        let x = (v + a - 1) as int;
        vstd::arithmetic::div_mod::lemma_fundamental_div_mod(x, ai);
        assert(qi * ai <= x) by (nonlinear_arith)
            requires
                x == ai * (x / ai) + x % ai,
                qi == x / ai,
                x % ai >= 0,
        ;
        assert(qi * ai > x - ai) by (nonlinear_arith)
            requires
                x == ai * (x / ai) + x % ai,
                qi == x / ai,
                x % ai < ai,
        ;
        vstd::arithmetic::div_mod::lemma_mod_multiples_basic(qi, ai);
    }
    q * a
}

/// `v` rounded up to a multiple of `a`, in 64 bits.
fn align_up64(v: u64, a: u64) -> (r: u64)
    requires
        a > 0,
        v + a <= u64::MAX,
    ensures
        r == spec_align_up(v as int, a as int),
        v <= r < v + a,
        r % a == 0,
{
    let q = (v + a - 1) / a;
    proof {
        let qi = q as int;
        let ai = a as int;
        let x = (v + a - 1) as int;
        vstd::arithmetic::div_mod::lemma_fundamental_div_mod(x, ai);
        assert(qi * ai <= x) by (nonlinear_arith)
            requires
                x == ai * (x / ai) + x % ai,
                qi == x / ai,
                x % ai >= 0,
        ;
        assert(qi * ai > x - ai) by (nonlinear_arith)
            requires
                x == ai * (x / ai) + x % ai,
                qi == x / ai,
                x % ai < ai,
        ;
        vstd::arithmetic::div_mod::lemma_mod_multiples_basic(qi, ai);
    }
    q * a
}

/// Rounding up never goes below the value.
proof fn lemma_align_up_ge(v: int, a: int)
    requires
        v >= 0,
        a > 0,
    ensures
        spec_align_up(v, a) >= v,
        0 < v <= a ==> spec_align_up(v, a) == a,
{
    let x = v + a - 1;
    vstd::arithmetic::div_mod::lemma_fundamental_div_mod(x, a);
    assert(x / a * a > x - a) by (nonlinear_arith)
        requires
            x == a * (x / a) + x % a,
            x % a < a,
    ;
    if 0 < v <= a {
        assert(x / a == 1) by (nonlinear_arith)
            requires
                a <= x < 2 * a,
                x == a * (x / a) + x % a,
                0 <= x % a < a,
        ;
    }
}

/// A request larger than the heap's address range, or aligned past it,
/// fits no free block.
proof fn lemma_no_fit(free: Seq<(usize, usize)>, size: int, align: int, i: int)
    requires
        free_wf(free),
        size >= 0,
        align >= 1,
        size > HEAP_TOP || real_align(align) > HEAP_TOP,
        0 <= i,
    ensures
        first_fit(free, size, align, i) is None,
    decreases free.len() - i,
{
    if i < free.len() {
        let (b, s) = free[i];
        let ra = real_align(align);
        lemma_align_up_ge(size, ALIGN as int);
        lemma_align_up_ge(b + HEADER, ra);
        assert(need_at(b as int, size, align) > s);
        lemma_no_fit(free, size, align, i + 1);
    }
}

/// Whether `a` is a power of two.
pub open spec fn pow2(a: int) -> bool
    decreases a,
{
    if a <= 0 {
        false
    } else if a == 1 {
        true
    } else {
        a % 2 == 0 && pow2(a / 2)
    }
}

/// The effective alignment of a request: at least the block alignment.
pub open spec fn real_align(align: int) -> int {
    if align > ALIGN {
        align
    } else {
        ALIGN as int
    }
}

/// Bytes a request needs from the block at `b`: header, rounded payload,
/// and the padding that aligns the payload.
pub open spec fn need_at(b: int, size: int, align: int) -> int {
    HEADER + spec_align_up(size, ALIGN as int) + (spec_align_up(b + HEADER, real_align(align)) - (b + HEADER))
}

/// Where the payload of a request served from the block at `b` starts.
pub open spec fn payload_at(b: int, align: int) -> int {
    spec_align_up(b + HEADER, real_align(align))
}

/// The first free block from `i` large enough for the request.
pub open spec fn first_fit(free: Seq<(usize, usize)>, size: int, align: int, i: int) -> Option<int>
    decreases free.len() - i,
{
    if i < 0 || i >= free.len() {
        None
    } else if free[i].1 >= need_at(free[i].0 as int, size, align) {
        Some(i)
    } else {
        first_fit(free, size, align, i + 1)
    }
}

/// The free list after serving the request from block `i`: the block
/// shrinks to the remainder (moved past the allocation) when that can
/// stand as a block, else leaves the list.
pub open spec fn free_after_alloc(free: Seq<(usize, usize)>, i: int, need: int) -> Seq<(usize, usize)> {
    let (b, s) = free[i];
    if s - need >= MIN_BLOCK {
        free.update(i, ((b + need) as usize, (s - need) as usize))
    } else {
        free.remove(i)
    }
}

/// Size recorded for the block allocated from free block `i`.
pub open spec fn used_size(free: Seq<(usize, usize)>, i: int, need: int) -> int {
    if free[i].1 - need >= MIN_BLOCK {
        need
    } else {
        free[i].1 as int
    }
}

/// Index of the first free block at or after address `blk`.
pub open spec fn insert_pos(free: Seq<(usize, usize)>, blk: int, i: int) -> int
    decreases free.len() - i,
{
    if i < 0 || i >= free.len() || free[i].0 >= blk {
        if i < 0 {
            0
        } else {
            i
        }
    } else {
        insert_pos(free, blk, i + 1)
    }
}

/// The free list after freeing the block at `blk` of `sz` bytes: put in
/// address order, merged with the next block when it ends where that one
/// starts, and with the previous block when that one ends where it starts.
pub open spec fn free_after_dealloc(free: Seq<(usize, usize)>, blk: int, sz: int) -> Seq<(usize, usize)> {
    let p = insert_pos(free, blk, 0);
    let merge_next = p < free.len() && blk + sz == free[p].0;
    let nsz = if merge_next {
        sz + free[p].1
    } else {
        sz
    };
    let rest = if merge_next {
        free.subrange(p + 1, free.len() as int)
    } else {
        free.subrange(p, free.len() as int)
    };
    let before = free.subrange(0, p);
    if p > 0 && free[p - 1].0 + free[p - 1].1 == blk {
        before.update(p - 1, (free[p - 1].0, (free[p - 1].1 + nsz) as usize)) + rest
    } else {
        before.push((blk as usize, nsz as usize)) + rest
    }
}

/// Payload bytes of the free blocks.
pub open spec fn free_sum(free: Seq<(usize, usize)>) -> int
    decreases free.len(),
{
    if free.len() == 0 {
        0
    } else {
        free_sum(free.drop_last()) + free.last().1 - HEADER
    }
}

/// A well-formed free list: aligned block addresses in increasing order
/// with a gap between neighbours, every block at least a header, all inside
/// the heap's address range.
pub open spec fn free_wf(free: Seq<(usize, usize)>) -> bool {
    &&& forall|i: int| 0 <= i < free.len() ==> (#[trigger] free[i]).1 >= HEADER && free[i].0 % ALIGN == 0
        && free[i].0 + free[i].1 <= HEAP_TOP
    &&& forall|i: int, j: int| 0 <= i < j < free.len() ==> (#[trigger] free[i]).0 + free[i].1 < (#[trigger] free[j]).0
}

/// Blocks `x` and `y` do not overlap.
pub open spec fn disjoint(x: (usize, usize), y: (usize, usize)) -> bool {
    x.0 + x.1 <= y.0 || y.0 + y.1 <= x.0
}

/// Allocated blocks: aligned, at least a header, inside the heap, pairwise
/// disjoint.
pub open spec fn used_wf(used: Seq<(usize, usize)>) -> bool {
    &&& forall|i: int| 0 <= i < used.len() ==> (#[trigger] used[i]).1 >= HEADER && used[i].0 % ALIGN == 0
        && used[i].0 + used[i].1 <= HEAP_TOP
    &&& forall|i: int, j: int| 0 <= i < j < used.len() ==> disjoint(#[trigger] used[i], #[trigger] used[j])
}

/// No allocated block overlaps a free one.
pub open spec fn apart(used: Seq<(usize, usize)>, free: Seq<(usize, usize)>) -> bool {
    forall|i: int, j: int| 0 <= i < used.len() && 0 <= j < free.len() ==> disjoint(#[trigger] used[i], #[trigger] free[j])
}

proof fn lemma_insert_pos(free: Seq<(usize, usize)>, blk: int, i: int)
    requires
        0 <= i <= free.len(),
        forall|j: int| 0 <= j < i ==> (#[trigger] free[j]).0 < blk,
    ensures
        i <= insert_pos(free, blk, i) <= free.len(),
        forall|j: int| 0 <= j < insert_pos(free, blk, i) ==> (#[trigger] free[j]).0 < blk,
        insert_pos(free, blk, i) < free.len() ==> free[insert_pos(free, blk, i)].0 >= blk,
    decreases free.len() - i,
{
    if i < free.len() && free[i].0 < blk {
        lemma_insert_pos(free, blk, i + 1);
    }
}

/// Interval `x` misses both `[a, b)` and `[b, c)`, so it misses `[a, c)`.
proof fn lemma_disjoint_join(x: (usize, usize), a: int, b: int, c: int)
    requires
        a <= b <= c,
        a < c,
        x.1 > 0,
        x.0 + x.1 <= a || b <= x.0 || a == b,
        x.0 + x.1 <= b || c <= x.0 || b == c,
    ensures
        x.0 + x.1 <= a || c <= x.0,
{
}

/// Freeing a live block keeps the allocator's lists well formed.
#[verifier::rlimit(100)]
#[verifier::spinoff_prover]
proof fn lemma_dealloc_wf(free: Seq<(usize, usize)>, used: Seq<(usize, usize)>, k: int)
    requires
        free_wf(free),
        used_wf(used),
        apart(used, free),
        0 <= k < used.len(),
    ensures
        free_wf(free_after_dealloc(free, used[k].0 as int, used[k].1 as int)),
        used_wf(used.remove(k)),
        apart(used.remove(k), free_after_dealloc(free, used[k].0 as int, used[k].1 as int)),
{
    let blk = used[k].0 as int;
    let sz = used[k].1 as int;
    let r = free_after_dealloc(free, blk, sz);
    lemma_insert_pos(free, blk, 0);
    let p = insert_pos(free, blk, 0);
    let n = free.len() as int;
    assert forall|j: int| 0 <= j < p implies (#[trigger] free[j]).0 + free[j].1 <= blk by {
        assert(disjoint(used[k], free[j]));
    }
    assert forall|j: int| p <= j < n implies blk + sz <= (#[trigger] free[j]).0 by {
        assert(disjoint(used[k], free[j]));
    }
    let mn = p < n && blk + sz == free[p].0;
    let mp = p > 0 && free[p - 1].0 + free[p - 1].1 == blk;
    // The merged block and where it sits.
    let ms: int = if mp { free[p - 1].0 as int } else { blk };
    let me: int = if mn { free[p].0 + free[p].1 } else { blk + sz };
    let lo: int = if mp { p - 1 } else { p };
    let hi: int = if mn { p + 1 } else { p };
    assert(r.len() == lo + 1 + (n - hi));
    assert forall|i: int| 0 <= i < r.len() implies #[trigger] r[i] == if i < lo {
        free[i]
    } else if i == lo {
        (ms as usize, (me - ms) as usize)
    } else {
        free[i - lo - 1 + hi]
    } by {}
    assert forall|i: int| 0 <= i < lo implies (#[trigger] free[i]).0 + free[i].1 < ms by {
        if mp {
            assert(free[i].0 + free[i].1 < free[p - 1].0);
        } else if i < p - 1 {
            assert(free[i].0 + free[i].1 < free[p - 1].0);
        }
    }
    assert forall|j: int| hi <= j < n implies me < (#[trigger] free[j]).0 by {
        if mn {
            assert(free[p].0 + free[p].1 < free[j].0);
        } else if j > p {
            assert(free[p].0 + free[p].1 < free[j].0);
        }
    }
    assert forall|i: int, j: int| 0 <= i < j < r.len() implies (#[trigger] r[i]).0 + r[i].1 < (#[trigger] r[j]).0 by {
        if j < lo {
        } else if j == lo {
        } else if i < lo {
            assert(free[i].0 + free[i].1 < ms);
            assert(me < free[j - lo - 1 + hi].0);
        } else if i == lo {
        } else {
            assert(free[i - lo - 1 + hi].0 + free[i - lo - 1 + hi].1 < free[j - lo - 1 + hi].0);
        }
    }
    assert forall|i: int| 0 <= i < r.len() implies (#[trigger] r[i]).1 >= HEADER && r[i].0 % ALIGN == 0 && r[i].0 + r[i].1 <= HEAP_TOP by {
        if i == lo {
            if mn {
                assert(free[p].0 + free[p].1 <= HEAP_TOP);
            }
        }
    }
    let u2 = used.remove(k);
    assert forall|i: int, j: int| 0 <= i < u2.len() && 0 <= j < r.len() implies disjoint(#[trigger] u2[i], #[trigger] r[j]) by {
        let x = u2[i];
        let oi = if i < k { i } else { i + 1 };
        assert(x == used[oi]);
        if j == lo {
            assert(disjoint(used[oi], used[k])) by {
                if oi < k {
                    assert(disjoint(used[oi], used[k]));
                } else {
                    assert(disjoint(used[k], used[oi]));
                }
            }
            let a = if mp { free[p - 1].0 as int } else { blk };
            let c = if mn { free[p].0 + free[p].1 } else { blk + sz };
            if mp {
                assert(disjoint(used[oi], free[p - 1]));
            }
            lemma_disjoint_join(x, a, blk, blk + sz);
            if mn {
                assert(disjoint(used[oi], free[p]));
                lemma_disjoint_join(x, a, blk + sz, c);
            }
        } else if j < lo {
            assert(disjoint(used[oi], free[j]));
        } else {
            assert(disjoint(used[oi], free[j - lo - 1 + hi]));
        }
    }
    assert forall|i: int, j: int| 0 <= i < j < u2.len() implies disjoint(#[trigger] u2[i], #[trigger] u2[j]) by {
        let oi = if i < k { i } else { i + 1 };
        let oj = if j < k { j } else { j + 1 };
        assert(disjoint(used[oi], used[oj]));
    }
}

/// Allocating with the default alignment and freeing the result restores
/// the free list: the block is merged back with the remainder it was split
/// from, or reinserted whole where it was.
pub proof fn alloc_free_law(free: Seq<(usize, usize)>, size: int, align: int)
    requires
        free_wf(free),
        0 <= size,
        1 <= align <= ALIGN,
        first_fit(free, size, align, 0) is Some,
    ensures
        ({
            let i = first_fit(free, size, align, 0).unwrap();
            let b = free[i].0 as int;
            let need = need_at(b, size, align);
            &&& payload_at(b, align) == b + HEADER
            &&& free_after_dealloc(free_after_alloc(free, i, need), b, used_size(free, i, need)) == free
        }),
{
    let i = first_fit(free, size, align, 0).unwrap();
    lemma_first_fit_range(free, size, align, 0);
    let (b, s) = free[i];
    let bi = b as int;
    let need = need_at(bi, size, align);
    assert(real_align(align) == 32);
    assert(spec_align_up(bi + 32, 32) == bi + 32) by {
        assert(bi % 32 == 0);
        vstd::arithmetic::div_mod::lemma_fundamental_div_mod(bi, 32);
        vstd::arithmetic::div_mod::lemma_fundamental_div_mod_converse(bi + 32 + 32 - 1, 32, bi / 32 + 1, 31);
    }
    let f1 = free_after_alloc(free, i, need);
    let us = used_size(free, i, need);
    if s - need >= MIN_BLOCK {
        lemma_insert_pos(f1, bi, 0);
        let p = insert_pos(f1, bi, 0);
        assert forall|j: int| 0 <= j < i implies (#[trigger] f1[j]).0 < bi by {
            assert(free[j].0 + free[j].1 < free[i].0);
        }
        lemma_insert_pos_exact(f1, bi, i);
        assert(p == i);
        if i > 0 {
            assert(free[i - 1].0 + free[i - 1].1 < free[i].0);
        }
        assert(free_after_dealloc(f1, bi, us) =~= free);
    } else {
        lemma_insert_pos(f1, bi, 0);
        assert forall|j: int| 0 <= j < i implies (#[trigger] f1[j]).0 < bi by {
            assert(free[j].0 + free[j].1 < free[i].0);
        }
        if i + 1 < free.len() {
            assert(free[i].0 + free[i].1 < free[i + 1].0);
        }
        lemma_insert_pos_exact(f1, bi, i);
        if i > 0 {
            assert(free[i - 1].0 + free[i - 1].1 < free[i].0);
        }
        assert(free_after_dealloc(f1, bi, us) =~= free);
    }
}

proof fn lemma_first_fit_range(free: Seq<(usize, usize)>, size: int, align: int, i: int)
    requires
        0 <= i,
    ensures
        first_fit(free, size, align, i) matches Some(k) ==> i <= k < free.len() && free[k].1 >= need_at(free[k].0 as int, size, align),
    decreases free.len() - i,
{
    if i < free.len() && free[i].1 < need_at(free[i].0 as int, size, align) {
        lemma_first_fit_range(free, size, align, i + 1);
    }
}

proof fn lemma_insert_pos_exact(free: Seq<(usize, usize)>, blk: int, i: int)
    requires
        0 <= i <= free.len(),
        forall|j: int| 0 <= j < i ==> (#[trigger] free[j]).0 < blk,
        i < free.len() ==> free[i].0 >= blk,
    ensures
        insert_pos(free, blk, 0) == i,
    decreases i,
{
    lemma_insert_pos_from(free, blk, 0, i);
}

proof fn lemma_insert_pos_from(free: Seq<(usize, usize)>, blk: int, j: int, i: int)
    requires
        0 <= j <= i <= free.len(),
        forall|m: int| 0 <= m < i ==> (#[trigger] free[m]).0 < blk,
        i < free.len() ==> free[i].0 >= blk,
    ensures
        insert_pos(free, blk, j) == i,
    decreases i - j,
{
    if j < i {
        lemma_insert_pos_from(free, blk, j + 1, i);
    }
}

/// The heap allocator.
pub struct GcAllocator {
    free: Vec<(usize, usize)>,
    used: Vec<(usize, usize)>,
    inited: bool,
}

impl GcAllocator {
    /// Free blocks: (address, size including the header), by address.
    pub closed spec fn spec_free(&self) -> Seq<(usize, usize)> {
        self.free@
    }

    /// Allocated blocks: (address, size including the header).
    pub closed spec fn spec_used(&self) -> Seq<(usize, usize)> {
        self.used@
    }

    pub closed spec fn spec_inited(&self) -> bool {
        self.inited
    }

    pub closed spec fn wf(&self) -> bool {
        &&& free_wf(self.free@)
        &&& used_wf(self.used@)
        &&& apart(self.used@, self.free@)
        &&& !self.inited ==> self.used@.len() == 0 && self.free@.len() == 0
    }

    /// An allocator with no heap yet.
    pub fn new() -> (r: Self)
        ensures
            r.wf(),
            r.spec_free().len() == 0,
            r.spec_used().len() == 0,
            !r.spec_inited(),
    {
        GcAllocator { free: Vec::new(), used: Vec::new(), inited: false }
    }

    /// Take the heap `heap_start .. heap_end` (once; later calls do
    /// nothing). The heap starts at the next aligned address; one too small
    /// for a header and a payload unit stays empty.
    pub fn init(&mut self, heap_start: usize, heap_end: usize)
        requires
            old(self).wf(),
            heap_start <= heap_end <= HEAP_TOP,
        ensures
            final(self).wf(),
            final(self).spec_inited(),
            final(self).spec_used() == old(self).spec_used(),
            old(self).spec_inited() ==> final(self).spec_free() == old(self).spec_free(),
            !old(self).spec_inited() ==> {
                let start = spec_align_up(heap_start as int, ALIGN as int);
                final(self).spec_free() == if heap_end < start + HEADER + ALIGN {
                    old(self).spec_free()
                } else {
                    seq![(start as usize, (heap_end - start) as usize)]
                }
            },
    {
        if self.inited {
            return;
        }
        self.inited = true;
        let start = align_up(heap_start, ALIGN);
        if heap_end < start + HEADER + ALIGN {
            return;
        }
        let mut v: Vec<(usize, usize)> = Vec::new();
        v.push((start, heap_end - start));
        self.free = v;
    }

    /// The free list of a well-formed allocator is sorted by address, each
    /// block aligned and at least a header, with a gap between neighbours
    /// (adjacent free blocks are always merged); no allocated block overlaps
    /// another or a free one.
    pub proof fn free_list_law(&self)
        requires
            self.wf(),
        ensures
            free_wf(self.spec_free()),
            used_wf(self.spec_used()),
            apart(self.spec_used(), self.spec_free()),
    {
    }

    /// Total payload bytes of the free blocks.
    pub fn free_bytes(&self) -> (r: usize)
        requires
            self.wf(),
        ensures
            r == free_sum(self.spec_free()),
    {
        let mut total: usize = 0;
        let mut i: usize = 0;
        while i < self.free.len()
            invariant
                free_wf(self.free@),
                i <= self.free@.len(),
                total == free_sum(self.free@.subrange(0, i as int)),
                total <= self.free@[i as int - 1].0 + self.free@[i as int - 1].1 || i == 0,
            decreases self.free@.len() - i,
        {
            let (b, s) = self.free[i];
            proof {
                let sub = self.free@.subrange(0, i + 1);
                assert(sub.drop_last() =~= self.free@.subrange(0, i as int));
                if i > 0 {
                    assert(self.free@[i - 1].0 + self.free@[i - 1].1 < self.free@[i as int].0);
                }
            }
            total = total + (s - HEADER);
            i = i + 1;
        }
        assert(self.free@.subrange(0, self.free@.len() as int) =~= self.free@);
        total
    }

    /// Whether `ptr` is the payload address of a live allocation with the
    /// default alignment (its header directly before it).
    pub open spec fn live(&self, ptr: usize) -> bool {
        exists|k: int| 0 <= k < self.spec_used().len() && #[trigger] self.spec_used()[k].0 + HEADER == ptr
    }

    /// Return the block whose payload starts at `ptr` (0 is ignored): it goes
    /// back into the free list in address order, merged with free
    /// neighbours it touches.
    pub fn dealloc(&mut self, ptr: usize)
        requires
            old(self).wf(),
            ptr == 0 || old(self).live(ptr),
        ensures
            final(self).wf(),
            ptr == 0 ==> final(self).spec_free() == old(self).spec_free() && final(self).spec_used() == old(self).spec_used(),
            ptr != 0 ==> exists|k: int| {
                &&& 0 <= k < old(self).spec_used().len()
                &&& #[trigger] old(self).spec_used()[k].0 + HEADER == ptr
                &&& final(self).spec_used() == old(self).spec_used().remove(k)
                &&& final(self).spec_free() == free_after_dealloc(old(self).spec_free(), ptr - HEADER, old(self).spec_used()[k].1 as int)
            },
    {
        if ptr == 0 {
            return;
        }
        let blk = ptr - HEADER;
        let mut k: usize = 0;
        while k < self.used.len() && self.used[k].0 != blk
            invariant
                k <= self.used@.len(),
                blk + HEADER == ptr,
                old(self).live(ptr),
                self.used@ == old(self).used@,
                forall|j: int| 0 <= j < k ==> (#[trigger] self.used@[j]).0 != blk,
            decreases self.used@.len() - k,
        {
            k = k + 1;
        }
        if k >= self.used.len() {
            proof {
                let w = choose|w: int| 0 <= w < self.spec_used().len() && #[trigger] self.spec_used()[w].0 + HEADER == ptr;
                assert(self.used@[w].0 == blk);
            }
            return;
        }
        let sz = self.used[k].1;
        let ghost u0 = self.used@;
        let ghost f0 = self.free@;
        self.used.remove(k);
        let n = self.free.len();
        let mut p: usize = 0;
        while p < n && self.free[p].0 < blk
            invariant
                p <= n,
                n == self.free@.len(),
                self.free@ == f0,
                insert_pos(f0, blk as int, 0) == insert_pos(f0, blk as int, p as int),
            decreases n - p,
        {
            p = p + 1;
        }
        assert(insert_pos(f0, blk as int, p as int) == p);
        let merge_next = p < n && blk + sz == self.free[p].0;
        let nsz = if merge_next {
            sz + self.free[p].1
        } else {
            sz
        };
        if merge_next {
            self.free.remove(p);
        }
        let ghost f1 = self.free@;
        if p > 0 && self.free[p - 1].0 + self.free[p - 1].1 == blk {
            let (pa, ps) = self.free[p - 1];
            self.free.set(p - 1, (pa, ps + nsz));
        } else {
            self.free.insert(p, (blk, nsz));
        }
        proof {
            assert(self.free@ =~= free_after_dealloc(f0, blk as int, sz as int));
            lemma_dealloc_wf(f0, u0, k as int);
        }
    }

    /// Serve a request of `size` bytes aligned to `align` (a power of two)
    /// from the first free block that holds it; `None` when none does.
    pub fn allocate(&mut self, size: usize, align: usize) -> (r: Option<usize>)
        requires
            old(self).wf(),
            1 <= align,
            align <= ALIGN || align % ALIGN == 0,
        ensures
            final(self).wf(),
            match first_fit(old(self).spec_free(), size as int, align as int, 0) {
                None => r is None && final(self).spec_free() == old(self).spec_free() && final(self).spec_used()
                    == old(self).spec_used(),
                Some(i) => {
                    let (b, s) = old(self).spec_free()[i];
                    let need = need_at(b as int, size as int, align as int);
                    &&& r == Some(payload_at(b as int, align as int) as usize)
                    &&& final(self).spec_free() == free_after_alloc(old(self).spec_free(), i, need)
                    &&& final(self).spec_used() == old(self).spec_used().push((b, used_size(old(self).spec_free(), i, need) as usize))
                },
            },
    {
        if size > HEAP_TOP || align > HEAP_TOP {
            proof {
                lemma_no_fit(self.free@, size as int, align as int, 0);
            }
            return None;
        }
        let ra = if align > ALIGN {
            align
        } else {
            ALIGN
        };
        let user_need = align_up(size, ALIGN);
        let total_need = HEADER + user_need;
        let n = self.free.len();
        let mut i: usize = 0;
        while i < n
            invariant
                self.wf(),
                self.free@ == old(self).free@,
                self.used@ == old(self).used@,
                n == self.free@.len(),
                i <= n,
                ra == real_align(align as int),
                ra % 32 == 0,
                total_need == HEADER + spec_align_up(size as int, ALIGN as int),
                user_need <= size + ALIGN,
                size <= HEAP_TOP,
                ra <= HEAP_TOP,
                first_fit(self.free@, size as int, align as int, 0) == first_fit(self.free@, size as int, align as int, i as int),
            decreases n - i,
        {
            let (b, s) = self.free[i];
            let user_start = b + HEADER;
            let aligned64 = align_up64(user_start as u64, ra as u64);
            let need64 = total_need as u64 + (aligned64 - user_start as u64);
            if (s as u64) < need64 {
                proof {
                    assert(need64 == need_at(b as int, size as int, align as int));
                }
                i = i + 1;
                continue;
            }
            let aligned = aligned64 as usize;
            let extra = aligned - user_start;
            let need = total_need + extra;
            proof {
                assert(b % 32 == 0);
                assert(aligned % 32 == 0) by (nonlinear_arith)
                    requires
                        aligned % ra == 0,
                        ra % 32 == 0,
                        ra > 0,
                {
                    vstd::arithmetic::div_mod::lemma_mod_mod(aligned as int, 32, (ra / 32) as int);
                }
                assert(extra % 32 == 0);
                assert(total_need % 32 == 0);
                assert(need == need_at(b as int, size as int, align as int));
            }
            if s >= need {
                let rem = s - need;
                let ghost f0 = self.free@;
                if rem >= MIN_BLOCK {
                    self.free.set(i, (b + need, rem));
                    self.used.push((b, need));
                    proof {
                        assert forall|k: int| 0 <= k < self.free@.len() implies (#[trigger] self.free@[k]).1 >= HEADER && self.free@[k].0 % ALIGN == 0
                            && self.free@[k].0 + self.free@[k].1 <= HEAP_TOP by {
                            if k == i {
                                assert(need % 32 == 0) by (nonlinear_arith)
                                    requires
                                        need == total_need + extra,
                                        total_need % 32 == 0,
                                        extra % 32 == 0,
                                ;
                            }
                        }
                    }
                } else {
                    self.free.remove(i);
                    self.used.push((b, s));
                }
                return Some(aligned);
            }
            i = i + 1;
        }
        None
    }
}

} // verus!

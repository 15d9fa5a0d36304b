//! The JBD2 journal: the log's block map, and the descriptor, commit and
//! revoke blocks that recovery reads and commits write.

use vstd::prelude::*;
use crate::bytes::{be16, be32, rd_be16, rd_be32, wr_be32, wr_be16, splice, be32_bytes};
use super::layout::{spec_crc32c, crc32c};

verus! {

pub const JBD2_MAGIC: u32 = 0xc03b_3998;
pub const JBD2_DESCRIPTOR: u32 = 1;
pub const JBD2_COMMIT: u32 = 2;
pub const JBD2_REVOKE: u32 = 5;
pub const JBD2_FLAG_ESCAPE: u16 = 1;
pub const JBD2_FLAG_SAME_UUID: u16 = 2;
pub const JBD2_FLAG_LAST_TAG: u16 = 8;
pub const JBD2_INCOMPAT_64BIT: u32 = 0x0002;
pub const JBD2_INCOMPAT_CSUM_V2: u32 = 0x0008;
pub const JBD2_INCOMPAT_CSUM_V3: u32 = 0x0010;
pub const MAX_RUNS: usize = 128;
pub const MAX_REVOKE: usize = 512;

/// `v` reduced to 32 bits (for sums of two `u32`s).
pub open spec fn wrap32(v: int) -> u32 {
    if v >= 0x1_0000_0000 {
        (v - 0x1_0000_0000) as u32
    } else {
        v as u32
    }
}

/// Journal geometry and position.
pub struct JournalState {
    /// Physical extents of the journal inode, in log order: (start, length).
    pub runs: Vec<(u32, u32)>,
    /// Log length in blocks (`s_maxlen`).
    pub total: u32,
    /// First usable log block (`s_first`).
    pub first: u32,
    /// Next log block to write.
    pub head: u32,
    /// Next transaction id.
    pub sequence: u32,
    pub block_size: u32,
    /// JBD2 incompatible-feature bits.
    pub feat_incompat: u32,
    pub uuid: [u8; 16],
    /// CRC32c seed for checksummed journals: the CRC of the UUID.
    pub csum_seed: u32,
}

/// Physical block of log block `n`, looking from run `i` whose first log
/// block is `off`.
pub open spec fn jbmap_from(runs: Seq<(u32, u32)>, i: int, off: int, n: int) -> Option<u32>
    decreases runs.len() - i,
{
    if i < 0 || i >= runs.len() {
        None
    } else if n < off + runs[i].1 {
        Some(wrap32(runs[i].0 + (n - off)))
    } else {
        jbmap_from(runs, i + 1, off + runs[i].1, n)
    }
}

/// The run list after appending the extent `start .. start + len`: it
/// extends the last run when contiguous, else becomes a new run while fewer
/// than the limit are held (and is dropped beyond it).
pub open spec fn push_run(runs: Seq<(u32, u32)>, start: u32, len: u32) -> Seq<(u32, u32)> {
    if runs.len() > 0 && runs.last().0 + runs.last().1 == start {
        runs.update(runs.len() - 1, (runs.last().0, wrap32(runs.last().1 + len)))
    } else if runs.len() < MAX_RUNS {
        runs.push((start, len))
    } else {
        runs
    }
}

/// The run list after appending each extent of `ext` in turn.
pub open spec fn push_runs(runs: Seq<(u32, u32)>, ext: Seq<(u32, u32)>) -> Seq<(u32, u32)>
    decreases ext.len(),
{
    if ext.len() == 0 {
        runs
    } else {
        push_run(push_runs(runs, ext.drop_last()), ext.last().0, ext.last().1)
    }
}

/// Bytes of one descriptor tag for the feature bits `feat`.
pub open spec fn spec_tag_bytes(feat: u32) -> int {
    if feat & JBD2_INCOMPAT_CSUM_V3 != 0 {
        16
    } else {
        8 + (if feat & JBD2_INCOMPAT_CSUM_V2 != 0 {
            2int
        } else {
            0int
        }) + (if feat & JBD2_INCOMPAT_64BIT != 0 {
            4int
        } else {
            0int
        })
    }
}

pub open spec fn spec_has_csum(feat: u32) -> bool {
    feat & (JBD2_INCOMPAT_CSUM_V2 | JBD2_INCOMPAT_CSUM_V3) != 0
}

impl JournalState {
    pub open spec fn wf(&self) -> bool {
        self.runs@.len() <= MAX_RUNS
    }

    /// Physical block of log block `n`.
    pub open spec fn jbmap_spec(&self, n: int) -> Option<u32> {
        jbmap_from(self.runs@, 0, 0, n)
    }

    /// Physical block of log block `n`, if the runs reach it.
    pub fn jbmap(&self, n: u32) -> (r: Option<u32>)
        ensures
            r == jbmap_from(self.runs@, 0, 0, n as int),
    {
        let mut off: u64 = 0;
        let mut i: usize = 0;
        while i < self.runs.len()
            invariant
                i <= self.runs@.len(),
                off <= n,
                jbmap_from(self.runs@, 0, 0, n as int) == jbmap_from(
                    self.runs@,
                    i as int,
                    off as int,
                    n as int,
                ),
            decreases self.runs@.len() - i,
        {
            let (start, len) = self.runs[i];
            if (n as u64) < off + len as u64 {
                let d = (n as u64 - off) as u32;
                let r = start.wrapping_add(d);
                return Some(r);
            }
            off = off + len as u64;
            i = i + 1;
        }
        None
    }

    /// Bytes of one descriptor tag.
    pub fn tag_bytes(&self) -> (r: usize)
        ensures
            r == spec_tag_bytes(self.feat_incompat),
            8 <= r <= 16,
    {
        if self.feat_incompat & JBD2_INCOMPAT_CSUM_V3 != 0 {
            return 16;
        }
        let mut sz: usize = 8;
        if self.feat_incompat & JBD2_INCOMPAT_CSUM_V2 != 0 {
            sz = sz + 2;
        }
        if self.feat_incompat & JBD2_INCOMPAT_64BIT != 0 {
            sz = sz + 4;
        }
        sz
    }

    /// Whether log blocks carry a CRC32c tail.
    pub fn has_csum(&self) -> (r: bool)
        ensures
            r == spec_has_csum(self.feat_incompat),
    {
        self.feat_incompat & (JBD2_INCOMPAT_CSUM_V2 | JBD2_INCOMPAT_CSUM_V3) != 0
    }

    pub open spec fn spec_wrap(&self, n: u32) -> u32 {
        if n >= self.total {
            wrap32(self.first + (n - self.total))
        } else {
            n
        }
    }

    /// Log position `n` folded back into the circular log.
    pub fn wrap(&self, n: u32) -> (r: u32)
        ensures
            r == self.spec_wrap(n),
    {
        if n >= self.total {
            self.first.wrapping_add(n - self.total)
        } else {
            n
        }
    }

    /// Append the extent `start .. start + len` to the block map.
    pub fn push(&mut self, start: u32, len: u32)
        ensures
            final(self).runs@ == push_run(old(self).runs@, start, len),
            final(self).total == wrap32(old(self).total + len),
            final(self).first == old(self).first,
            final(self).head == old(self).head,
            final(self).sequence == old(self).sequence,
            final(self).block_size == old(self).block_size,
            final(self).feat_incompat == old(self).feat_incompat,
            final(self).uuid == old(self).uuid,
            final(self).csum_seed == old(self).csum_seed,
    {
        let n = self.runs.len();
        self.total = self.total.wrapping_add(len);
        if n > 0 {
            let (ls, ll) = self.runs[n - 1];
            if ls as u64 + ll as u64 == start as u64 {
                self.runs.set(n - 1, (ls, ll.wrapping_add(len)));
                return;
            }
        }
        if n < MAX_RUNS {
            self.runs.push((start, len));
        }
    }
}

// ─── Descriptor tags ────────────────────────────────────────────────────────

/// One descriptor tag: where the following log block belongs, and its flags.
#[derive(Clone, Copy, PartialEq, Eq, Structural)]
pub struct JTag {
    pub target: u64,
    pub flags: u16,
}

/// The tag at byte `p` of a descriptor block.
pub open spec fn tag_at(b: Seq<u8>, p: int, v3: bool, h64: bool) -> JTag {
    if v3 {
        JTag { target: (be32(b, p + 8) * 0x1_0000_0000 + be32(b, p)) as u64, flags: (be32(b, p + 4) % 0x1_0000) as u16 }
    } else {
        JTag {
            target: ((if h64 {
                be32(b, p + 8)
            } else {
                0
            }) * 0x1_0000_0000 + be32(b, p)) as u64,
            flags: be16(b, p + 4) as u16,
        }
    }
}

/// Where a descriptor tag keeps its fields, big-endian: the target block's
/// low word at byte 0, then with checksum v3 a 32-bit flags word at 4 (its
/// low half the flags) and the high word at 8, else the 16-bit flags at 4
/// and, on 64-bit journals, the high word at 8.
pub proof fn tag_layout_law(b: Seq<u8>, p: int, v3: bool, h64: bool)
    ensures
        ({
            let t = tag_at(b, p, v3, h64);
            let lo = b[p] * 0x100_0000 + b[p + 1] * 0x1_0000 + b[p + 2] * 0x100 + b[p + 3];
            let hi = b[p + 8] * 0x100_0000 + b[p + 9] * 0x1_0000 + b[p + 10] * 0x100 + b[p + 11];
            &&& t.target % 0x1_0000_0000 == lo
            &&& (v3 || h64) ==> t.target / 0x1_0000_0000 == hi
            &&& (!v3 && !h64) ==> t.target == lo
            &&& v3 ==> t.flags == b[p + 6] * 0x100 + b[p + 7]
            &&& !v3 ==> t.flags == b[p + 4] * 0x100 + b[p + 5]
        }),
{
    let lo = be32(b, p);
    let hi = be32(b, p + 8);
    assert(0 <= lo < 0x1_0000_0000 && 0 <= hi < 0x1_0000_0000);
    assert((hi * 0x1_0000_0000 + lo) % 0x1_0000_0000 == lo && (hi * 0x1_0000_0000 + lo) / 0x1_0000_0000 == hi
        && hi * 0x1_0000_0000 + lo < 0x1_0000_0000_0000_0000) by (nonlinear_arith)
        requires
            0 <= lo < 0x1_0000_0000,
            0 <= hi < 0x1_0000_0000,
    ;
    let fw = be32(b, p + 4);
    assert(fw % 0x1_0000 == b[p + 6] * 0x100 + b[p + 7]) by (nonlinear_arith)
        requires
            fw == b[p + 4] * 0x100_0000 + b[p + 5] * 0x1_0000 + b[p + 6] * 0x100 + b[p + 7],
            0 <= b[p + 4] < 0x100,
            0 <= b[p + 5] < 0x100,
            0 <= b[p + 6] < 0x100,
            0 <= b[p + 7] < 0x100,
    ;
}

/// Where the tag after the one at `p` starts.
pub open spec fn next_tag_pos(p: int, tb: int, v3: bool, flags: u16) -> int {
    p + tb + (if !v3 && flags & JBD2_FLAG_SAME_UUID == 0 {
        16int
    } else {
        0int
    })
}

/// The tags of a descriptor block from byte `p`, up to the last-tag flag or
/// the tag area's end `lim`.
pub open spec fn desc_tags(b: Seq<u8>, lim: int, tb: int, v3: bool, h64: bool, p: int) -> Seq<JTag>
    decreases lim + 16 - p,
    when tb > 0
{
    if p + tb > lim {
        Seq::empty()
    } else {
        let t = tag_at(b, p, v3, h64);
        if t.flags & JBD2_FLAG_LAST_TAG != 0 {
            seq![t]
        } else {
            seq![t] + desc_tags(b, lim, tb, v3, h64, next_tag_pos(p, tb, v3, t.flags))
        }
    }
}

/// End of the tag area of a descriptor block of `bs` bytes.
pub open spec fn tag_limit(bs: int, csum: bool) -> int {
    let tail = if csum {
        4int
    } else {
        0int
    };
    let top = if bs >= 12 + tail {
        bs
    } else {
        12
    };
    top - tail
}

/// Read the tag at byte `p`.
fn read_tag(b: &[u8], p: usize, v3: bool, h64: bool) -> (r: JTag)
    requires
        p + 8 <= b@.len(),
        v3 || h64 ==> p + 12 <= b@.len(),
    ensures
        r == tag_at(b@, p as int, v3, h64),
{
    let n = b.len();
    let lo = rd_be32(b, p) as u64;
    if v3 {
        let f = rd_be32(b, p + 4);
        let hi = rd_be32(b, p + 8) as u64;
        JTag { target: hi * 0x1_0000_0000 + lo, flags: (f % 0x1_0000) as u16 }
    } else {
        let f = rd_be16(b, p + 4);
        let hi: u64 = if h64 {
            rd_be32(b, p + 8) as u64
        } else {
            0
        };
        JTag { target: hi * 0x1_0000_0000 + lo, flags: f }
    }
}

/// The tags of the descriptor block in the first `bs` bytes of `b`, with
/// tags of `tb` bytes.
pub fn parse_descriptor(b: &[u8], bs: usize, tb: usize, v3: bool, h64: bool, csum: bool) -> (r: Vec<JTag>)
    requires
        16 <= bs <= 4096,
        bs <= b@.len(),
        8 <= tb <= 16,
        v3 || h64 ==> tb >= 12,
    ensures
        r@ == desc_tags(b@, tag_limit(bs as int, csum), tb as int, v3, h64, 12),
{
    let tail: usize = if csum {
        4
    } else {
        0
    };
    let lim: usize = (if bs >= 12 + tail {
        bs
    } else {
        12
    }) - tail;
    let mut out: Vec<JTag> = Vec::new();
    let mut p: usize = 12;
    let ghost whole = desc_tags(b@, lim as int, tb as int, v3, h64, 12);
    loop
        invariant_except_break
            whole == out@ + desc_tags(b@, lim as int, tb as int, v3, h64, p as int),
        invariant
            bs <= b@.len(),
            lim <= bs,
            8 <= tb <= 16,
            v3 || h64 ==> tb >= 12,
            p <= bs + 32,
            lim == tag_limit(bs as int, csum),
            bs <= 4096,
            whole == desc_tags(b@, lim as int, tb as int, v3, h64, 12),
        ensures
            whole == out@,
        decreases lim + 100 - p,
    {
        if p + tb > lim {
            assert(desc_tags(b@, lim as int, tb as int, v3, h64, p as int) =~= Seq::empty());
            assert(out@ + Seq::<JTag>::empty() =~= out@);
            break;
        }
        let t = read_tag(b, p, v3, h64);
        out.push(t);
        if t.flags & JBD2_FLAG_LAST_TAG != 0 {
            assert(desc_tags(b@, lim as int, tb as int, v3, h64, p as int) == seq![t]);
            assert(whole =~= out@);
            break;
        }
        let np = p + tb + if !v3 && t.flags & JBD2_FLAG_SAME_UUID == 0 {
            16
        } else {
            0
        };
        proof {
            let ghost rest = desc_tags(b@, lim as int, tb as int, v3, h64, np as int);
            assert(desc_tags(b@, lim as int, tb as int, v3, h64, p as int) == seq![t] + rest);
            assert(out@ + rest =~= out@.drop_last() + (seq![t] + rest));
        }
        p = np;
    }
    out
}

// ─── Revoke records ─────────────────────────────────────────────────────────

/// Revoke record at byte `off`, of `rl` bytes (8 on 64-bit journals).
pub open spec fn rec_at(b: Seq<u8>, off: int, rl: int) -> u64 {
    if rl == 8 {
        (be32(b, off) * 0x1_0000_0000 + be32(b, off + 4)) as u64
    } else {
        be32(b, off) as u64
    }
}

/// Records from byte `off` while they end by `limit`, at most `room` of them.
pub open spec fn revoke_recs(b: Seq<u8>, off: int, limit: int, rl: int, room: int) -> Seq<u64>
    decreases room,
{
    if room <= 0 || off + rl > limit {
        Seq::empty()
    } else {
        seq![rec_at(b, off, rl)] + revoke_recs(b, off + rl, limit, rl, room - 1)
    }
}

/// End of the records of a revoke block: its byte count, bounded by the
/// block less the checksum tail.
pub open spec fn revoke_limit(b: Seq<u8>, bs: int, csum: bool) -> int {
    let cap = bs - (if csum {
        4int
    } else {
        0int
    });
    if be32(b, 12) < cap {
        be32(b, 12)
    } else {
        cap
    }
}

/// The revoked block numbers of the revoke block in the first `bs` bytes of
/// `b`, at most `room` of them.
pub fn parse_revoke(b: &[u8], bs: usize, h64: bool, csum: bool, room: usize) -> (r: Vec<u64>)
    requires
        16 <= bs <= b@.len(),
        bs <= 4096,
    ensures
        r@ == revoke_recs(b@, 16, revoke_limit(b@, bs as int, csum), if h64 {
            8
        } else {
            4
        }, room as int),
        r@.len() <= room,
{
    let rcount = rd_be32(b, 12) as usize;
    let rl: usize = if h64 {
        8
    } else {
        4
    };
    let cap = bs - if csum {
        4
    } else {
        0
    };
    let limit = if rcount < cap {
        rcount
    } else {
        cap
    };
    let mut out: Vec<u64> = Vec::new();
    let mut off: usize = 16;
    let mut k: usize = 0;
    let ghost whole = revoke_recs(b@, 16, limit as int, rl as int, room as int);
    while off + rl <= limit && k < room
        invariant
            limit <= bs <= b@.len(),
            bs <= 4096,
            rl == 4 || rl == 8,
            k <= room,
            out@.len() == k,
            off <= bs + 8,
            whole == out@ + revoke_recs(b@, off as int, limit as int, rl as int, room - k),
        decreases room - k,
    {
        let v: u64 = if rl == 8 {
            (rd_be32(b, off) as u64) * 0x1_0000_0000 + rd_be32(b, off + 4) as u64
        } else {
            rd_be32(b, off) as u64
        };
        assert(v == rec_at(b@, off as int, rl as int));
        proof {
            let rest = revoke_recs(b@, (off + rl) as int, limit as int, rl as int, room - k - 1);
            assert(out@.push(v) + rest =~= out@ + (seq![v] + rest));
        }
        out.push(v);
        off = off + rl;
        k = k + 1;
    }
    assert(revoke_recs(b@, off as int, limit as int, rl as int, room - k) =~= Seq::empty());
    assert(out@ + Seq::<u64>::empty() =~= out@);
    out
}

/// A revoke entry (block, transaction) cancels a tag of transaction `seq`
/// for `target` when it names the block in that or a later transaction.
pub open spec fn spec_revoked(table: Seq<(u64, u32)>, target: u64, seq: u32) -> bool {
    exists|i: int| 0 <= i < table.len() && #[trigger] table[i].0 == target && table[i].1 >= seq
}

/// Revocation: with no records nothing is revoked, and one more record
/// (block `t`, transaction `s`) revokes exactly the replays of block `t` in
/// transactions up to and including `s`, on top of what was revoked.
pub proof fn revoke_law(table: Seq<(u64, u32)>, t: u64, s: u32, target: u64, seq: u32)
    ensures
        !spec_revoked(Seq::<(u64, u32)>::empty(), target, seq),
        spec_revoked(table.push((t, s)), target, seq) == (spec_revoked(table, target, seq) || (target == t && seq <= s)),
        spec_revoked(table, target, seq) ==> forall|earlier: u32| earlier <= seq ==> #[trigger] spec_revoked(table, target, earlier),
{
    let t2 = table.push((t, s));
    if spec_revoked(t2, target, seq) {
        let i = choose|i: int| 0 <= i < t2.len() && #[trigger] t2[i].0 == target && t2[i].1 >= seq;
        if i < table.len() {
            assert(table[i] == t2[i]);
            assert(table[i].0 == target && table[i].1 >= seq);
        } else {
            assert(t2[i] == (t, s));
        }
    }
    if spec_revoked(table, target, seq) {
        let i = choose|i: int| 0 <= i < table.len() && #[trigger] table[i].0 == target && table[i].1 >= seq;
        assert(t2[i] == table[i]);
        assert(t2[i].0 == target && t2[i].1 >= seq);
    }
    if target == t && seq <= s {
        assert(t2[table.len() as int] == (t, s));
        assert(t2[table.len() as int].0 == target);
    }
}

/// Whether the replay of `target` in transaction `seq` is revoked.
pub fn is_revoked(table: &Vec<(u64, u32)>, target: u64, seq: u32) -> (r: bool)
    ensures
        r == spec_revoked(table@, target, seq),
{
    let mut i: usize = 0;
    while i < table.len()
        invariant
            i <= table@.len(),
            forall|k: int| 0 <= k < i ==> !(#[trigger] table@[k].0 == target && table@[k].1 >= seq),
        decreases table@.len() - i,
    {
        let (b, s) = table[i];
        if b == target && s >= seq {
            return true;
        }
        i = i + 1;
    }
    false
}

// ─── Building log blocks ────────────────────────────────────────────────────

/// The header of a log block: magic, block type, transaction id.
pub open spec fn has_header(b: Seq<u8>, btype: u32, seq: u32) -> bool {
    &&& be32(b, 0) == JBD2_MAGIC
    &&& be32(b, 4) == btype
    &&& be32(b, 8) == seq
}

/// A fresh log block of `bs` bytes with the given header.
fn header_block(bs: usize, btype: u32, seq: u32) -> (r: Vec<u8>)
    requires
        12 <= bs,
    ensures
        r@.len() == bs,
        has_header(r@, btype, seq),
        forall|i: int| 12 <= i < bs ==> #[trigger] r@[i] == 0,
{
    let mut b: Vec<u8> = vec![0u8; bs];
    wr_be32(b.as_mut_slice(), 0, JBD2_MAGIC);
    wr_be32(b.as_mut_slice(), 4, btype);
    wr_be32(b.as_mut_slice(), 8, seq);
    b
}

/// The checksum tail: the CRC32c of the block less its last four bytes.
pub open spec fn csum_tail_ok(b: Seq<u8>, seed: u32) -> bool {
    be32(b, b.len() - 4) == spec_crc32c(seed, b.subrange(0, b.len() - 4))
}

/// Store the checksum tail.
fn seal(b: &mut Vec<u8>, seed: u32)
    requires
        16 <= old(b)@.len(),
    ensures
        final(b)@.len() == old(b)@.len(),
        csum_tail_ok(final(b)@, seed),
        final(b)@.subrange(0, final(b)@.len() - 4) == old(b)@.subrange(0, old(b)@.len() - 4),
        forall|k: int| 0 <= k < old(b)@.len() - 4 ==> #[trigger] final(b)@[k] == old(b)@[k],
{
    let n = b.len();
    let cs = crc32c(seed, vstd::slice::slice_subrange(b.as_slice(), 0, n - 4));
    wr_be32(b.as_mut_slice(), n - 4, cs);
    assert(b@.subrange(0, n - 4) =~= old(b)@.subrange(0, n - 4));
}

/// The commit block of transaction `seq`.
pub fn build_commit(bs: usize, seq: u32, csum: bool, seed: u32) -> (r: Vec<u8>)
    requires
        16 <= bs,
    ensures
        r@.len() == bs,
        has_header(r@, JBD2_COMMIT, seq),
        csum ==> csum_tail_ok(r@, seed),
{
    let mut b = header_block(bs, JBD2_COMMIT, seq);
    if csum {
        let ghost before = b@;
        seal(&mut b, seed);
        assert(b@[0] == before[0] && b@[1] == before[1] && b@[2] == before[2] && b@[3] == before[3]);
        assert(b@[4] == before[4] && b@[5] == before[5] && b@[6] == before[6] && b@[7] == before[7]);
        assert(b@[8] == before[8] && b@[9] == before[9] && b@[10] == before[10] && b@[11] == before[11]);
    }
    b
}

/// Flags of tag `i` of `n` in a descriptor the driver writes: every tag
/// after the first shares the UUID, the last carries the last-tag flag, and
/// blocks whose data began with the journal magic are escaped.
pub open spec fn tag_flags(i: int, n: int, esc: bool) -> u16 {
    ((if i > 0 {
        2int
    } else {
        0int
    }) + (if i == n - 1 {
        8int
    } else {
        0int
    }) + (if esc {
        1int
    } else {
        0int
    })) as u16
}

/// The tags a descriptor written for blocks bound for `targets` carries.
pub open spec fn commit_tags(targets: Seq<u32>, esc: Seq<bool>) -> Seq<JTag> {
    Seq::new(targets.len(), |i: int| JTag { target: targets[i] as u64, flags: tag_flags(i, targets.len() as int, esc[i]) })
}

/// Byte offset of tag `i` in a descriptor the driver writes (the first tag
/// is followed by the journal UUID unless tags carry their own checksum).
pub open spec fn tag_pos(i: int, tb: int, v3: bool) -> int {
    if v3 {
        12 + 16 * i
    } else if i == 0 {
        12
    } else {
        28 + tb * i
    }
}

proof fn lemma_flag_bits(f: u16, a: u16, b: u16, e: u16)
    requires
        a == 0 || a == 2,
        b == 0 || b == 8,
        e == 0 || e == 1,
        f == a + b + e,
    ensures
        (f & JBD2_FLAG_LAST_TAG != 0) == (b == 8),
        (f & JBD2_FLAG_SAME_UUID != 0) == (a == 2),
        f < 16,
{
    assert((f & 8u16 != 0) == (b == 8)) by (bit_vector)
        requires
            a == 0 || a == 2,
            b == 0 || b == 8,
            e == 0 || e == 1,
            f == a + b + e,
    ;
    assert((f & 2u16 != 0) == (a == 2)) by (bit_vector)
        requires
            a == 0 || a == 2,
            b == 0 || b == 8,
            e == 0 || e == 1,
            f == a + b + e,
    ;
}

proof fn lemma_tag_pos_next(i: int, tb: int, v3: bool)
    requires
        0 <= i,
        v3 ==> tb == 16,
    ensures
        tag_pos(i + 1, tb, v3) == tag_pos(i, tb, v3) + tb + (if !v3 && i == 0 {
            16int
        } else {
            0int
        }),
{
    assert(tb * (i + 1) == tb * i + tb) by (nonlinear_arith);
    assert(tb * 1 == tb) by (nonlinear_arith);
}

proof fn lemma_tag_pos_step(i: int, tb: int, v3: bool, f: u16)
    requires
        0 <= i,
        8 <= tb,
        (f & JBD2_FLAG_SAME_UUID != 0) == (i > 0),
        v3 ==> tb == 16,
    ensures
        next_tag_pos(tag_pos(i, tb, v3), tb, v3, f) == tag_pos(i + 1, tb, v3),
{
    lemma_tag_pos_next(i, tb, v3);
}

proof fn lemma_tag_pos_bound(i: int, tb: int, v3: bool)
    requires
        0 <= i <= 16,
        8 <= tb <= 16,
    ensures
        12 <= tag_pos(i, tb, v3) <= 284,
        i > 0 ==> tag_pos(i, tb, v3) >= 12 + tb * i,
{
    assert(tb * i <= 16 * 16) by (nonlinear_arith)
        requires
            0 <= i <= 16,
            8 <= tb <= 16,
    ;
    assert(tb * i >= 0) by (nonlinear_arith)
        requires
            0 <= i,
            8 <= tb,
    ;
    assert(16 * i >= tb * i) by (nonlinear_arith)
        requires
            0 <= i,
            tb <= 16,
    ;
}

/// Bytes of a tag that `tag_at` reads.
pub open spec fn tag_width(v3: bool, h64: bool) -> int {
    if v3 || h64 {
        12
    } else {
        8
    }
}

proof fn lemma_tag_frame(d1: Seq<u8>, d2: Seq<u8>, q: int, v3: bool, h64: bool)
    requires
        forall|x: int| q <= x < q + tag_width(v3, h64) ==> #[trigger] d1[x] == d2[x],
    ensures
        tag_at(d1, q, v3, h64) == tag_at(d2, q, v3, h64),
{
    assert(d1[q] == d2[q] && d1[q + 1] == d2[q + 1] && d1[q + 2] == d2[q + 2] && d1[q + 3] == d2[q + 3]);
    assert(d1[q + 4] == d2[q + 4] && d1[q + 5] == d2[q + 5] && d1[q + 6] == d2[q + 6] && d1[q + 7] == d2[q + 7]);
    if v3 || h64 {
        assert(d1[q + 8] == d2[q + 8] && d1[q + 9] == d2[q + 9] && d1[q + 10] == d2[q + 10] && d1[q + 11] == d2[q + 11]);
    }
}

/// Store one tag at byte `p`.
fn write_tag(d: &mut Vec<u8>, p: usize, phys: u32, flags: u16, v3: bool, h64: bool)
    requires
        p + 12 <= old(d)@.len(),
    ensures
        final(d)@.len() == old(d)@.len(),
        tag_at(final(d)@, p as int, v3, h64) == (JTag { target: phys as u64, flags }),
        forall|x: int| 0 <= x < old(d)@.len() && (x < p || x >= p + tag_width(v3, h64)) ==> #[trigger] final(d)@[x] == old(d)@[x],
{
    let n = d.len();
    wr_be32(d.as_mut_slice(), p, phys);
    if v3 {
        wr_be32(d.as_mut_slice(), p + 4, flags as u32);
        wr_be32(d.as_mut_slice(), p + 8, 0);
        assert((flags as u32) % 0x1_0000 == flags);
    } else {
        wr_be16(d.as_mut_slice(), p + 4, flags);
        wr_be16(d.as_mut_slice(), p + 6, 0);
        if h64 {
            wr_be32(d.as_mut_slice(), p + 8, 0);
        }
    }
    assert(be32(d@, p as int) == phys);
}

/// Copy `src` into `d` from byte `off`.
fn write_bytes(d: &mut Vec<u8>, off: usize, src: &[u8])
    requires
        off + src@.len() <= old(d)@.len(),
    ensures
        final(d)@ == splice(old(d)@, off as int, src@),
{
    let dn = d.len();
    let n = src.len();
    let mut k: usize = 0;
    while k < n
        invariant
            n == src@.len(),
            dn == d@.len(),
            off + n <= d@.len(),
            k <= n,
            d@.len() == old(d)@.len(),
            forall|x: int| 0 <= x < d@.len() ==> #[trigger] d@[x] == if off <= x < off + k {
                src@[x - off]
            } else {
                old(d)@[x]
            },
        decreases n - k,
    {
        d.set(off + k, src[k]);
        k = k + 1;
    }
    assert(d@ =~= splice(old(d)@, off as int, src@));
}

proof fn lemma_desc_tags_built(d: Seq<u8>, lim: int, tb: int, v3: bool, h64: bool, want: Seq<JTag>, j: int)
    requires
        1 <= want.len() <= 16,
        0 <= j < want.len(),
        8 <= tb <= 16,
        v3 ==> tb == 16,
        tag_pos(want.len() - 1, tb, v3) + tb <= lim,
        forall|k: int| 0 <= k < want.len() ==> #[trigger] tag_at(d, tag_pos(k, tb, v3), v3, h64) == want[k],
        forall|k: int| 0 <= k < want.len() ==> (#[trigger] want[k].flags & JBD2_FLAG_LAST_TAG != 0) == (k == want.len() - 1),
        forall|k: int| 0 <= k < want.len() ==> (#[trigger] want[k].flags & JBD2_FLAG_SAME_UUID != 0) == (k > 0),
    ensures
        desc_tags(d, lim, tb, v3, h64, tag_pos(j, tb, v3)) == want.subrange(j, want.len() as int),
    decreases want.len() - j,
{
    let n = want.len() as int;
    let p = tag_pos(j, tb, v3);
    if !v3 && j > 0 && j < n - 1 {
        assert(tb * j <= tb * (n - 1)) by (nonlinear_arith)
            requires
                j < n - 1,
                tb >= 8,
        ;
    } else if v3 {
    }
    assert(p + tb <= lim) by {
        if v3 {
        } else if j > 0 {
            assert(tb * j <= tb * (n - 1)) by (nonlinear_arith)
                requires
                    j <= n - 1,
                    tb >= 8,
            ;
        } else if n > 1 {
            assert(tb * (n - 1) >= 0) by (nonlinear_arith)
                requires
                    n >= 1,
                    tb >= 8,
            ;
        }
    }
    let t = tag_at(d, p, v3, h64);
    assert(t == want[j]);
    if j == n - 1 {
        assert(want.subrange(j, n) =~= seq![t]);
    } else {
        lemma_tag_pos_step(j, tb, v3, t.flags);
        lemma_desc_tags_built(d, lim, tb, v3, h64, want, j + 1);
        assert(want.subrange(j, n) =~= seq![t] + want.subrange(j + 1, n));
    }
}

/// The descriptor block of a transaction whose blocks are bound for
/// `targets`, `esc[i]` telling whether block `i` was escaped.
pub fn build_descriptor(
    targets: &Vec<u32>,
    esc: &Vec<bool>,
    seq: u32,
    bs: usize,
    tb: usize,
    v3: bool,
    h64: bool,
    uuid: &[u8; 16],
    csum: bool,
    seed: u32,
) -> (r: Vec<u8>)
    requires
        1 <= targets@.len() <= 16,
        esc@.len() == targets@.len(),
        1024 <= bs <= 4096,
        8 <= tb <= 16,
        v3 ==> tb == 16,
        h64 && !v3 ==> tb >= 12,
    ensures
        r@.len() == bs,
        has_header(r@, JBD2_DESCRIPTOR, seq),
        desc_tags(r@, tag_limit(bs as int, csum), tb as int, v3, h64, 12) == commit_tags(targets@, esc@),
        csum ==> csum_tail_ok(r@, seed),
{
    let n = targets.len();
    let mut d = header_block(bs, JBD2_DESCRIPTOR, seq);
    let ghost want = commit_tags(targets@, esc@);
    let mut i: usize = 0;
    while i < n
        invariant
            n == targets@.len() == esc@.len(),
            1 <= n <= 16,
            1024 <= bs <= 4096,
            8 <= tb <= 16,
            v3 ==> tb == 16,
            h64 && !v3 ==> tb >= 12,
            i <= n,
            d@.len() == bs,
            has_header(d@, JBD2_DESCRIPTOR, seq),
            want == commit_tags(targets@, esc@),
            forall|k: int| tag_pos(i as int, tb as int, v3) <= k < bs ==> #[trigger] d@[k] == 0,
            forall|j: int| 0 <= j < i ==> #[trigger] tag_at(d@, tag_pos(j, tb as int, v3), v3, h64) == want[j],
        decreases n - i,
    {
        proof {
            lemma_tag_pos_bound(i as int, tb as int, v3);
            lemma_tag_pos_bound(i as int + 1, tb as int, v3);
        }
        let phys = targets[i];
        let a: u16 = if i > 0 {
            2
        } else {
            0
        };
        let b: u16 = if i + 1 == n {
            8
        } else {
            0
        };
        let e: u16 = if esc[i] {
            1
        } else {
            0
        };
        let flags: u16 = a + b + e;
        assert(flags == tag_flags(i as int, n as int, esc@[i as int]));
        let p: usize = if v3 {
            12 + 16 * i
        } else if i == 0 {
            12
        } else {
            28 + tb * i
        };
        assert(p == tag_pos(i as int, tb as int, v3));
        let ghost before = d@;
        write_tag(&mut d, p, phys, flags, v3, h64);
        let ghost mid = d@;
        if !v3 && i == 0 {
            write_bytes(&mut d, 12 + tb, uuid.as_slice());
        }
        proof {
            let np = tag_pos(i as int + 1, tb as int, v3);
            lemma_tag_pos_next(i as int, tb as int, v3);
            assert(np >= p + tag_width(v3, h64));
            assert forall|k: int| np <= k < bs implies #[trigger] d@[k] == 0 by {
                assert(before[k] == 0);
            }
            assert forall|j: int| 0 <= j < i + 1 implies #[trigger] tag_at(d@, tag_pos(j, tb as int, v3), v3, h64) == want[j] by {
                if j < i {
                    let q = tag_pos(j, tb as int, v3);
                    lemma_tag_pos_bound(j, tb as int, v3);
                    lemma_tag_pos_bound(j + 1, tb as int, v3);
                    lemma_tag_pos_next(j, tb as int, v3);
                    assert(q + tag_width(v3, h64) <= tag_pos(j + 1, tb as int, v3));
                    assert(tag_pos(j + 1, tb as int, v3) <= p) by {
                        if !v3 && j + 1 < i {
                            assert(tb * (j + 1) <= tb * i) by (nonlinear_arith)
                                requires
                                    j + 1 < i,
                                    tb >= 8,
                            ;
                        }
                    }
                    assert forall|x: int| q <= x < q + tag_width(v3, h64) implies #[trigger] d@[x] == before[x] by {}
                    lemma_tag_frame(d@, before, q, v3, h64);
                } else {
                    assert(tag_at(mid, p as int, v3, h64) == want[j]);
                    if !v3 && i == 0 {
                        assert forall|x: int| p <= x < p + tag_width(v3, h64) implies #[trigger] d@[x] == mid[x] by {}
                        lemma_tag_frame(d@, mid, p as int, v3, h64);
                    }
                }
            }
            assert(d@[0] == before[0] && d@[1] == before[1] && d@[2] == before[2] && d@[3] == before[3]);
            assert(d@[4] == before[4] && d@[5] == before[5] && d@[6] == before[6] && d@[7] == before[7]);
            assert(d@[8] == before[8] && d@[9] == before[9] && d@[10] == before[10] && d@[11] == before[11]);
        }
        i = i + 1;
    }
    let lim: usize = tag_limit_exec(bs, csum);
    proof {
        lemma_tag_pos_bound(n as int - 1, tb as int, v3);
        assert forall|k: int| 0 <= k < want.len() implies (#[trigger] want[k].flags & JBD2_FLAG_LAST_TAG != 0) == (k == want.len() - 1) && (want[k].flags & JBD2_FLAG_SAME_UUID != 0) == (k > 0) by {
            lemma_flag_bits(want[k].flags, if k > 0 { 2u16 } else { 0u16 }, if k == n - 1 { 8u16 } else { 0u16 }, if esc@[k] { 1u16 } else { 0u16 });
        }
        lemma_desc_tags_built(d@, lim as int, tb as int, v3, h64, want, 0);
        assert(want.subrange(0, n as int) =~= want);
    }
    if csum {
        let ghost before = d@;
        seal(&mut d, seed);
        proof {
            assert forall|k: int| 0 <= k < want.len() implies #[trigger] tag_at(d@, tag_pos(k, tb as int, v3), v3, h64) == want[k] by {
                lemma_tag_pos_bound(k, tb as int, v3);
                let q = tag_pos(k, tb as int, v3);
                assert forall|x: int| q <= x < q + tag_width(v3, h64) implies #[trigger] d@[x] == before[x] by {}
                lemma_tag_frame(d@, before, q, v3, h64);
            }
            assert forall|k: int| 0 <= k < want.len() implies (#[trigger] want[k].flags & JBD2_FLAG_LAST_TAG != 0) == (k == want.len() - 1) && (want[k].flags & JBD2_FLAG_SAME_UUID != 0) == (k > 0) by {
                lemma_flag_bits(want[k].flags, if k > 0 { 2u16 } else { 0u16 }, if k == n - 1 { 8u16 } else { 0u16 }, if esc@[k] { 1u16 } else { 0u16 });
            }
            lemma_desc_tags_built(d@, lim as int, tb as int, v3, h64, want, 0);
            assert(d@[0] == before[0] && d@[1] == before[1] && d@[2] == before[2] && d@[3] == before[3]);
            assert(d@[4] == before[4] && d@[5] == before[5] && d@[6] == before[6] && d@[7] == before[7]);
            assert(d@[8] == before[8] && d@[9] == before[9] && d@[10] == before[10] && d@[11] == before[11]);
        }
    }
    d
}

/// End of the tag area of a descriptor block of `bs` bytes.
fn tag_limit_exec(bs: usize, csum: bool) -> (r: usize)
    requires
        16 <= bs,
    ensures
        r == tag_limit(bs as int, csum),
{
    if csum {
        bs - 4
    } else {
        bs
    }
}

} // verus!

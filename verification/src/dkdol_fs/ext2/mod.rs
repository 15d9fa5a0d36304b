//! EXT2 / EXT3 / EXT4 driver with JBD2 journal recovery and journaled
//! metadata writes.
//!
//! At mount the superblock is read and, when the volume carries a journal,
//! the journal inode's block map and the JBD2 superblock are loaded; a
//! journal that needs replay is recovered in three passes (scan, revoke,
//! replay) and the volume marked clean. Metadata writes go through
//! micro-transactions of at most 16 blocks: descriptor, data and commit
//! blocks are logged, then the blocks are written home and the journal is
//! checkpointed.

use vstd::prelude::*;
use vstd::string::StringSliceAdditionalSpecFns;
use crate::bytes::{le16, le32, be32, rd_le16, rd_le32, rd_be32, wr_le16, wr_le32, wr_be32, splice, be32_bytes, le16_bytes, le32_bytes, lemma_le32_round};
use crate::gc_fs::{BlockDev, FsError, Result, Metadata, sectors_bytes, zeros, read_run, spec_path_split, lemma_path_split_shorter, name_after_set};
use crate::text::{trim_start, first_index, count_leading, find_from, lemma_first_index_unique, lemma_trim_start, str_bytes, bytes_eq, utf8_str};
use crate::gc_fs::fat::{last_component, last_comp, split_parent, spec_split_parent};
use self::layout::{Superblock, Inode, GroupDesc, parse_superblock, parse_inode, sb_accepts, sb_fields, inode_fields, gd_of, decode_group_desc, write_inode_to_buf, inode_stored, crc32c, spec_crc32c, COMPAT_HAS_JOURNAL, EXT2_VALID_FS, EXT4_INCOMPAT_EXTENTS, EXT4_EXTENTS_FL, EXT4_INLINE_DATA_FL, EXT4_EXTENT_MAGIC, IFMT, IFREG, IFDIR, IFLNK, ROOT_INO};
use self::journal::{JournalState, JTag, commit_tags, has_header, csum_tail_ok, build_descriptor, build_commit, push_runs, jbmap_from, wrap32, desc_tags, tag_limit, spec_tag_bytes, spec_has_csum, parse_descriptor, parse_revoke, is_revoked, MAX_RUNS, MAX_REVOKE, JBD2_MAGIC, JBD2_DESCRIPTOR, JBD2_COMMIT, JBD2_REVOKE, JBD2_FLAG_ESCAPE, JBD2_INCOMPAT_64BIT, JBD2_INCOMPAT_CSUM_V3};
use self::blockio::{valid_bs, spb, blk, blk_or_zero, read_block, read_block64, write_block, wrote_block, only_block, lemma_sectors_frame, lemma_write_block_effect, MAX_BLOCK64};
use self::dir::{drop_at, dropped, DirEnt, dir_ents, ents_view, walk_dir_block, place_entry, drop_entry, rec_bytes};
use self::bitmap::{first_clear, bit_clear, with_bit, without_bit, first_clear_bit, set_bit, clear_bit};
use self::extent::{node_fits, node_count, node_max, node_depth, leaf_extents, index_child, checked_count, leaf_entry, leaf_hit, index_hit, search_leaf, search_index, leaf_appended, leaf_append, lemma_splice_keeps_depth, lemma_appended_depth, new_node, put_index, put_leaf, IndPath, spec_ind_path, ind_path, ent, leaf_logical, leaf_len, leaf_phys};

pub mod layout;
pub mod journal;
pub mod blockio;
pub mod extent;
pub mod bitmap;
pub mod dir;

verus! {

/// What to do at mount with a journal that needs replay.
#[derive(Clone, Copy, PartialEq, Eq, Debug, Structural)]
pub enum JournalMode {
    /// Refuse the mount.
    RequireClean,
    /// Mount without replaying.
    Ignore,
}

/// Superblock geometry the driver can work with: a 1, 2 or 4 KiB block,
/// non-empty groups whose bitmaps fit a block, inode records of at least
/// 128 bytes that tile a block, and 32- or 64-byte group descriptors.
pub open spec fn sb_sane(sb: Superblock) -> bool {
    &&& valid_bs(sb.block_size as int)
    &&& sb.inodes_per_group > 0
    &&& sb.blocks_per_group > 0
    &&& sb.groups_count > 0
    &&& 128 <= sb.inode_size <= sb.block_size
    &&& (sb.block_size as int) % (sb.inode_size as int) == 0
    &&& (sb.desc_size == 32 || sb.desc_size == 64)
    &&& sb.journal_inum >= 1
    &&& sb.blocks_per_group <= 8 * sb.block_size
    &&& sb.inodes_per_group <= 8 * sb.block_size
}

/// The 4 KiB buffer a mount parses: the two sectors holding the superblock
/// followed by zeros.
pub open spec fn sb_image<D: BlockDev>(dev: &D) -> Seq<u8> {
    sectors_bytes(dev, 2, 2) + zeros(3072)
}

/// Whether the volume carries a journal.
pub open spec fn has_journal(sb: Superblock) -> bool {
    sb.feature_compat & COMPAT_HAS_JOURNAL != 0
}

/// Whether the volume's journal needs replay.
pub open spec fn needs_recovery(sb: Superblock) -> bool {
    has_journal(sb) && sb.state & EXT2_VALID_FS == 0
}

/// Whether the driver handles the superblock's geometry.
fn geometry_ok(sb: &Superblock) -> (r: bool)
    ensures
        r == sb_sane(*sb),
{
    (sb.block_size == 1024 || sb.block_size == 2048 || sb.block_size == 4096)
        && sb.inodes_per_group > 0 && sb.blocks_per_group > 0 && sb.groups_count > 0
        && sb.inode_size >= 128 && sb.inode_size as u32 <= sb.block_size
        && sb.block_size % (sb.inode_size as u32) == 0
        && (sb.desc_size == 32 || sb.desc_size == 64) && sb.journal_inum >= 1
        && sb.blocks_per_group as u64 <= 8 * sb.block_size as u64
        && sb.inodes_per_group as u64 <= 8 * sb.block_size as u64
}

/// The superblock image `img` admits a mount under `jmode`: it parses, the
/// driver handles its geometry, and under `RequireClean` its journal, if
/// any, needs no replay.
pub open spec fn sb_admits(img: Seq<u8>, jmode: JournalMode) -> bool {
    &&& sb_accepts(img)
    &&& exists|sb: Superblock| #[trigger] sb_fields(img, sb) && sb_sane(sb) && !(jmode
        == JournalMode::RequireClean && needs_recovery(sb))
}

/// Check the superblock image read from byte 1024 of a volume before a
/// mount under `jmode`, returning its fields; every refusal is
/// `BadFormat`.
pub fn check_superblock(img: &[u8], jmode: JournalMode) -> (r: Result<Superblock>)
    ensures
        r is Ok <==> sb_admits(img@, jmode),
        r is Err ==> r == Err::<Superblock, FsError>(FsError::BadFormat),
        r matches Ok(sb) ==> sb_fields(img@, sb) && sb_sane(sb) && !(jmode == JournalMode::RequireClean
            && needs_recovery(sb)),
{
    let sb = parse_superblock(img)?;
    let needs = sb.feature_compat & COMPAT_HAS_JOURNAL != 0 && sb.state & EXT2_VALID_FS == 0;
    if !geometry_ok(&sb) || (jmode == JournalMode::RequireClean && needs) {
        proof {
            assert forall|o: Superblock| #[trigger] sb_fields(img@, o) implies !(sb_sane(o) && !(jmode
                == JournalMode::RequireClean && needs_recovery(o))) by {
                assert(o.block_size == sb.block_size && o.inodes_per_group == sb.inodes_per_group);
                assert(o.blocks_per_group == sb.blocks_per_group && o.groups_count == sb.groups_count);
                assert(o.inode_size == sb.inode_size && o.desc_size == sb.desc_size);
                assert(o.journal_inum == sb.journal_inum && o.feature_compat == sb.feature_compat);
                assert(o.state == sb.state);
            }
        }
        return Err(FsError::BadFormat);
    }
    Ok(sb)
}

/// Descriptors per block.
pub open spec fn gd_per_block(sb: Superblock) -> int {
    sb.block_size as int / sb.desc_size as int
}

/// Block holding the descriptor of group `g` (the table starts after the
/// superblock's block).
pub open spec fn gd_block(sb: Superblock, g: int) -> int {
    (if sb.block_size == 1024 {
        2int
    } else {
        1int
    }) + g / gd_per_block(sb)
}

/// Byte offset of group `g`'s descriptor in its block.
pub open spec fn gd_off(sb: Superblock, g: int) -> int {
    (g % gd_per_block(sb)) * sb.desc_size
}

/// Block and byte offset of inode `ino`'s record, given its group's inode
/// table.
pub open spec fn inode_pos(sb: Superblock, ino: int, itable: int) -> (int, int) {
    let local = (ino - 1) % (sb.inodes_per_group as int);
    let off = local * sb.inode_size;
    (itable + off / (sb.block_size as int), off % (sb.block_size as int))
}

/// Group of inode `ino`.
pub open spec fn inode_group(sb: Superblock, ino: int) -> int {
    (ino - 1) / (sb.inodes_per_group as int)
}

/// `js` holds the fields of the JBD2 superblock `b` (its head at the log
/// start when the journal is empty).
pub open spec fn jsb_fields(b: Seq<u8>, js: JournalState) -> bool {
    &&& be32(b, 0) == JBD2_MAGIC
    &&& js.block_size == be32(b, 12)
    &&& js.total == be32(b, 16)
    &&& js.first == be32(b, 20)
    &&& js.sequence == be32(b, 24)
    &&& js.head == (if be32(b, 28) == 0 {
        be32(b, 20)
    } else {
        be32(b, 28)
    })
    &&& js.feat_incompat == be32(b, 40)
    &&& js.uuid@ == b.subrange(48, 64)
    &&& js.csum_seed == spec_crc32c(!0u32, b.subrange(48, 64))
}

/// Log position `k` blocks past `pos`.
pub open spec fn advance(js: JournalState, pos: u32, k: nat) -> u32
    decreases k,
{
    if k == 0 {
        pos
    } else {
        advance(js, js.spec_wrap(wrap32(pos + 1)), (k - 1) as nat)
    }
}

/// Whether tags carry their own checksum (the v3 tag layout).
pub open spec fn csum_v3(feat: u32) -> bool {
    feat & JBD2_INCOMPAT_CSUM_V3 != 0
}

/// The transaction id after the last committed transaction of the log,
/// scanning at most `fuel` log blocks from `pos` while blocks carry the
/// magic and the expected transaction id.
pub open spec fn scan_end<D: BlockDev>(dev: &D, bs: int, js: JournalState, pos: u32, seq: u32, end: u32, fuel: nat) -> u32
    decreases fuel,
{
    if fuel == 0 {
        end
    } else {
        match js.jbmap_spec(pos as int) {
            None => end,
            Some(p) => {
                let b = blk_or_zero(dev, bs, p as int);
                if be32(b, 0) != JBD2_MAGIC || be32(b, 8) != seq {
                    end
                } else {
                    let pos1 = js.spec_wrap(wrap32(pos + 1));
                    let t = be32(b, 4);
                    let feat = js.feat_incompat;
                    if t == JBD2_DESCRIPTOR {
                        let n = desc_tags(b, tag_limit(bs, spec_has_csum(feat)), spec_tag_bytes(feat), csum_v3(feat), false, 12).len();
                        scan_end(dev, bs, js, advance(js, pos1, n), seq, end, (fuel - 1) as nat)
                    } else if t == JBD2_COMMIT {
                        scan_end(dev, bs, js, pos1, wrap32(seq + 1), wrap32(seq + 1), (fuel - 1) as nat)
                    } else if t == JBD2_REVOKE {
                        scan_end(dev, bs, js, pos1, seq, end, (fuel - 1) as nat)
                    } else {
                        end
                    }
                }
            },
        }
    }
}

/// The transaction id recovery resumes the log at.
pub open spec fn recovered_seq<D: BlockDev>(dev: &D, bs: int, js: JournalState) -> u32 {
    scan_end(dev, bs, js, js.head, js.sequence, js.sequence, js.total as nat)
}

/// The JBD2 superblock `b` marked empty at transaction `seq`.
pub open spec fn jsb_clean(b: Seq<u8>, seq: u32) -> Seq<u8> {
    splice(splice(b, 24, be32_bytes(seq)), 28, be32_bytes(0))
}

/// The superblock sectors `s` with the valid-state bit set.
pub open spec fn sb_marked_clean(s: Seq<u8>) -> Seq<u8> {
    splice(s, 58, le16_bytes((le16(s, 58) as u16) | EXT2_VALID_FS))
}

// ─── Write logs ─────────────────────────────────────────────────────────────

/// Sector `l` after the block writes `ws`, in order, over `dev`.
pub open spec fn sector_after<D: BlockDev>(dev: &D, bs: int, ws: Seq<(int, Seq<u8>)>, l: int) -> Seq<u8>
    decreases ws.len(),
{
    if ws.len() == 0 {
        dev.sector(l)
    } else {
        let (b, d) = ws.last();
        if b * spb(bs) <= l < b * spb(bs) + spb(bs) {
            d.subrange((l - b * spb(bs)) * 512, (l - b * spb(bs)) * 512 + 512)
        } else {
            sector_after(dev, bs, ws.drop_last(), l)
        }
    }
}

/// `new` is `old` after the block writes `ws`.
pub open spec fn after_writes<D: BlockDev>(old: &D, new: &D, bs: int, ws: Seq<(int, Seq<u8>)>) -> bool {
    forall|l: int| #[trigger] new.sector(l) == sector_after(old, bs, ws, l)
}

/// `n` sectors from `lba` after the writes `ws`.
pub open spec fn sectors_after<D: BlockDev>(dev: &D, bs: int, ws: Seq<(int, Seq<u8>)>, lba: int, n: nat) -> Seq<u8>
    decreases n,
{
    if n == 0 {
        Seq::empty()
    } else {
        sectors_after(dev, bs, ws, lba, (n - 1) as nat) + sector_after(dev, bs, ws, lba + n - 1)
    }
}

/// Block `b` after the writes `ws`.
pub open spec fn blk_after<D: BlockDev>(dev: &D, bs: int, ws: Seq<(int, Seq<u8>)>, b: int) -> Seq<u8> {
    if b == 0 {
        zeros(bs)
    } else {
        sectors_after(dev, bs, ws, b * spb(bs), spb(bs) as nat)
    }
}

pub proof fn lemma_after_writes_step<D: BlockDev>(old: &D, mid: &D, new: &D, bs: int, ws: Seq<(int, Seq<u8>)>, b: int, d: Seq<u8>)
    requires
        after_writes(old, mid, bs, ws),
        wrote_block(mid, new, bs, b, d),
    ensures
        after_writes(old, new, bs, ws.push((b, d))),
{
    assert forall|l: int| #[trigger] new.sector(l) == sector_after(old, bs, ws.push((b, d)), l) by {
        assert(ws.push((b, d)).drop_last() =~= ws);
    }
}

pub proof fn lemma_after_writes_read<D: BlockDev>(old: &D, mid: &D, bs: int, ws: Seq<(int, Seq<u8>)>, lba: int, n: nat)
    requires
        after_writes(old, mid, bs, ws),
    ensures
        sectors_bytes(mid, lba, n) == sectors_after(old, bs, ws, lba, n),
    decreases n,
{
    if n > 0 {
        lemma_after_writes_read(old, mid, bs, ws, lba, (n - 1) as nat);
        assert(mid.sector(lba + n - 1) == sector_after(old, bs, ws, lba + n - 1));
    }
}

/// `d` with its first four bytes cleared when it begins with the journal
/// magic (so the log block cannot be taken for a log header).
pub open spec fn escaped(d: Seq<u8>) -> Seq<u8> {
    if be32(d, 0) == JBD2_MAGIC {
        splice(d, 0, seq![0u8, 0u8, 0u8, 0u8])
    } else {
        d
    }
}

/// Log block `i` positions after `head`, mapped to its physical block.
pub open spec fn log_blk(js: JournalState, head: u32, i: nat) -> int {
    js.jbmap_spec(advance(js, head, i) as int).unwrap() as int
}

/// The writes of a journaled commit of `blocks` (already escaped) with the
/// descriptor `descr` and commit block `commit`: descriptor, data and commit
/// blocks into the log, the JBD2 superblock, the blocks home, and the JBD2
/// superblock again once checkpointed.
pub open spec fn commit_writes<D: BlockDev>(
    dev: &D,
    bs: int,
    js: JournalState,
    blocks: Seq<(u32, Vec<u8>)>,
    descr: Seq<u8>,
    commit: Seq<u8>,
    seq: u32,
) -> Seq<(int, Seq<u8>)> {
    let n = blocks.len();
    let p0 = js.jbmap_spec(0).unwrap() as int;
    let logw = seq![(log_blk(js, js.head, 0), descr)] + Seq::new(
        n,
        |i: int| (log_blk(js, js.head, (i + 1) as nat), blocks[i].1@),
    ) + seq![(log_blk(js, js.head, (n + 1) as nat), commit)];
    let w1 = logw.push((p0, jsb_clean(blk_after(dev, bs, logw, p0), wrap32(seq + 1))));
    let w2 = w1 + Seq::new(n, |i: int| (blocks[i].0 as int, blocks[i].1@));
    w2.push((p0, jsb_clean(blk_after(dev, bs, w2, p0), wrap32(seq + 1))))
}

pub proof fn lemma_blk_after_read<D: BlockDev>(old: &D, mid: &D, bs: int, ws: Seq<(int, Seq<u8>)>, b: int)
    requires
        after_writes(old, mid, bs, ws),
    ensures
        blk_or_zero(mid, bs, b) == blk_after(old, bs, ws, b),
{
    if b != 0 {
        lemma_after_writes_read(old, mid, bs, ws, b * spb(bs), spb(bs) as nat);
    }
}

pub proof fn lemma_advance_step(js: JournalState, pos: u32, k: nat)
    ensures
        advance(js, pos, k + 1) == js.spec_wrap(wrap32(advance(js, pos, k) + 1)),
    decreases k,
{
    let p1 = js.spec_wrap(wrap32(pos + 1));
    assert(advance(js, pos, k + 1) == advance(js, p1, k));
    if k > 0 {
        lemma_advance_step(js, p1, (k - 1) as nat);
        assert(advance(js, pos, k) == advance(js, p1, (k - 1) as nat));
    }
}

/// Every log position a commit of `n` blocks writes is mapped.
pub open spec fn log_mapped(js: JournalState, n: nat) -> bool {
    &&& js.jbmap_spec(0) is Some
    &&& forall|i: nat| i <= n + 1 ==> (#[trigger] js.jbmap_spec(advance(js, js.head, i) as int)) is Some
}

// ─── File block mapping ─────────────────────────────────────────────────────

/// The physical block of `logical` in the leaf `node` (0 for a hole), or
/// `None` when the node's entries overrun it.
pub open spec fn leaf_map(node: Seq<u8>, logical: int) -> Option<u32> {
    if node_fits(node) {
        Some(match leaf_hit(node, logical, 0) {
            Some(p) => p,
            None => 0,
        })
    } else {
        None
    }
}

/// Descend `levels` index levels from the node `node` to the leaf mapping
/// `logical`.
pub open spec fn ext_descend<D: BlockDev>(dev: &D, bs: int, node: Seq<u8>, logical: int, levels: nat) -> Option<u32>
    decreases levels,
{
    if levels == 0 {
        leaf_map(node, logical)
    } else if !node_fits(node) {
        None
    } else {
        match index_hit(node, logical, 0) {
            None => Some(0),
            Some(c) => ext_descend(dev, bs, blk_or_zero(dev, bs, c as int), logical, (levels - 1) as nat),
        }
    }
}

/// Physical block of `logical` through an extent tree rooted at `root`;
/// trees deeper than three index levels are walked as three.
pub open spec fn ext_lookup<D: BlockDev>(dev: &D, bs: int, root: Seq<u8>, logical: int) -> Option<u32> {
    let d = node_depth(root);
    ext_descend(dev, bs, root, logical, (if d >= 3 {
        3int
    } else {
        d
    }) as nat)
}

/// Pointer `idx` of indirect block `b` (block 0 reads as all zeros).
pub open spec fn ind_at<D: BlockDev>(dev: &D, bs: int, b: int, idx: int) -> u32 {
    if b == 0 {
        0
    } else {
        le32(blk(dev, bs, b), 4 * idx) as u32
    }
}

/// Physical block of `logical` through direct and indirect pointers, or
/// `None` beyond the triply indirect range.
pub open spec fn ind_lookup<D: BlockDev>(dev: &D, bs: int, blocks: Seq<u32>, logical: int) -> Option<u32> {
    let bpp = bs / 4;
    match spec_ind_path(logical, bpp) {
        IndPath::Direct(i) => Some(blocks[i as int]),
        IndPath::Single(i) => Some(ind_at(dev, bs, blocks[12] as int, i as int)),
        IndPath::Double(i, j) => Some(ind_at(dev, bs, ind_at(dev, bs, blocks[13] as int, i as int) as int, j as int)),
        IndPath::Triple(i, j, k) => if i < bpp {
            Some(ind_at(dev, bs, ind_at(dev, bs, ind_at(dev, bs, blocks[14] as int, i as int) as int, j as int) as int, k as int))
        } else {
            None
        },
    }
}

/// Physical block of `logical` in the file: 0 for inline data and holes,
/// `None` where the mapping is malformed.
pub open spec fn file_map<D: BlockDev>(dev: &D, bs: int, ino: Inode, logical: int) -> Option<u32> {
    if ino.flags & EXT4_INLINE_DATA_FL != 0 {
        Some(0)
    } else if ino.flags & EXT4_EXTENTS_FL != 0 {
        ext_lookup(dev, bs, ino.block_raw@, logical)
    } else {
        ind_lookup(dev, bs, ino.blocks@, logical)
    }
}

/// Logical block after the last byte of a file of `size` bytes.
pub open spec fn next_logical(size: u64, bs: int) -> u32 {
    ((size as int + bs - 1) / bs) as u32
}

/// A file of `size` bytes spans the fewest `bs`-byte blocks that hold it,
/// so the block after its end is that count.
pub proof fn next_logical_law(size: u64, bs: int)
    requires
        1024 <= bs <= 4096,
        size <= 0xFFFF_FFFF * 1024,
    ensures
        next_logical(size, bs) * bs >= size,
        size > 0 ==> (next_logical(size, bs) - 1) * bs < size,
        size == 0 ==> next_logical(size, bs) == 0,
{
    let q = (size as int + bs - 1) / bs;
    vstd::arithmetic::div_mod::lemma_fundamental_div_mod(size as int + bs - 1, bs);
    if size == 0 {
        vstd::arithmetic::div_mod::lemma_basic_div(bs - 1, bs);
    }
    assert(q * bs <= size as int + bs - 1);
    assert(size as int + bs - 1 < 0x1_0000_0000 * bs) by (nonlinear_arith)
        requires
            size <= 0xFFFF_FFFF * 1024,
            1024 <= bs,
    ;
    assert(q < 0x1_0000_0000) by (nonlinear_arith)
        requires
            q * bs < 0x1_0000_0000 * bs,
            bs > 0,
    ;
    assert(q * bs >= size && (size > 0 ==> (q - 1) * bs < size)) by (nonlinear_arith)
        requires
            size as int + bs - 1 == bs * q + (size as int + bs - 1) % bs,
            0 <= (size as int + bs - 1) % bs < bs,
            bs >= 1024,
    ;
}

/// `a` and `b` agree on every inode field but the block map and block count.
pub open spec fn same_but_map(a: Inode, b: Inode) -> bool {
    &&& a.mode == b.mode
    &&& a.flags == b.flags
    &&& a.size == b.size
    &&& a.mtime == b.mtime
    &&& a.links == b.links
}

/// `a` and `b` agree on everything but the free counts and the state.
pub open spec fn same_geom(a: Superblock, b: Superblock) -> bool {
    (Superblock { free_blocks_count: a.free_blocks_count, free_inodes_count: a.free_inodes_count, state: a.state, ..b }) == a
}

// ─── Directories ────────────────────────────────────────────────────────────

/// Listed entries of the first `k` blocks of directory `d`, or `None` where
/// its block map is malformed.
pub open spec fn dir_blocks<D: BlockDev>(dev: &D, bs: int, d: Inode, k: int) -> Option<Seq<(Seq<u8>, u32, u8)>>
    decreases k,
{
    if k <= 0 {
        Some(Seq::empty())
    } else {
        match dir_blocks(dev, bs, d, k - 1) {
            None => None,
            Some(prev) => match file_map(dev, bs, d, k - 1) {
                None => None,
                Some(p) => Some(prev + if p == 0 {
                    Seq::empty()
                } else {
                    dir_ents(blk(dev, bs, p as int), 0)
                }),
            },
        }
    }
}

/// The listed entries of directory `d`: from its inline data, or from each
/// of its blocks in order (holes skipped).
pub open spec fn dir_listing<D: BlockDev>(dev: &D, bs: int, d: Inode) -> Option<Seq<(Seq<u8>, u32, u8)>> {
    if d.flags & EXT4_INLINE_DATA_FL != 0 {
        Some(dir_ents(d.block_raw@.subrange(0, if d.size < 60 {
            d.size as int
        } else {
            60
        }), 0))
    } else {
        dir_blocks(dev, bs, d, next_logical(d.size, bs) as int)
    }
}

/// The first entry named `name` of the listing `l` has inode `i`.
pub open spec fn found_in(l: Option<Seq<(Seq<u8>, u32, u8)>>, name: Seq<u8>, i: u32) -> bool {
    match l {
        Some(es) => match find_ent(es, name, 0) {
            Some(k) => es[k].1 == i,
            None => false,
        },
        None => false,
    }
}

/// Index of the first entry named `name`.
pub open spec fn find_ent(es: Seq<(Seq<u8>, u32, u8)>, name: Seq<u8>, i: int) -> Option<int>
    decreases es.len() - i,
{
    if i < 0 || i >= es.len() {
        None
    } else if es[i].0 == name {
        Some(i)
    } else {
        find_ent(es, name, i + 1)
    }
}

// ─── File contents ──────────────────────────────────────────────────────────

/// Logical block of byte `x` (block numbers are 32-bit).
pub open spec fn lblk(x: int, bs: int) -> int {
    (x / bs) % 0x1_0000_0000
}

/// Byte `x` of a block-mapped file (holes read as zeros), or `None` where
/// its map is malformed.
pub open spec fn file_byte<D: BlockDev>(dev: &D, bs: int, ino: Inode, x: int) -> Option<u8> {
    match file_map(dev, bs, ino, lblk(x, bs)) {
        None => None,
        Some(p) => Some(if p == 0 {
            0u8
        } else {
            blk(dev, bs, p as int)[x % bs]
        }),
    }
}

/// The inode `raw_read` and `raw_write` map bytes through.
pub open spec fn map_inode(flags: u32, block_raw: [u8; 60], blocks: [u32; 15], size: u64) -> Inode {
    Inode { mode: IFREG, flags, size, mtime: 0, block_raw, blocks, i_blocks: 0, links: 1 }
}

// ─── Allocation ─────────────────────────────────────────────────────────────

/// The `k`-th group the allocator tries from `pref` among `ng` groups:
/// `pref`, `pref + 1`, `pref - 1`, `pref + 2`, `pref - 2`, … (cyclically).
pub open spec fn probe_group(pref: int, ng: int, k: int) -> int {
    let d = (k + 1) / 2;
    if k == 0 {
        pref % ng
    } else if k % 2 == 1 {
        (pref + d) % ng
    } else {
        (pref + ng - d) % ng
    }
}

/// Items per group, and the group-descriptor field and bitmap, of blocks
/// (`inode == false`) or inodes.
pub open spec fn per_group(sb: Superblock, inode: bool) -> int {
    if inode {
        sb.inodes_per_group as int
    } else {
        sb.blocks_per_group as int
    }
}

pub open spec fn gd_free(d: GroupDesc, inode: bool) -> int {
    if inode {
        d.free_inodes as int
    } else {
        d.free_blocks as int
    }
}

pub open spec fn gd_bitmap(d: GroupDesc, inode: bool) -> int {
    if inode {
        d.inode_bitmap as int
    } else {
        d.block_bitmap as int
    }
}

/// `v - 1`, or 0 for 0.
pub open spec fn sat_dec(v: int) -> int {
    if v > 0 {
        v - 1
    } else {
        0
    }
}

/// The superblock sectors `s` with the free counts and state of `sb`.
pub open spec fn sb_synced(s: Seq<u8>, sb: Superblock) -> Seq<u8> {
    splice(splice(splice(s, 12, le32_bytes(sb.free_blocks_count)), 16, le32_bytes(sb.free_inodes_count)), 58, le16_bytes(sb.state))
}

// ─── Block-map specification ────────────────────────────────────────────────

/// Geometry and position fields of two journal states agree.
pub open spec fn same_geometry(a: JournalState, b: JournalState) -> bool {
    &&& a.first == b.first
    &&& a.head == b.head
    &&& a.sequence == b.sequence
    &&& a.block_size == b.block_size
    &&& a.feat_incompat == b.feat_incompat
    &&& a.uuid == b.uuid
    &&& a.csum_seed == b.csum_seed
}

/// Length of the run of non-zero entries of `s` from `i`.
pub open spec fn nz_len(s: Seq<u32>, i: int) -> int
    decreases s.len() - i,
{
    if i < 0 || i >= s.len() || s[i] == 0 {
        i
    } else {
        nz_len(s, i + 1)
    }
}

/// Single-block extents for the first `n` pointers of `s`.
pub open spec fn ones(s: Seq<u32>, n: int) -> Seq<(u32, u32)> {
    Seq::new(n as nat, |j: int| (s[j], 1u32))
}

/// The little-endian 32-bit words of a block.
pub open spec fn words(b: Seq<u8>) -> Seq<u32> {
    Seq::new((b.len() / 4) as nat, |i: int| le32(b, 4 * i) as u32)
}

/// The little-endian 32-bit words of `b`.
pub fn le32_words(b: &[u8]) -> (r: Vec<u32>)
    ensures
        r@ == words(b@),
{
    let bl = b.len();
    let n = bl / 4;
    let mut out: Vec<u32> = Vec::new();
    let mut i: usize = 0;
    while i < n
        invariant
            bl == b@.len(),
            n == b@.len() / 4,
            i <= n,
            out@ == words(b@).subrange(0, i as int),
        decreases n - i,
    {
        assert(4 * i + 4 <= b@.len());
        out.push(rd_le32(b, 4 * i));
        proof {
            assert(out@ =~= words(b@).subrange(0, i + 1));
        }
        i = i + 1;
    }
    assert(words(b@).subrange(0, n as int) =~= words(b@));
    out
}

/// Extents below a depth-one index node `cn`, child by child (the first `k`).
pub open spec fn grand_ext<D: BlockDev>(dev: &D, bs: int, cn: Seq<u8>, k: int) -> Seq<(u32, u32)>
    decreases k,
{
    if k <= 0 {
        Seq::empty()
    } else {
        grand_ext(dev, bs, cn, k - 1) + leaf_extents(blk_or_zero(dev, bs, index_child(cn, k - 1)))
    }
}

/// Extents under child block `c` of the root.
pub open spec fn child_ext<D: BlockDev>(dev: &D, bs: int, c: int) -> Seq<(u32, u32)> {
    let cn = blk_or_zero(dev, bs, c);
    if node_depth(cn) == 0 {
        leaf_extents(cn)
    } else {
        grand_ext(dev, bs, cn, node_count(cn))
    }
}

/// Extents under the first `k` children of the root node.
pub open spec fn root_ext<D: BlockDev>(dev: &D, bs: int, root: Seq<u8>, k: int) -> Seq<(u32, u32)>
    decreases k,
{
    if k <= 0 {
        Seq::empty()
    } else {
        root_ext(dev, bs, root, k - 1) + child_ext(dev, bs, index_child(root, k - 1))
    }
}

/// The physical extents of an inode's data, in file order, as the block map
/// walks them.
pub open spec fn inode_extents<D: BlockDev>(dev: &D, bs: int, ino: Inode) -> Seq<(u32, u32)> {
    let raw = ino.block_raw@;
    if ino.flags & EXT4_EXTENTS_FL != 0 {
        if node_depth(raw) == 0 {
            leaf_extents(raw)
        } else {
            root_ext(dev, bs, raw, node_count(raw))
        }
    } else {
        let d = ino.blocks@.subrange(0, 12);
        let direct = ones(d, nz_len(d, 0));
        if ino.blocks@[12] != 0 {
            let w = words(blk_or_zero(dev, bs, ino.blocks@[12] as int));
            direct + ones(w, nz_len(w, 0))
        } else {
            direct
        }
    }
}

pub proof fn lemma_push_runs_concat(r: Seq<(u32, u32)>, a: Seq<(u32, u32)>, b: Seq<(u32, u32)>)
    ensures
        push_runs(r, a + b) == push_runs(push_runs(r, a), b),
    decreases b.len(),
{
    if b.len() == 0 {
        assert(a + b =~= a);
    } else {
        lemma_push_runs_concat(r, a, b.drop_last());
        assert((a + b).drop_last() =~= a + b.drop_last());
        assert((a + b).last() == b.last());
    }
}

/// A block map run list stays within the run limit.
pub proof fn lemma_push_runs_wf(r: Seq<(u32, u32)>, e: Seq<(u32, u32)>)
    requires
        r.len() <= MAX_RUNS,
    ensures
        push_runs(r, e).len() <= MAX_RUNS,
    decreases e.len(),
{
    if e.len() > 0 {
        lemma_push_runs_wf(r, e.drop_last());
    }
}

/// How many of `bs` freeing counts: blocks 0 and 1 are never freed.
pub open spec fn freed_count(bs: Seq<u32>) -> nat
    decreases bs.len(),
{
    if bs.len() == 0 {
        0
    } else {
        freed_count(bs.drop_last()) + if bs.last() >= 2 {
            1nat
        } else {
            0nat
        }
    }
}

/// The blocks of the run of `len` blocks from `phy` (wrapping at 32 bits).
pub open spec fn run_blocks(phy: u32, len: nat) -> Seq<u32> {
    Seq::new(len, |j: int| ((phy + j) % 0x1_0000_0000) as u32)
}

/// The blocks freed for the first `k` children of the extent index node
/// `raw` when each is a leaf on `dev`: the leaf's extents, then the leaf.
pub open spec fn leaves_blocks<D: BlockDev>(dev: &D, bs: int, raw: Seq<u8>, k: int) -> Seq<u32>
    decreases k,
{
    if k <= 0 {
        Seq::empty()
    } else {
        leaves_blocks(dev, bs, raw, k - 1) + extents_blocks(leaf_extents(blk_or_zero(dev, bs, index_child(raw, k - 1))))
            + seq![index_child(raw, k - 1) as u32]
    }
}

/// The blocks of the extents `es`, in order.
pub open spec fn extents_blocks(es: Seq<(u32, u32)>) -> Seq<u32>
    decreases es.len(),
{
    if es.len() == 0 {
        Seq::empty()
    } else {
        extents_blocks(es.drop_last()) + run_blocks(es.last().0, es.last().1 as nat)
    }
}

/// The superblock after freeing the blocks `bs` one by one: the free
/// count grows by those that count, modulo 2^32.
pub open spec fn count_freed(sb: Superblock, bs: Seq<u32>) -> Superblock {
    Superblock { free_blocks_count: ((sb.free_blocks_count + freed_count(bs)) % 0x1_0000_0000) as u32, ..sb }
}

/// Freeing one more block.
pub proof fn lemma_count_step(sb: Superblock, bs: Seq<u32>, b: u32)
    ensures
        count_freed(sb, bs.push(b)) == (if b >= 2 {
            Superblock { free_blocks_count: wrap32(count_freed(sb, bs).free_blocks_count + 1), ..count_freed(sb, bs) }
        } else {
            count_freed(sb, bs)
        }),
{
    assert(bs.push(b).drop_last() =~= bs);
    let a = sb.free_blocks_count + freed_count(bs);
    vstd::arithmetic::div_mod::lemma_add_mod_noop(a as int, 1, 0x1_0000_0000);
    vstd::arithmetic::div_mod::lemma_small_mod(1, 0x1_0000_0000);
    if a % 0x1_0000_0000 + 1 < 0x1_0000_0000 {
        vstd::arithmetic::div_mod::lemma_small_mod((a % 0x1_0000_0000 + 1) as nat, 0x1_0000_0000);
    }
}

/// Freeing `a` and then `b` counts as freeing `a + b`.
pub proof fn lemma_count_concat(sb: Superblock, a: Seq<u32>, b: Seq<u32>)
    ensures
        count_freed(count_freed(sb, a), b) == count_freed(sb, a + b),
    decreases b.len(),
{
    if b.len() == 0 {
        assert(a + b =~= a);
        let x = count_freed(sb, a);
        vstd::arithmetic::div_mod::lemma_small_mod(x.free_blocks_count as nat, 0x1_0000_0000);
        assert(count_freed(x, b) == x);
    } else {
        let b0 = b.drop_last();
        lemma_count_concat(sb, a, b0);
        lemma_count_step(count_freed(sb, a), b0, b.last());
        lemma_count_step(sb, a + b0, b.last());
        assert(b0.push(b.last()) =~= b);
        assert((a + b0).push(b.last()) =~= a + b);
    }
}

/// Directory block `b` with the live record named `name` dropped (as
/// `drop_entry` does), or unchanged when it has none.
pub open spec fn drop_result(b: Seq<u8>, name: Seq<u8>) -> Seq<u8> {
    match drop_at(b, 0, 0, name) {
        Some((o, p)) => dropped(b, o, p),
        None => b,
    }
}

/// An inode image describes one inode.
pub proof fn lemma_inode_fields_unique(s: Seq<u8>, bs: u32, a: Inode, b: Inode)
    requires
        inode_fields(s, bs, a),
        inode_fields(s, bs, b),
    ensures
        a == b,
{
    assert(a.blocks =~= b.blocks);
    assert(a.block_raw =~= b.block_raw);
}

/// A metadata micro-transaction: up to 16 blocks bound for their homes.
pub struct Txn {
    pub blocks: Vec<(u32, Vec<u8>)>,
    pub seq: u32,
}

impl Txn {
    pub fn new(seq: u32) -> (r: Txn)
        ensures
            r.blocks@.len() == 0,
            r.seq == seq,
    {
        Txn { blocks: Vec::new(), seq }
    }

    /// At most 16 blocks, each of `bs` bytes.
    pub open spec fn wf(&self, bs: int) -> bool {
        &&& self.blocks@.len() <= 16
        &&& forall|i: int| 0 <= i < self.blocks@.len() ==> (#[trigger] self.blocks@[i]).1@.len() == bs
    }
}

/// Split a path at its first `/` after dropping leading `/`s; the remainder
/// loses its leading `/`s too.
fn split_path_bytes(p: &[u8]) -> (r: (&[u8], &[u8]))
    ensures
        (r.0@, r.1@) == spec_path_split(p@),
{
    let k = count_leading(p, 0x2F);
    let t = vstd::slice::slice_subrange(p, k, p.len());
    let i = find_from(t, 0, 0x2F);
    proof {
        lemma_first_index_unique(t@, 0x2F, i as int);
    }
    if i < t.len() {
        let first = vstd::slice::slice_subrange(t, 0, i);
        let r1 = vstd::slice::slice_subrange(t, i + 1, t.len());
        let k2 = count_leading(r1, 0x2F);
        let rest = vstd::slice::slice_subrange(r1, k2, r1.len());
        (first, rest)
    } else {
        proof {
            assert(t@ =~= t@.subrange(0, i as int));
        }
        let empty = vstd::slice::slice_subrange(t, i, i);
        assert(empty@ =~= Seq::<u8>::empty());
        (t, empty)
    }
}

/// `p` without its leading `/`s.
fn trim_slashes(p: &[u8]) -> (r: &[u8])
    ensures
        r@ == trim_start(p@, 0x2F),
{
    let k = count_leading(p, 0x2F);
    vstd::slice::slice_subrange(p, k, p.len())
}

/// The metadata record of inode `d` named `name`.
pub open spec fn meta_of(m: Metadata, d: Inode, name: Seq<u8>) -> bool {
    &&& m.is_dir == (d.mode & IFMT == IFDIR)
    &&& m.size == d.size
    &&& m.readonly == (d.mode & 0o200 == 0)
    &&& !m.hidden
    &&& m.mtime == d.mtime
    &&& m.name@ == name_after_set(Seq::new(256, |i: int| 0u8), name)
}

/// A mounted ext2/3/4 volume.
pub struct Ext2<D: BlockDev> {
    dev: D,
    sb: Superblock,
    sb_lba: u64,
    sb_off: usize,
    journal: Option<JournalState>,
}

impl<D: BlockDev> Ext2<D> {
    pub closed spec fn spec_dev(&self) -> D {
        self.dev
    }

    pub closed spec fn spec_sb(&self) -> Superblock {
        self.sb
    }

    pub closed spec fn spec_journal(&self) -> Option<JournalState> {
        self.journal
    }

    /// The volume's invariant.
    pub closed spec fn wf(&self) -> bool {
        &&& self.dev.sector_len() == 512
        &&& sb_sane(self.sb)
        &&& self.sb_lba == 2
        &&& self.sb_off == 0
        &&& (self.journal matches Some(j) ==> j.wf() && j.block_size == self.sb.block_size)
    }

    /// The bytes of block `b` of the volume.
    pub open spec fn block(&self, b: int) -> Seq<u8> {
        blk(&self.spec_dev(), self.spec_sb().block_size as int, b)
    }

    /// Descriptor of group `g`.
    pub open spec fn gd_spec(&self, g: int) -> GroupDesc {
        let sb = self.spec_sb();
        gd_of(self.block(gd_block(sb, g)), gd_off(sb, g), sb.desc_size, sb.feature_incompat)
    }

    /// Block and byte offset of inode `ino`'s record.
    pub open spec fn inode_at(&self, ino: int) -> (int, int) {
        let sb = self.spec_sb();
        inode_pos(sb, ino, self.gd_spec(inode_group(sb, ino)).inode_table as int)
    }

    /// The bytes from inode `ino`'s record to the end of its block.
    pub open spec fn inode_record(&self, ino: int) -> Seq<u8> {
        let (b, off) = self.inode_at(ino);
        self.block(b).subrange(off, self.spec_sb().block_size as int)
    }

    /// Mount with the default policy: a journal that needs replay refuses
    /// the mount.
    pub fn mount(dev: D) -> (r: Result<Self>)
        ensures
            dev.sector_len() != 512 ==> r == Err::<Self, FsError>(FsError::BadFormat),
            !sb_admits(sb_image(&dev), JournalMode::RequireClean) ==> r is Err,
            r matches Ok(v) ==> v.wf() && !needs_recovery(v.spec_sb()) && v.spec_dev() == dev,
    {
        Self::mount_opts(dev, JournalMode::RequireClean)
    }

    /// Mount `dev`: read and check the superblock; with a journal, load its
    /// block map and JBD2 superblock, and replay it when it needs replay and
    /// `jmode` allows. Only 512-byte sectors are handled, and superblocks
    /// outside the geometry the driver handles are refused as malformed.
    pub fn mount_opts(dev: D, jmode: JournalMode) -> (r: Result<Self>)
        ensures
            dev.sector_len() != 512 ==> r == Err::<Self, FsError>(FsError::BadFormat),
            !sb_admits(sb_image(&dev), jmode) ==> r is Err,
            r matches Ok(v) ==> {
                &&& v.wf()
                &&& sb_accepts(sb_image(&dev))
                &&& sb_fields(sb_image(&dev), Superblock { state: v.spec_sb().state, ..v.spec_sb() })
                &&& (jmode == JournalMode::RequireClean ==> !needs_recovery(v.spec_sb()) && v.spec_dev() == dev)
                &&& (jmode == JournalMode::Ignore ==> v.spec_dev() == dev)
                &&& (v.spec_journal() is Some <==> has_journal(v.spec_sb()))
                &&& (!has_journal(v.spec_sb()) ==> v.spec_dev() == dev && v.spec_sb().state == le16(sb_image(&dev), 58))
            },
    {
        if dev.sector_size() != 512 {
            return Err(FsError::BadFormat);
        }
        let mut buf: Vec<u8> = vec![0u8; 4096];
        read_run(&dev, 2, 2, &mut buf)?;
        proof {
            assert(buf@ =~= sb_image(&dev));
        }
        let sb = check_superblock(buf.as_slice(), jmode)?;
        let has_j = sb.feature_compat & COMPAT_HAS_JOURNAL != 0;
        let needs = has_j && sb.state & EXT2_VALID_FS == 0;
        let mut vol = Ext2 { dev, sb, sb_lba: 2, sb_off: 0, journal: None };
        if has_j {
            vol.init_journal()?;
            if needs && jmode == JournalMode::Ignore {
            } else if needs {
                vol.journal_recover()?;
            }
        }
        Ok(vol)
    }

    /// "EXT4" with extents, "EXT3" with a journal, else "EXT2".
    pub fn kind_str(&self) -> (r: &'static str)
        ensures
            r@ == (if self.spec_sb().feature_incompat & EXT4_INCOMPAT_EXTENTS != 0 {
                "EXT4"@
            } else if has_journal(self.spec_sb()) {
                "EXT3"@
            } else {
                "EXT2"@
            }),
    {
        if self.sb.feature_incompat & EXT4_INCOMPAT_EXTENTS != 0 {
            "EXT4"
        } else if self.sb.feature_compat & COMPAT_HAS_JOURNAL != 0 {
            "EXT3"
        } else {
            "EXT2"
        }
    }

    /// Descriptor of block group `g`.
    fn group_desc(&self, g: u32) -> (r: Result<GroupDesc>)
        requires
            self.wf(),
        ensures
            r matches Ok(d) ==> d == self.gd_spec(g as int),
    {
        let bs = self.sb.block_size;
        let ds = self.sb.desc_size as u32;
        let per = if ds == 32 {
            bs / 32
        } else {
            bs / 64
        };
        let gdt: u32 = if bs == 1024 {
            2
        } else {
            1
        };
        proof {
            assert(per >= 16);
            assert(g / per <= 0x1000_0000) by (nonlinear_arith)
                requires
                    per >= 16,
                    g <= 0xFFFF_FFFF,
            ;
            assert((g % per) * ds + ds <= per * ds) by (nonlinear_arith)
                requires
                    per >= 1,
                    g % per < per,
                    ds >= 0,
            ;
            assert(per * ds == bs);
        }
        let blkidx = gdt + g / per;
        let off = ((g % per) * ds) as usize;
        let buf = read_block(&self.dev, bs, blkidx)?;
        Ok(decode_group_desc(buf.as_slice(), off, self.sb.desc_size, self.sb.feature_incompat))
    }

    /// Block and byte offset of inode `ino`'s record.
    fn inode_loc(&self, ino: u32) -> (r: Result<(u64, usize)>)
        requires
            self.wf(),
            ino >= 1,
        ensures
            r matches Ok((b, off)) ==> self.inode_at(ino as int) == (b as int, off as int),
            r matches Ok((b, off)) ==> off + self.spec_sb().inode_size <= self.spec_sb().block_size,
    {
        let idx = ino - 1;
        let ipg = self.sb.inodes_per_group;
        let group = idx / ipg;
        let local = idx % ipg;
        let gd = self.group_desc(group)?;
        assert(group as int == inode_group(self.sb, ino as int));
        let bs = self.sb.block_size as u64;
        let isz = self.sb.inode_size as u64;
        proof {
            assert(local * isz <= 0xFFFF_FFFF * 0xFFFF) by (nonlinear_arith)
                requires
                    local <= 0xFFFF_FFFF,
                    isz <= 0xFFFF,
            ;
        }
        let off: u64 = local as u64 * isz;
        let add = off / bs;
        if gd.inode_table > u64::MAX - add {
            return Err(FsError::BadFormat);
        }
        proof {
            let s = self.sb;
            assert(off % bs + isz <= bs) by (nonlinear_arith)
                requires
                    off == local * isz,
                    bs % isz == 0,
                    isz >= 128,
                    bs >= isz,
            {
                let q: int = (bs / isz) as int;
                let li: int = local as int;
                let zi: int = isz as int;
                assert(bs == zi * q);
                vstd::arithmetic::div_mod::lemma_truncate_middle(li, zi, q);
                assert(off == zi * li);
                assert(off % bs == zi * (li % q));
                assert(li % q <= q - 1);
                assert(zi * (li % q) <= zi * (q - 1));
            }
            assert(inode_pos(s, ino as int, gd.inode_table as int) == ((gd.inode_table + add) as int, (off % bs) as int));
            assert(self.inode_at(ino as int) == ((gd.inode_table + add) as int, (off % bs) as int));
        }
        Ok((gd.inode_table + add, (off % bs) as usize))
    }

    /// Read inode `ino`; numbers outside 1 ..= the inode count are not found.
    pub fn read_inode(&self, ino: u32) -> (r: Result<Inode>)
        requires
            self.wf(),
        ensures
            (ino < 1 || ino > self.spec_sb().inodes_count) ==> r == Err::<Inode, FsError>(FsError::NotFound),
            r matches Ok(i) ==> inode_fields(self.inode_record(ino as int), self.spec_sb().block_size, i),
    {
        if ino < 1 || ino > self.sb.inodes_count {
            return Err(FsError::NotFound);
        }
        let (b, off) = self.inode_loc(ino)?;
        let bs = self.sb.block_size;
        let buf = read_block64(&self.dev, bs, b)?;
        let rec = vstd::slice::slice_subrange(buf.as_slice(), off, bs as usize);
        let i = parse_inode(rec, bs);

        Ok(i)
    }

    /// Load the journal: the journal inode's block map and the JBD2
    /// superblock in its first log block. A missing magic, or a journal block
    /// size other than the volume's, is refused as malformed.
    fn init_journal(&mut self) -> (r: Result<()>)
        requires
            old(self).wf(),
        ensures
            final(self).wf(),
            final(self).dev == old(self).dev,
            final(self).sb == old(self).sb,
            r is Ok ==> (final(self).journal matches Some(js) && exists|jino: Inode| {
                &&& js.runs@ == push_runs(
                    Seq::empty(),
                    inode_extents(&old(self).dev, old(self).sb.block_size as int, jino),
                )
                &&& (js.jbmap_spec(0) matches Some(p0) && jsb_fields(
                    blk_or_zero(&old(self).dev, old(self).sb.block_size as int, p0 as int),
                    js,
                ))
            }),
    {
        let jino = self.sb.journal_inum;
        if jino < 1 {
            return Ok(());
        }
        let jinode = self.read_inode(jino)?;
        let mut js = JournalState {
            runs: Vec::new(),
            total: 0,
            first: 1,
            head: 1,
            sequence: 1,
            block_size: self.sb.block_size,
            feat_incompat: 0,
            uuid: [0u8; 16],
            csum_seed: 0,
        };
        self.build_block_map(&jinode, &mut js)?;
        let phys0 = match js.jbmap(0) {
            Some(p) => p,
            None => return Err(FsError::BadFormat),
        };
        let bs = self.sb.block_size;
        let jsb = read_block(&self.dev, bs, phys0)?;
        let b = jsb.as_slice();
        if rd_be32(b, 0) != JBD2_MAGIC {
            return Err(FsError::BadFormat);
        }
        let jbs = rd_be32(b, 12);
        if jbs != bs {
            return Err(FsError::BadFormat);
        }
        js.block_size = jbs;
        js.total = rd_be32(b, 16);
        js.first = rd_be32(b, 20);
        js.sequence = rd_be32(b, 24);
        let s_start = rd_be32(b, 28);
        js.feat_incompat = rd_be32(b, 40);
        js.uuid = [
            b[48], b[49], b[50], b[51], b[52], b[53], b[54], b[55],
            b[56], b[57], b[58], b[59], b[60], b[61], b[62], b[63],
        ];
        js.csum_seed = crc32c(!0u32, js.uuid.as_slice());
        js.head = if s_start == 0 {
            js.first
        } else {
            s_start
        };
        proof {
            assert(js.uuid@ =~= b@.subrange(48, 64));
        }
        self.journal = Some(js);
        Ok(())
    }

    /// Whether group `g` has a free block (or inode): its descriptor counts
    /// one and its bitmap shows one below the group size.
    pub open spec fn usable(&self, g: int, inode: bool) -> bool {
        let sb = self.spec_sb();
        let d = self.gd_spec(g);
        &&& gd_free(d, inode) != 0
        &&& first_clear(blk_or_zero(&self.spec_dev(), sb.block_size as int, gd_bitmap(d, inode)), per_group(sb, inode), 0) is Some
    }

    /// The item `usable` finds in group `g`, numbered across the volume
    /// (inodes from 1).
    pub open spec fn claimed(&self, g: int, inode: bool) -> int {
        let sb = self.spec_sb();
        let d = self.gd_spec(g);
        let b = first_clear(blk_or_zero(&self.spec_dev(), sb.block_size as int, gd_bitmap(d, inode)), per_group(sb, inode), 0).unwrap();
        g * per_group(sb, inode) + b + (if inode {
            1int
        } else {
            0int
        })
    }

    /// Transaction id for the next transaction.
    fn txn_seq(&self) -> (r: u32)
        ensures
            r == match self.spec_journal() {
                Some(j) => j.sequence,
                None => 1,
            },
    {
        match &self.journal {
            Some(j) => j.sequence,
            None => 1,
        }
    }

    /// Read block `phys` into the next slot of `txn`.
    fn txn_load(&self, txn: &mut Txn, phys: u32) -> (r: Result<usize>)
        requires
            self.wf(),
            old(txn).wf(self.sb.block_size as int),
        ensures
            final(txn).wf(self.sb.block_size as int),
            final(txn).seq == old(txn).seq,
            old(txn).blocks@.len() >= 16 ==> r == Err::<usize, FsError>(FsError::NoSpace),
            r is Err ==> final(txn).blocks@ == old(txn).blocks@,
            r matches Ok(i) ==> i == old(txn).blocks@.len() && final(txn).blocks@.len() == i + 1
                && final(txn).blocks@.subrange(0, i as int) == old(txn).blocks@
                && final(txn).blocks@[i as int].0 == phys
                && final(txn).blocks@[i as int].1@ == blk_or_zero(&self.dev, self.sb.block_size as int, phys as int),
    {
        if txn.blocks.len() >= 16 {
            return Err(FsError::NoSpace);
        }
        let idx = txn.blocks.len();
        let buf = read_block(&self.dev, self.sb.block_size, phys)?;
        txn.blocks.push((phys, buf));
        assert(txn.blocks@.subrange(0, idx as int) =~= old(txn).blocks@);
        Ok(idx)
    }

    /// Load the descriptor-table block holding group `g` into `txn`; returns
    /// the slot and the descriptor's byte offset.
    fn txn_group_desc(&self, txn: &mut Txn, g: u32) -> (r: Result<(usize, usize)>)
        requires
            self.wf(),
            old(txn).wf(self.sb.block_size as int),
        ensures
            final(txn).wf(self.sb.block_size as int),
            final(txn).seq == old(txn).seq,
            r is Err ==> final(txn).blocks@ == old(txn).blocks@,
            r matches Ok((i, o)) ==> i == old(txn).blocks@.len() && final(txn).blocks@.len() == i + 1
                && final(txn).blocks@.subrange(0, i as int) == old(txn).blocks@
                && final(txn).blocks@[i as int].0 == gd_block(self.sb, g as int)
                && final(txn).blocks@[i as int].1@ == self.block(gd_block(self.sb, g as int))
                && o == gd_off(self.sb, g as int) && o + self.sb.desc_size <= self.sb.block_size,
    {
        let bs = self.sb.block_size;
        let ds = self.sb.desc_size as u32;
        let per = if ds == 32 {
            bs / 32
        } else {
            bs / 64
        };
        let gdt: u32 = if bs == 1024 {
            2
        } else {
            1
        };
        proof {
            assert(per >= 16);
            assert(g / per <= 0x1000_0000) by (nonlinear_arith)
                requires
                    per >= 16,
                    g <= 0xFFFF_FFFF,
            ;
            assert((g % per) * ds + ds <= per * ds) by (nonlinear_arith)
                requires
                    per >= 1,
                    g % per < per,
                    ds >= 0,
            ;
            assert(per * ds == bs);
        }
        let blkidx = gdt + g / per;
        let off = ((g % per) * ds) as usize;
        let i = self.txn_load(txn, blkidx)?;
        Ok((i, off))
    }

    /// Store the free counts and state of the in-memory superblock on disk.
    fn sync_superblock(&mut self) -> (r: Result<()>)
        requires
            old(self).wf(),
        ensures
            final(self).wf(),
            final(self).sb == old(self).sb,
            final(self).journal == old(self).journal,
            r is Ok ==> wrote_block(&old(self).dev, &final(self).dev, 1024, 1, sb_synced(blk(&old(self).dev, 1024, 1), old(self).sb)),
    {
        let mut buf = read_block(&self.dev, 1024, 1)?;
        wr_le32(buf.as_mut_slice(), 12, self.sb.free_blocks_count);
        wr_le32(buf.as_mut_slice(), 16, self.sb.free_inodes_count);
        wr_le16(buf.as_mut_slice(), 58, self.sb.state);
        write_block(&mut self.dev, 1024, 1, buf.as_slice())
    }

    /// The transaction claiming the first free block (or inode) of group
    /// `g` (its bitmap bit set, the group's free count lowered) and the item
    /// claimed; `None` when the group has none.
    fn plan_claim(&self, g: u32, inode: bool) -> (r: Result<Option<(Txn, u32)>>)
        requires
            self.wf(),
        ensures
            r matches Ok(None) ==> !self.usable(g as int, inode),
            r matches Ok(Some((t, x))) ==> self.usable(g as int, inode) && x == self.claimed(g as int, inode)
                && t.wf(self.sb.block_size as int) && t.blocks@.len() == 2 && (inode ==> x >= 1),
    {
        let gd = self.group_desc(g)?;
        let free = if inode {
            gd.free_inodes
        } else {
            gd.free_blocks
        };
        if free == 0 {
            return Ok(None);
        }
        let limit = if inode {
            self.sb.inodes_per_group
        } else {
            self.sb.blocks_per_group
        };
        let bmap = if inode {
            gd.inode_bitmap
        } else {
            gd.block_bitmap
        };
        let bs = self.sb.block_size;
        let seq = self.txn_seq();
        let mut txn = Txn::new(seq);
        let bi = self.txn_load(&mut txn, bmap)?;
        let mut bm = vstd::slice::slice_to_vec(txn.blocks[bi].1.as_slice());
        let found = first_clear_bit(bm.as_slice(), limit as usize);
        let b = match found {
            Some(b) => b,
            None => return Ok(None),
        };
        set_bit(bm.as_mut_slice(), b);
        txn.blocks.set(bi, (bmap, bm));
        let (gdi, gdo) = self.txn_group_desc(&mut txn, g)?;
        let mut gdb = vstd::slice::slice_to_vec(txn.blocks[gdi].1.as_slice());
        let fo = gdo + if inode {
            14
        } else {
            12
        };
        let cnt = rd_le16(gdb.as_slice(), fo);
        let cnt2 = if cnt > 0 {
            cnt - 1
        } else {
            0
        };
        wr_le16(gdb.as_mut_slice(), fo, cnt2);
        let gdt = txn.blocks[gdi].0;
        txn.blocks.set(gdi, (gdt, gdb));
        proof {
            assert forall|k: int| 0 <= k < txn.blocks@.len() implies (#[trigger] txn.blocks@[k]).1@.len() == bs by {}
            assert(g * limit <= 0xFFFF_FFFF * 0xFFFF_FFFF) by (nonlinear_arith)
                requires
                    g <= 0xFFFF_FFFF,
                    limit <= 0xFFFF_FFFF,
            ;
        }
        let item: u64 = g as u64 * limit as u64 + b as u64 + if inode {
            1
        } else {
            0
        };
        if item > 0xFFFF_FFFF {
            return Err(FsError::BadFormat);
        }
        Ok(Some((txn, item as u32)))
    }

    /// Claim the first free block (or inode) of group `g`: set its bitmap
    /// bit, lower the group's and the superblock's free counts, and commit.
    /// `None` when the group has none.
    fn try_alloc_in(&mut self, g: u32, inode: bool) -> (r: Result<Option<u32>>)
        requires
            old(self).wf(),
        ensures
            final(self).wf(),
            same_geom(old(self).spec_sb(), final(self).spec_sb()),
            r matches Ok(None) ==> !old(self).usable(g as int, inode) && final(self).dev == old(self).dev
                && final(self).sb == old(self).sb && final(self).journal == old(self).journal,
            r matches Ok(Some(x)) ==> old(self).usable(g as int, inode) && x == old(self).claimed(g as int, inode),
            r matches Ok(Some(x)) ==> (inode ==> x >= 1),
            r matches Ok(Some(_)) ==> final(self).sb == (if inode {
                Superblock { free_inodes_count: sat_dec(old(self).sb.free_inodes_count as int) as u32, ..old(self).sb }
            } else {
                Superblock { free_blocks_count: sat_dec(old(self).sb.free_blocks_count as int) as u32, ..old(self).sb }
            }),
    {
        let (mut txn, item) = match self.plan_claim(g, inode)? {
            Some(p) => p,
            None => return Ok(None),
        };
        if inode {
            self.sb.free_inodes_count = if self.sb.free_inodes_count > 0 {
                self.sb.free_inodes_count - 1
            } else {
                0
            };
        } else {
            self.sb.free_blocks_count = if self.sb.free_blocks_count > 0 {
                self.sb.free_blocks_count - 1
            } else {
                0
            };
        }
        self.journal_commit(&mut txn)?;
        self.sync_superblock()?;
        Ok(Some(item))
    }

    /// Group the allocator starts from for a block near `near`.
    pub open spec fn block_pref(&self, near: u32) -> int {
        if near < 2 {
            0
        } else {
            near as int / self.spec_sb().blocks_per_group as int
        }
    }

    /// Group the allocator starts from for an inode near `near_ino`.
    pub open spec fn inode_pref(&self, near_ino: u32) -> int {
        if near_ino < 2 {
            0
        } else {
            (near_ino as int - 1) / self.spec_sb().inodes_per_group as int
        }
    }

    /// The first group, in probe order from `pref`, with a free item.
    pub open spec fn alloc_hit(&self, pref: int, inode: bool, k: int) -> bool {
        let ng = self.spec_sb().groups_count as int;
        &&& 0 <= k <= 2 * ng
        &&& forall|j: int| 0 <= j < k ==> !#[trigger] self.usable(probe_group(pref, ng, j), inode)
        &&& self.usable(probe_group(pref, ng, k), inode)
    }

    /// Allocate from the groups in probe order from `pref`.
    fn alloc_from(&mut self, pref: u32, inode: bool) -> (r: Result<u32>)
        requires
            old(self).wf(),
        ensures
            final(self).wf(),
            same_geom(old(self).spec_sb(), final(self).spec_sb()),
            r matches Ok(x) ==> exists|k: int| #[trigger] old(self).alloc_hit(pref as int, inode, k)
                && x == old(self).claimed(probe_group(pref as int, old(self).sb.groups_count as int, k), inode),
            r matches Ok(x) ==> (inode ==> x >= 1),
            r is Ok ==> final(self).sb == (if inode {
                Superblock { free_inodes_count: sat_dec(old(self).sb.free_inodes_count as int) as u32, ..old(self).sb }
            } else {
                Superblock { free_blocks_count: sat_dec(old(self).sb.free_blocks_count as int) as u32, ..old(self).sb }
            }),
            (forall|k: int| 0 <= k <= 2 * old(self).sb.groups_count ==> !#[trigger] old(self).usable(
                probe_group(pref as int, old(self).sb.groups_count as int, k),
                inode,
            )) ==> r is Err,
    {
        let ng = self.sb.groups_count as u64;
        let p = pref as u64;
        let mut k: u64 = 0;
        while k <= 2 * ng
            invariant
                self.wf(),
                ng == self.sb.groups_count,
                ng >= 1,
                p == pref,
                self.dev == old(self).dev,
                self.sb == old(self).sb,
                self.journal == old(self).journal,
                k <= 2 * ng + 1,
                forall|j: int| 0 <= j < k ==> !#[trigger] old(self).usable(probe_group(pref as int, ng as int, j), inode),
            decreases 2 * ng + 1 - k,
        {
            let d = (k + 1) / 2;
            let g: u64 = if k == 0 {
                p % ng
            } else if k % 2 == 1 {
                (p + d) % ng
            } else {
                (p + ng - d) % ng
            };
            assert(g == probe_group(pref as int, ng as int, k as int));
            match self.try_alloc_in(g as u32, inode)? {
                Some(x) => {
                    assert(old(self).alloc_hit(pref as int, inode, k as int));
                    return Ok(x);
                },
                None => {},
            }
            k = k + 1;
        }
        Err(FsError::NoSpace)
    }

    /// Allocate a block, searching the groups from the one holding `near`
    /// outwards (alternately after and before it).
    pub fn alloc_block(&mut self, near: u32) -> (r: Result<u32>)
        requires
            old(self).wf(),
        ensures
            final(self).wf(),
            same_geom(old(self).spec_sb(), final(self).spec_sb()),
            r matches Ok(b) ==> exists|k: int| #[trigger] old(self).alloc_hit(old(self).block_pref(near), false, k)
                && b == old(self).claimed(probe_group(old(self).block_pref(near), old(self).spec_sb().groups_count as int, k), false),
            r is Ok ==> final(self).spec_sb() == (Superblock {
                free_blocks_count: sat_dec(old(self).spec_sb().free_blocks_count as int) as u32,
                ..old(self).spec_sb()
            }),
            (forall|k: int| 0 <= k <= 2 * old(self).spec_sb().groups_count ==> !#[trigger] old(self).usable(
                probe_group(old(self).block_pref(near), old(self).spec_sb().groups_count as int, k),
                false,
            )) ==> r is Err,
    {
        let pref = if near < 2 {
            0
        } else {
            near / self.sb.blocks_per_group
        };
        assert(pref as int == self.block_pref(near));
        self.alloc_from(pref, false)
    }

    /// Allocate an inode, searching the groups from the one holding
    /// `near_ino` outwards.
    pub fn alloc_inode(&mut self, near_ino: u32) -> (r: Result<u32>)
        requires
            old(self).wf(),
        ensures
            final(self).wf(),
            same_geom(old(self).spec_sb(), final(self).spec_sb()),
            r matches Ok(i) ==> exists|k: int| #[trigger] old(self).alloc_hit(old(self).inode_pref(near_ino), true, k)
                && i == old(self).claimed(probe_group(old(self).inode_pref(near_ino), old(self).spec_sb().groups_count as int, k), true),
            r matches Ok(i) ==> i >= 1,
            r is Ok ==> final(self).spec_sb() == (Superblock {
                free_inodes_count: sat_dec(old(self).spec_sb().free_inodes_count as int) as u32,
                ..old(self).spec_sb()
            }),
            (forall|k: int| 0 <= k <= 2 * old(self).spec_sb().groups_count ==> !#[trigger] old(self).usable(
                probe_group(old(self).inode_pref(near_ino), old(self).spec_sb().groups_count as int, k),
                true,
            )) ==> r is Err,
    {
        let pref = if near_ino < 2 {
            0
        } else {
            (near_ino - 1) / self.sb.inodes_per_group
        };
        assert(pref as int == self.inode_pref(near_ino));
        self.alloc_from(pref, true)
    }

    /// Clear bit `bit` of group `g`'s block (or inode) bitmap, raise the
    /// group's and the superblock's free counts, and commit.
    fn release_in(&mut self, g: u32, bit: u32, inode: bool) -> (r: Result<()>)
        requires
            old(self).wf(),
            bit < per_group(old(self).sb, inode),
        ensures
            final(self).wf(),
            same_geom(old(self).spec_sb(), final(self).spec_sb()),
            r is Ok ==> final(self).sb == (if inode {
                Superblock { free_inodes_count: wrap32(old(self).sb.free_inodes_count + 1), ..old(self).sb }
            } else {
                Superblock { free_blocks_count: wrap32(old(self).sb.free_blocks_count + 1), ..old(self).sb }
            }),
    {
        let gd = self.group_desc(g)?;
        let bmap = if inode {
            gd.inode_bitmap
        } else {
            gd.block_bitmap
        };
        let bs = self.sb.block_size;
        let seq = self.txn_seq();
        let mut txn = Txn::new(seq);
        let bi = self.txn_load(&mut txn, bmap)?;
        let mut bm = vstd::slice::slice_to_vec(txn.blocks[bi].1.as_slice());
        clear_bit(bm.as_mut_slice(), bit as usize);
        txn.blocks.set(bi, (bmap, bm));
        let (gdi, gdo) = self.txn_group_desc(&mut txn, g)?;
        let mut gdb = vstd::slice::slice_to_vec(txn.blocks[gdi].1.as_slice());
        let fo = gdo + if inode {
            14
        } else {
            12
        };
        let cnt = rd_le16(gdb.as_slice(), fo);
        wr_le16(gdb.as_mut_slice(), fo, cnt.wrapping_add(1));
        let gdt = txn.blocks[gdi].0;
        txn.blocks.set(gdi, (gdt, gdb));
        proof {
            assert forall|k: int| 0 <= k < txn.blocks@.len() implies (#[trigger] txn.blocks@[k]).1@.len() == bs by {}
        }
        if inode {
            self.sb.free_inodes_count = self.sb.free_inodes_count.wrapping_add(1);
        } else {
            self.sb.free_blocks_count = self.sb.free_blocks_count.wrapping_add(1);
        }
        self.journal_commit(&mut txn)?;
        self.sync_superblock()
    }

    /// Free `block` (blocks 0 and 1 are never freed).
    pub fn free_block(&mut self, block: u32) -> (r: Result<()>)
        requires
            old(self).wf(),
        ensures
            final(self).wf(),
            same_geom(old(self).spec_sb(), final(self).spec_sb()),
            block < 2 ==> r is Ok && final(self).spec_dev() == old(self).spec_dev() && final(self).spec_sb() == old(self).spec_sb(),
            block >= 2 && r is Ok ==> final(self).spec_sb() == (Superblock {
                free_blocks_count: wrap32(old(self).spec_sb().free_blocks_count + 1),
                ..old(self).spec_sb()
            }),
    {
        if block < 2 {
            return Ok(());
        }
        let bpg = self.sb.blocks_per_group;
        self.release_in(block / bpg, block % bpg, false)
    }

    /// Free inode `ino`.
    pub fn free_inode(&mut self, ino: u32) -> (r: Result<()>)
        requires
            old(self).wf(),
            ino >= 1,
        ensures
            final(self).wf(),
            same_geom(old(self).spec_sb(), final(self).spec_sb()),
            r is Ok ==> final(self).spec_sb() == (Superblock {
                free_inodes_count: wrap32(old(self).spec_sb().free_inodes_count + 1),
                ..old(self).spec_sb()
            }),
    {
        let ipg = self.sb.inodes_per_group;
        let idx = ino - 1;
        self.release_in(idx / ipg, idx % ipg, true)
    }

    /// Pointer `idx` of indirect block `block`.
    fn read_ind(&self, block: u32, idx: usize) -> (r: Result<u32>)
        requires
            self.wf(),
            4 * idx + 4 <= self.sb.block_size,
        ensures
            r matches Ok(p) ==> p == ind_at(&self.dev, self.sb.block_size as int, block as int, idx as int),
    {
        if block == 0 {
            return Ok(0);
        }
        let buf = read_block(&self.dev, self.sb.block_size, block)?;
        Ok(rd_le32(buf.as_slice(), idx * 4))
    }

    /// Physical block of `logical` through direct and indirect pointers.
    fn indirect_block(&self, inode: &Inode, logical: u32) -> (r: Result<u32>)
        requires
            self.wf(),
        ensures
            r matches Ok(p) ==> ind_lookup(&self.dev, self.sb.block_size as int, inode.blocks@, logical as int) == Some(p),
            ind_lookup(&self.dev, self.sb.block_size as int, inode.blocks@, logical as int) is None ==> r is Err,
    {
        let bpp = (self.sb.block_size / 4) as usize;
        match ind_path(logical, bpp) {
            IndPath::Direct(i) => Ok(inode.blocks[i]),
            IndPath::Single(i) => self.read_ind(inode.blocks[12], i),
            IndPath::Double(i, j) => {
                let b1 = self.read_ind(inode.blocks[13], i)?;
                self.read_ind(b1, j)
            },
            IndPath::Triple(i, j, k) => {
                if i >= bpp {
                    return Err(FsError::BadFormat);
                }
                let b1 = self.read_ind(inode.blocks[14], i)?;
                let b2 = self.read_ind(b1, j)?;
                self.read_ind(b2, k)
            },
        }
    }

    /// Physical block of `logical` through the extent tree of `inode`.
    fn extent_block(&self, inode: &Inode, logical: u32) -> (r: Result<u32>)
        requires
            self.wf(),
        ensures
            r matches Ok(p) ==> ext_lookup(&self.dev, self.sb.block_size as int, inode.block_raw@, logical as int) == Some(p),
            ext_lookup(&self.dev, self.sb.block_size as int, inode.block_raw@, logical as int) is None ==> r is Err,
    {
        let raw = inode.block_raw.as_slice();
        let depth = rd_le16(raw, 6);
        let levels: u16 = if depth >= 3 {
            3
        } else {
            depth
        };
        let bs = self.sb.block_size;
        let mut node: Vec<u8> = vstd::slice::slice_to_vec(raw);
        let mut lv: u16 = levels;
        let ghost want = ext_lookup(&self.dev, bs as int, raw@, logical as int);
        while lv > 0
            invariant
                self.wf(),
                bs == self.sb.block_size,
                node@.len() >= 8,
                want == ext_lookup(&self.dev, bs as int, inode.block_raw@, logical as int),
                want == ext_descend(&self.dev, bs as int, node@, logical as int, lv as nat),
            decreases lv,
        {
            if checked_count(node.as_slice()).is_none() {
                return Err(FsError::BadFormat);
            }
            match search_index(node.as_slice(), logical) {
                None => return Ok(0),
                Some(c) => {
                    node = read_block(&self.dev, bs, c)?;
                },
            }
            lv = lv - 1;
        }
        if checked_count(node.as_slice()).is_none() {
            return Err(FsError::BadFormat);
        }
        match search_leaf(node.as_slice(), logical) {
            Some(p) => Ok(p),
            None => Ok(0),
        }
    }

    /// Physical block of `logical` in the file (0 for a hole or inline data).
    fn file_block(&self, inode: &Inode, logical: u32) -> (r: Result<u32>)
        requires
            self.wf(),
        ensures
            r matches Ok(p) ==> file_map(&self.dev, self.sb.block_size as int, *inode, logical as int) == Some(p),
            file_map(&self.dev, self.sb.block_size as int, *inode, logical as int) is None ==> r is Err,
    {
        if inode.flags & EXT4_INLINE_DATA_FL != 0 {
            return Ok(0);
        }
        if inode.flags & EXT4_EXTENTS_FL != 0 {
            self.extent_block(inode, logical)
        } else {
            self.indirect_block(inode, logical)
        }
    }

    /// Load the block holding inode `ino`'s record into `txn`; returns the
    /// slot and the record's byte offset.
    fn txn_inode(&self, txn: &mut Txn, ino: u32) -> (r: Result<(usize, usize)>)
        requires
            self.wf(),
            ino >= 1,
            old(txn).wf(self.sb.block_size as int),
        ensures
            final(txn).wf(self.sb.block_size as int),
            final(txn).seq == old(txn).seq,
            r matches Ok((i, o)) ==> i == old(txn).blocks@.len() && final(txn).blocks@.len() == i + 1
                && final(txn).blocks@.subrange(0, i as int) == old(txn).blocks@
                && o + 128 <= self.sb.block_size,
            r matches Ok((i, o)) ==> final(txn).blocks@[i as int].0 == self.inode_at(ino as int).0 as u32
                && final(txn).blocks@[i as int].1@ == blk_or_zero(
                &self.dev,
                self.sb.block_size as int,
                (self.inode_at(ino as int).0 as u32) as int,
            ) && o == self.inode_at(ino as int).1,
    {
        let (blk, off) = self.inode_loc(ino)?;
        let idx = self.txn_load(txn, blk as u32)?;
        Ok((idx, off))
    }

    /// Write `inode` as inode `ino` through a one-block transaction.
    fn write_inode_journaled(&mut self, ino: u32, inode: &Inode) -> (r: Result<()>)
        requires
            old(self).wf(),
            ino >= 1,
        ensures
            final(self).wf(),
            final(self).sb == old(self).sb,
            old(self).spec_journal() is None ==> final(self).spec_journal() is None && (r is Ok ==> {
                let bs = old(self).spec_sb().block_size;
                let b = old(self).inode_at(ino as int).0 as u32;
                let rec = inode_stored(blk_or_zero(&old(self).spec_dev(), bs as int, b as int), *inode, bs, old(self).inode_at(ino as int).1);
                after_writes(&old(self).spec_dev(), &final(self).spec_dev(), bs as int, seq![(b as int, rec)])
            }),
            old(self).spec_journal() matches Some(js) ==> (r is Ok ==> final(self).spec_journal() == Some(
                JournalState { head: js.first, sequence: wrap32(js.sequence + 1), ..js },
            )),
    {
        let seq = self.txn_seq();
        let mut txn = Txn::new(seq);
        let (idx, off) = self.txn_inode(&mut txn, ino)?;
        let bs = self.sb.block_size;
        let mut blk = vstd::slice::slice_to_vec(txn.blocks[idx].1.as_slice());
        let ghost b0 = blk@;
        write_inode_to_buf(blk.as_mut_slice(), inode, bs, off);
        assert(blk@.len() == b0.len());
        let t = txn.blocks[idx].0;
        txn.blocks.set(idx, (t, blk));
        proof {
            assert forall|k: int| 0 <= k < txn.blocks@.len() implies (#[trigger] txn.blocks@[k]).1@.len() == bs by {}
        }
        let ghost ob = txn.blocks@;
        let r = self.journal_commit(&mut txn);
        proof {
            if r is Ok && old(self).journal is None {
                assert(Seq::new(1, |i: int| (ob[i].0 as int, ob[i].1@)) =~= seq![
                    ((old(self).inode_at(ino as int).0 as u32) as int, inode_stored(b0, *inode, bs, off as int)),
                ]);
            }
        }
        r
    }

    /// Logical block just past the end of a file of `size` bytes.
    fn next_block_of(&self, size: u64) -> (r: u32)
        requires
            self.wf(),
        ensures
            r == next_logical(size, self.sb.block_size as int),
    {
        let bs = self.sb.block_size as u64;
        let q = size / bs;
        let r = if size % bs != 0 {
            q + 1
        } else {
            q
        };
        proof {
            let si = size as int;
            let b = bs as int;
            vstd::arithmetic::div_mod::lemma_fundamental_div_mod(si, b);
            let m = si % b;
            assert(si == b * (q as int) + m);
            assert(b * (q as int) == (q as int) * b) by (nonlinear_arith);
            if m == 0 {
                vstd::arithmetic::div_mod::lemma_fundamental_div_mod_converse(si + b - 1, b, q as int, b - 1);
            } else {
                assert(((q as int) + 1) * b == (q as int) * b + b) by (nonlinear_arith);
                vstd::arithmetic::div_mod::lemma_fundamental_div_mod_converse(si + b - 1, b, q as int + 1, m - 1);
            }
        }
        r as u32
    }

    /// Map `logical` to `phys` in a file whose extent root (in the inode)
    /// is a leaf: grow or add an extent in place, or move the entries to a
    /// new leaf block and make the root an index over it.
    fn append_in_root(&mut self, ino: u32, inode: &mut Inode, logical: u32, phys: u32) -> (r: Result<()>)
        requires
            old(self).wf(),
            ino >= 1,
        ensures
            final(self).wf(),
            same_geom(old(self).spec_sb(), final(self).spec_sb()),
            r is Ok ==> final(self).spec_sb().free_inodes_count == old(self).spec_sb().free_inodes_count,
            same_but_map(*old(inode), *final(inode)),
            r is Ok ==> {
                let raw0 = old(inode).block_raw@;
                (node_fits(raw0) && node_max(raw0) <= 4 && leaf_appended(raw0, logical, phys) is Some)
                    ==> final(inode).block_raw@ == leaf_appended(raw0, logical, phys).unwrap()
                    && final(inode).i_blocks == wrap32(old(inode).i_blocks + old(self).sb.block_size / 512)
            },
            r is Ok ==> {
                let d0 = node_depth(old(inode).block_raw@);
                let s = old(self).sb.block_size / 512;
                ||| node_depth(final(inode).block_raw@) == d0 && final(inode).i_blocks == wrap32(old(inode).i_blocks + s)
                ||| node_depth(final(inode).block_raw@) == 1 && final(inode).i_blocks == wrap32(old(inode).i_blocks + 2 * s)
            },
    {
        let bs = self.sb.block_size;
        let bsz = bs as usize;
        let sectors: u32 = bs / 512;
        let lmax2: u16 = ((bsz - 12) / 12) as u16;
        let n = match checked_count(&inode.block_raw) {
            Some(n) => n,
            None => return Err(FsError::BadFormat),
        };
        let max = rd_le16(&inode.block_raw, 4);
        if max > 4 {
            return Err(FsError::BadFormat);
        }
        if leaf_append(&mut inode.block_raw, logical, phys) {
            proof {
                lemma_appended_depth(old(inode).block_raw@, logical, phys);
            }
            inode.i_blocks = inode.i_blocks.wrapping_add(sectors);
            self.write_inode_journaled(ino, inode)?;
            return Ok(());
        }
        // Root leaf full: move its entries to a new leaf, one level down.
        let leaf_p = self.alloc_block(phys)?;
        let mut leaf = new_node(bsz, (n + 1) as u16, lmax2, 0);
        let mut i: usize = 0;
        while i < 12 * n
            invariant
                n <= 4,
                i <= 12 * n,
                leaf@.len() == bsz,
                1024 <= bsz <= 4096,
            decreases 12 * n - i,
        {
            leaf.set(12 + i, inode.block_raw[12 + i]);
            i = i + 1;
        }
        put_leaf(leaf.as_mut_slice(), n, logical, phys);
        write_block(&mut self.dev, bs, leaf_p, leaf.as_slice())?;
        let mut raw = [0u8; 60];
        wr_le16(&mut raw, 0, EXT4_EXTENT_MAGIC);
        wr_le16(&mut raw, 2, 1);
        wr_le16(&mut raw, 4, 4);
        wr_le16(&mut raw, 6, 1);
        let ghost r0 = raw@;
        put_index(&mut raw, 0, 0, leaf_p);
        proof {
            lemma_splice_keeps_depth(r0, 12, le32_bytes(0));
            lemma_splice_keeps_depth(splice(r0, 12, le32_bytes(0)), 16, le32_bytes(leaf_p));
        }
        inode.block_raw = raw;
        inode.i_blocks = inode.i_blocks.wrapping_add(2 * sectors);
        self.write_inode_journaled(ino, inode)?;
        Ok(())
    }

    /// Map `logical` to `phys` in a file whose extent root indexes leaves:
    /// in the last leaf, in a new leaf under the root, or, both full, in a
    /// new leaf under a new index level.
    #[verifier::rlimit(60)]
    fn append_depth1(&mut self, ino: u32, inode: &mut Inode, logical: u32, phys: u32) -> (r: Result<()>)
        requires
            old(self).wf(),
            ino >= 1,
        ensures
            final(self).wf(),
            same_geom(old(self).spec_sb(), final(self).spec_sb()),
            r is Ok ==> final(self).spec_sb().free_inodes_count == old(self).spec_sb().free_inodes_count,
            same_but_map(*old(inode), *final(inode)),
            ({
                let raw0 = old(inode).block_raw@;
                let bs = old(self).spec_sb().block_size as int;
                let n = node_count(raw0);
                let leafb = blk_or_zero(&old(self).spec_dev(), bs, index_child(raw0, n - 1));
                let room = leaf_appended(leafb, logical, phys) is Some;
                &&& (!node_fits(raw0) || n == 0) ==> r == Err::<(), FsError>(FsError::BadFormat) && *final(inode) == *old(inode)
                    && final(self).spec_dev() == old(self).spec_dev()
                &&& r is Ok ==> node_fits(raw0) && n > 0 && node_fits(leafb) && ent(node_max(leafb)) <= bs
                &&& (r is Ok && room) ==> final(inode).block_raw == old(inode).block_raw && final(inode).i_blocks == wrap32(
                    old(inode).i_blocks + bs / 512,
                )
                &&& (r is Ok && !room && n < node_max(raw0) <= 4) ==> final(inode).i_blocks == wrap32(
                    old(inode).i_blocks + 2 * (bs / 512),
                ) && exists|nlp: u32| #[trigger] old(self).allocates(phys, nlp) && final(inode).block_raw@ == splice(
                    splice(splice(raw0, ent(n), le32_bytes(logical)), ent(n) + 4, le32_bytes(nlp)),
                    2,
                    le16_bytes((n + 1) as u16),
                )
                &&& (r is Ok && !room && !(n < node_max(raw0) <= 4)) ==> final(inode).i_blocks == wrap32(
                    old(inode).i_blocks + 4 * (bs / 512),
                ) && node_count(final(inode).block_raw@) == 2 && node_depth(final(inode).block_raw@) == 2
                &&& (r is Ok && !(r is Ok && !room && !(n < node_max(raw0) <= 4))) ==> node_depth(final(inode).block_raw@)
                    == node_depth(raw0)
            }),
    {
        let bs = self.sb.block_size;
        let bsz = bs as usize;
        let sectors: u32 = bs / 512;
        let lmax2: u16 = ((bsz - 12) / 12) as u16;
        let n = match checked_count(&inode.block_raw) {
            Some(n) => n,
            None => return Err(FsError::BadFormat),
        };
        if n == 0 {
            return Err(FsError::BadFormat);
        }
        let max = rd_le16(&inode.block_raw, 4) as usize;
        let lio = 12 + 12 * (n - 1);
        let lp = rd_le32(&inode.block_raw, lio + 4);
        let mut leaf = read_block(&self.dev, bs, lp)?;
        match checked_count(leaf.as_slice()) {
            Some(_) => {},
            None => return Err(FsError::BadFormat),
        }
        if 12 + 12 * (rd_le16(leaf.as_slice(), 4) as usize) > bsz {
            return Err(FsError::BadFormat);
        }
        if leaf_append(leaf.as_mut_slice(), logical, phys) {
            write_block(&mut self.dev, bs, lp, leaf.as_slice())?;
            inode.i_blocks = inode.i_blocks.wrapping_add(sectors);
            self.write_inode_journaled(ino, inode)?;
            return Ok(());
        }
        if n < max && max <= 4 {
            // Add a new leaf under the root.
            let nlp = self.alloc_block(phys)?;
            assert(old(self).allocates(phys, nlp));
            let mut nl = new_node(bsz, 1, lmax2, 0);
            put_leaf(nl.as_mut_slice(), 0, logical, phys);
            write_block(&mut self.dev, bs, nlp, nl.as_slice())?;
            put_index(&mut inode.block_raw, n, logical, nlp);
            wr_le16(&mut inode.block_raw, 2, (n + 1) as u16);
            inode.i_blocks = inode.i_blocks.wrapping_add(2 * sectors);
            let ghost raw1 = inode.block_raw@;
            self.write_inode_journaled(ino, inode)?;
            proof {
                let raw0 = old(inode).block_raw@;
                let a1 = splice(raw0, ent(n as int), le32_bytes(logical));
                let a2 = splice(a1, ent(n as int) + 4, le32_bytes(nlp));
                assert(raw1 == splice(a2, 2, le16_bytes((n + 1) as u16)));
                lemma_splice_keeps_depth(raw0, ent(n as int), le32_bytes(logical));
                lemma_splice_keeps_depth(a1, ent(n as int) + 4, le32_bytes(nlp));
                lemma_splice_keeps_depth(a2, 2, le16_bytes((n + 1) as u16));
            }
            return Ok(());
        }
        // Leaf and root both full: add a level.
        let old_idx = self.alloc_block(phys)?;
        let nlp = self.alloc_block(phys)?;
        let new_idx = self.alloc_block(phys)?;
        let cnt = rd_le16(&inode.block_raw, 2);
        let mut oi = new_node(bsz, cnt, lmax2, 1);
        let mut i: usize = 0;
        while i < 12 * n
            invariant
                n <= 4,
                i <= 12 * n,
                oi@.len() == bsz,
                1024 <= bsz <= 4096,
            decreases 12 * n - i,
        {
            oi.set(12 + i, inode.block_raw[12 + i]);
            i = i + 1;
        }
        write_block(&mut self.dev, bs, old_idx, oi.as_slice())?;
        let mut nl = new_node(bsz, 1, lmax2, 0);
        put_leaf(nl.as_mut_slice(), 0, logical, phys);
        write_block(&mut self.dev, bs, nlp, nl.as_slice())?;
        let mut ni = new_node(bsz, 1, lmax2, 1);
        put_index(ni.as_mut_slice(), 0, logical, nlp);
        write_block(&mut self.dev, bs, new_idx, ni.as_slice())?;
        let mut raw = [0u8; 60];
        wr_le16(&mut raw, 0, EXT4_EXTENT_MAGIC);
        wr_le16(&mut raw, 2, 2);
        wr_le16(&mut raw, 4, 4);
        wr_le16(&mut raw, 6, 2);
        put_index(&mut raw, 0, 0, old_idx);
        put_index(&mut raw, 1, logical, new_idx);
        inode.block_raw = raw;
        inode.i_blocks = inode.i_blocks.wrapping_add(4 * sectors);
        self.write_inode_journaled(ino, inode)?;
        Ok(())
    }

    /// Map `logical` to `phys` in a file with two index levels: in the last
    /// leaf, or in a new leaf under the last index node; unsupported when
    /// that node is full too.
    fn append_depth2(&mut self, ino: u32, inode: &mut Inode, logical: u32, phys: u32) -> (r: Result<()>)
        requires
            old(self).wf(),
            ino >= 1,
        ensures
            final(self).wf(),
            same_geom(old(self).spec_sb(), final(self).spec_sb()),
            r is Ok ==> final(self).spec_sb().free_inodes_count == old(self).spec_sb().free_inodes_count,
            same_but_map(*old(inode), *final(inode)),
            ({
                let raw0 = old(inode).block_raw@;
                let bs = old(self).spec_sb().block_size as int;
                let n = node_count(raw0);
                let midb = blk_or_zero(&old(self).spec_dev(), bs, index_child(raw0, n - 1));
                let mn = node_count(midb);
                let leafb = blk_or_zero(&old(self).spec_dev(), bs, index_child(midb, mn - 1));
                let room = leaf_appended(leafb, logical, phys) is Some;
                &&& (!node_fits(raw0) || n == 0) ==> r == Err::<(), FsError>(FsError::BadFormat) && *final(inode) == *old(inode)
                    && final(self).spec_dev() == old(self).spec_dev()
                &&& r is Ok ==> node_fits(raw0) && n > 0 && node_fits(midb) && mn > 0 && node_fits(leafb) && ent(node_max(leafb)) <= bs
                &&& r is Ok ==> final(inode).block_raw == old(inode).block_raw
                &&& (r is Ok && room) ==> final(inode).i_blocks == wrap32(old(inode).i_blocks + bs / 512)
                &&& (r is Ok && !room) ==> mn < node_max(midb) && ent(node_max(midb)) <= bs && final(inode).i_blocks == wrap32(
                    old(inode).i_blocks + 2 * (bs / 512),
                )
            }),
    {
        let bs = self.sb.block_size;
        let bsz = bs as usize;
        let sectors: u32 = bs / 512;
        let lmax2: u16 = ((bsz - 12) / 12) as u16;
        let n = match checked_count(&inode.block_raw) {
            Some(n) => n,
            None => return Err(FsError::BadFormat),
        };
        if n == 0 {
            return Err(FsError::BadFormat);
        }
        let lio = 12 + 12 * (n - 1);
        let mid_p = rd_le32(&inode.block_raw, lio + 4);
        let mut mid = read_block(&self.dev, bs, mid_p)?;
        let mn = match checked_count(mid.as_slice()) {
            Some(c) => c,
            None => return Err(FsError::BadFormat),
        };
        if mn == 0 {
            return Err(FsError::BadFormat);
        }
        let mmax = rd_le16(mid.as_slice(), 4) as usize;
        let mlio = 12 + 12 * (mn - 1);
        let lp = rd_le32(mid.as_slice(), mlio + 4);
        let mut leaf = read_block(&self.dev, bs, lp)?;
        match checked_count(leaf.as_slice()) {
            Some(_) => {},
            None => return Err(FsError::BadFormat),
        }
        if 12 + 12 * (rd_le16(leaf.as_slice(), 4) as usize) > bsz {
            return Err(FsError::BadFormat);
        }
        if leaf_append(leaf.as_mut_slice(), logical, phys) {
            write_block(&mut self.dev, bs, lp, leaf.as_slice())?;
            inode.i_blocks = inode.i_blocks.wrapping_add(sectors);
            self.write_inode_journaled(ino, inode)?;
            return Ok(());
        }
        if mn < mmax && 12 + 12 * mmax <= bsz {
            let nlp = self.alloc_block(phys)?;
            let mut nl = new_node(bsz, 1, lmax2, 0);
            put_leaf(nl.as_mut_slice(), 0, logical, phys);
            write_block(&mut self.dev, bs, nlp, nl.as_slice())?;
            put_index(mid.as_mut_slice(), mn, logical, nlp);
            wr_le16(mid.as_mut_slice(), 2, (mn + 1) as u16);
            write_block(&mut self.dev, bs, mid_p, mid.as_slice())?;
            inode.i_blocks = inode.i_blocks.wrapping_add(2 * sectors);
            self.write_inode_journaled(ino, inode)?;
            return Ok(());
        }
        Err(FsError::Unsupported)
    }

    /// Map the block after the end of an extent-mapped file to a newly
    /// allocated block, returned. The last extent grows when contiguous, a
    /// new extent is added where the leaf has room, and full nodes are split
    /// by adding a leaf, or a level (up to two index levels); a tree full at
    /// two levels is unsupported.
    fn extent_append(&mut self, ino: u32, inode: &mut Inode) -> (r: Result<u32>)
        requires
            old(self).wf(),
            ino >= 1,
        ensures
            final(self).wf(),
            same_geom(old(self).spec_sb(), final(self).spec_sb()),
            r is Ok ==> final(self).spec_sb().free_inodes_count == old(self).spec_sb().free_inodes_count,
            same_but_map(*old(inode), *final(inode)),
            r matches Ok(p) ==> {
                let near = ino / old(self).sb.blocks_per_group * old(self).sb.blocks_per_group;
                exists|k: int| #[trigger] old(self).alloc_hit(old(self).block_pref(near as u32), false, k)
                    && p == old(self).claimed(probe_group(old(self).block_pref(near as u32), old(self).sb.groups_count as int, k), false)
            },
            r matches Ok(p) ==> {
                let raw0 = old(inode).block_raw@;
                let bs = old(self).sb.block_size as int;
                (node_depth(raw0) == 0 && node_fits(raw0) && node_max(raw0) <= 4 && leaf_appended(raw0, next_logical(old(inode).size, bs), p) is Some)
                    ==> final(inode).block_raw@ == leaf_appended(raw0, next_logical(old(inode).size, bs), p).unwrap()
                    && final(inode).i_blocks == wrap32(old(inode).i_blocks + bs / 512)
            },
            r is Ok ==> {
                let d0 = node_depth(old(inode).block_raw@);
                let d1 = node_depth(final(inode).block_raw@);
                let s = old(self).sb.block_size / 512;
                let i0 = old(inode).i_blocks;
                let i1 = final(inode).i_blocks;
                &&& d0 == 0 ==> (d1 == 0 && i1 == wrap32(i0 + s)) || (d1 == 1 && i1 == wrap32(i0 + 2 * s))
                &&& d0 == 1 ==> (d1 == 1 && (i1 == wrap32(i0 + s) || i1 == wrap32(i0 + 2 * s))) || (d1 == 2 && i1
                    == wrap32(i0 + 4 * s))
                &&& d0 >= 2 ==> final(inode).block_raw == old(inode).block_raw && (i1 == wrap32(i0 + s) || i1 == wrap32(
                    i0 + 2 * s))
            },
    {
        let logical = self.next_block_of(inode.size);
        let bpg = self.sb.blocks_per_group;
        proof {
            assert(ino / bpg * bpg <= ino) by (nonlinear_arith)
                requires
                    bpg > 0,
            ;
        }
        let near = ino / bpg * bpg;
        let phys = self.alloc_block(near)?;
        let depth = rd_le16(&inode.block_raw, 6);
        if depth == 0 {
            self.append_in_root(ino, inode, logical, phys)?;
        } else if depth == 1 {
            self.append_depth1(ino, inode, logical, phys)?;
        } else {
            self.append_depth2(ino, inode, logical, phys)?;
        }
        Ok(phys)
    }

    /// Allocate a block near `near` and fill it with zeros.
    fn alloc_zeroed(&mut self, near: u32) -> (r: Result<u32>)
        requires
            old(self).wf(),
        ensures
            final(self).wf(),
            same_geom(old(self).spec_sb(), final(self).spec_sb()),
            r is Ok ==> final(self).spec_sb().free_inodes_count == old(self).spec_sb().free_inodes_count,
            r matches Ok(b) ==> old(self).allocates(near, b),
            r is Ok ==> final(self).spec_sb() == (Superblock {
                free_blocks_count: sat_dec(old(self).spec_sb().free_blocks_count as int) as u32,
                ..old(self).spec_sb()
            }),
            r matches Ok(b) ==> blk(&final(self).spec_dev(), final(self).spec_sb().block_size as int, b as int) == zeros(
                final(self).spec_sb().block_size as int,
            ),
            (forall|k: int| 0 <= k <= 2 * old(self).spec_sb().groups_count ==> !#[trigger] old(self).usable(
                probe_group(old(self).block_pref(near), old(self).spec_sb().groups_count as int, k),
                false,
            )) ==> r is Err,
    {
        let b = self.alloc_block(near)?;
        let z: Vec<u8> = vec![0u8; self.sb.block_size as usize];
        assert(z@ =~= zeros(self.sb.block_size as int));
        let ghost mid = self.dev;
        write_block(&mut self.dev, self.sb.block_size, b, z.as_slice())?;
        proof {
            lemma_write_block_effect(&mid, &self.dev, self.sb.block_size as int, b as int, z@, b as int);
        }
        Ok(b)
    }

    /// Inode `i` is what allocating an inode near inode `near_ino` claims on
    /// this volume: the first free inode of the first usable group in probe
    /// order.
    pub open spec fn allocates_inode(&self, near_ino: u32, i: u32) -> bool {
        exists|k: int| #[trigger] self.alloc_hit(self.inode_pref(near_ino), true, k) && i == self.claimed(
            probe_group(self.inode_pref(near_ino), self.spec_sb().groups_count as int, k),
            true,
        )
    }

    /// Block `b` is what allocating a block near `near` claims on this
    /// volume: the first free block of the first usable group in probe
    /// order.
    pub open spec fn allocates(&self, near: u32, b: u32) -> bool {
        exists|k: int| #[trigger] self.alloc_hit(self.block_pref(near), false, k) && b == self.claimed(
            probe_group(self.block_pref(near), self.spec_sb().groups_count as int, k),
            false,
        )
    }

    /// Store `v` as pointer `idx` of indirect block `blk` (read, patch,
    /// write back).
    fn set_ind(&mut self, blk: u32, idx: usize, v: u32) -> (r: Result<()>)
        requires
            old(self).wf(),
            4 * idx + 4 <= old(self).sb.block_size,
        ensures
            final(self).wf(),
            final(self).sb == old(self).sb,
            final(self).journal == old(self).journal,
            r is Ok ==> wrote_block(
                &old(self).dev,
                &final(self).dev,
                old(self).sb.block_size as int,
                blk as int,
                splice(blk_or_zero(&old(self).dev, old(self).sb.block_size as int, blk as int), 4 * idx, le32_bytes(v)),
            ),
            r is Ok ==> blk_or_zero(&old(self).dev, old(self).sb.block_size as int, blk as int).len() == old(self).sb.block_size,
    {
        let bs = self.sb.block_size;
        let mut buf = read_block(&self.dev, bs, blk)?;
        wr_le32(buf.as_mut_slice(), idx * 4, v);
        write_block(&mut self.dev, bs, blk, buf.as_slice())
    }

    /// Pointer `idx` of indirect block `blk`, allocating a zeroed block for
    /// it (and storing it) when it is 0.
    #[verifier::spinoff_prover]
    fn ind_child(&mut self, blk: u32, idx: usize, near: u32, inode: &mut Inode) -> (r: Result<u32>)
        requires
            old(self).wf(),
            4 * idx + 4 <= old(self).sb.block_size,
        ensures
            final(self).wf(),
            same_geom(old(self).spec_sb(), final(self).spec_sb()),
            r is Ok ==> final(self).spec_sb().free_inodes_count == old(self).spec_sb().free_inodes_count,
            same_but_map(*old(inode), *final(inode)),
            final(inode).blocks == old(inode).blocks,
            final(inode).block_raw == old(inode).block_raw,
            ({
                let bs = old(self).spec_sb().block_size as int;
                let cur = ind_at(&old(self).spec_dev(), bs, blk as int, idx as int);
                &&& r matches Ok(v) ==> (cur != 0 ==> v == cur && *final(inode) == *old(inode)
                    && final(self).spec_dev() == old(self).spec_dev() && final(self).spec_sb() == old(self).spec_sb())
                &&& r matches Ok(v) ==> cur == 0 ==> {
                    &&& old(self).allocates(near, v)
                    &&& blk != 0 ==> ind_at(&final(self).spec_dev(), bs, blk as int, idx as int) == v
                    &&& final(inode).i_blocks == (old(inode).i_blocks as int + bs / 512) % 0x1_0000_0000
                    &&& final(self).spec_sb() == (Superblock {
                        free_blocks_count: sat_dec(old(self).spec_sb().free_blocks_count as int) as u32,
                        ..old(self).spec_sb()
                    })
                }
            }),
    {
        let v = self.read_ind(blk, idx)?;
        if v != 0 {
            return Ok(v);
        }
        let n = self.alloc_zeroed(near)?;
        let ghost mid = self.dev;
        let ghost data = splice(blk_or_zero(&mid, self.sb.block_size as int, blk as int), 4 * idx, le32_bytes(n));
        self.set_ind(blk, idx, n)?;
        proof {
            let bs = self.sb.block_size as int;
            if blk != 0 {
                lemma_write_block_effect(&mid, &self.dev, bs, blk as int, data, blk as int);
                lemma_le32_round(n);
                assert(data.subrange(4 * idx, 4 * idx + 4) =~= le32_bytes(n));
                assert(le32(data, 4 * idx) == le32(le32_bytes(n), 0));
            }
        }
        inode.i_blocks = inode.i_blocks.wrapping_add(self.sb.block_size / 512);
        Ok(n)
    }

    /// Root indirect pointer `slot` (12, 13 or 14) of `inode`, allocating a
    /// zeroed block for it when it is 0.
    fn ind_root(&mut self, slot: usize, near: u32, inode: &mut Inode) -> (r: Result<u32>)
        requires
            old(self).wf(),
            12 <= slot < 15,
        ensures
            final(self).wf(),
            same_geom(old(self).spec_sb(), final(self).spec_sb()),
            r is Ok ==> final(self).spec_sb().free_inodes_count == old(self).spec_sb().free_inodes_count,
            same_but_map(*old(inode), *final(inode)),
            forall|i: int| 0 <= i < 15 && i != slot ==> #[trigger] final(inode).blocks@[i] == old(inode).blocks@[i],
            r matches Ok(v) ==> (old(inode).blocks@[slot as int] != 0 ==> v == old(inode).blocks@[slot as int]
                && *final(inode) == *old(inode) && final(self).spec_dev() == old(self).spec_dev() && final(self).spec_sb()
                == old(self).spec_sb()),
            r matches Ok(v) ==> old(inode).blocks@[slot as int] == 0 ==> {
                let bs = old(self).spec_sb().block_size as int;
                &&& old(self).allocates(near, v)
                &&& final(inode).blocks@[slot as int] == v
                &&& final(inode).block_raw@ == splice(old(inode).block_raw@, 4 * slot, le32_bytes(v))
                &&& final(inode).i_blocks == (old(inode).i_blocks as int + bs / 512) % 0x1_0000_0000
                &&& blk(&final(self).spec_dev(), bs, v as int) == zeros(bs)
                &&& final(self).spec_sb() == (Superblock {
                    free_blocks_count: sat_dec(old(self).spec_sb().free_blocks_count as int) as u32,
                    ..old(self).spec_sb()
                })
            },
    {
        let cur = inode.blocks[slot];
        if cur != 0 {
            return Ok(cur);
        }
        let b = self.alloc_zeroed(near)?;
        inode.blocks[slot] = b;
        wr_le32(&mut inode.block_raw, slot * 4, b);
        inode.i_blocks = inode.i_blocks.wrapping_add(self.sb.block_size / 512);
        Ok(b)
    }

    /// Map the block after the end of an indirect-mapped file to a newly
    /// allocated block, returned: a direct pointer, or a pointer in the
    /// singly, doubly or triply indirect tree, allocating (zeroed) indirect
    /// blocks on the way.
    fn indirect_append(&mut self, ino: u32, inode: &mut Inode) -> (r: Result<u32>)
        requires
            old(self).wf(),
            ino >= 1,
        ensures
            final(self).wf(),
            same_geom(old(self).spec_sb(), final(self).spec_sb()),
            r is Ok ==> final(self).spec_sb().free_inodes_count == old(self).spec_sb().free_inodes_count,
            same_but_map(*old(inode), *final(inode)),
            r matches Ok(p) ==> {
                let near = ino / old(self).sb.blocks_per_group * old(self).sb.blocks_per_group;
                exists|k: int| #[trigger] old(self).alloc_hit(old(self).block_pref(near as u32), false, k)
                    && p == old(self).claimed(probe_group(old(self).block_pref(near as u32), old(self).sb.groups_count as int, k), false)
            },
            r matches Ok(p) ==> {
                let l = next_logical(old(inode).size, old(self).sb.block_size as int) as int;
                l < 12 ==> final(inode).blocks@ == old(inode).blocks@.update(l, p)
                    && final(inode).block_raw@ == splice(old(inode).block_raw@, 4 * l, le32_bytes(p))
                    && final(inode).i_blocks == wrap32(old(inode).i_blocks + old(self).sb.block_size / 512)
            },
    {
        let bs = self.sb.block_size;
        let bpp = (bs / 4) as usize;
        let sectors = bs / 512;
        let next = self.next_block_of(inode.size);
        let bpg = self.sb.blocks_per_group;
        proof {
            assert(ino / bpg * bpg <= ino) by (nonlinear_arith)
                requires
                    bpg > 0,
            ;
        }
        let near = ino / bpg * bpg;
        let phys = self.alloc_block(near)?;
        match ind_path(next, bpp) {
            IndPath::Direct(l) => {
                inode.blocks[l] = phys;
                wr_le32(&mut inode.block_raw, l * 4, phys);
                inode.i_blocks = inode.i_blocks.wrapping_add(sectors);
                self.write_inode_journaled(ino, inode)?;
                Ok(phys)
            },
            IndPath::Single(l2) => {
                let ind = self.ind_root(12, phys, inode)?;
                self.set_ind(ind, l2, phys)?;
                inode.i_blocks = inode.i_blocks.wrapping_add(sectors);
                self.write_inode_journaled(ino, inode)?;
                Ok(phys)
            },
            IndPath::Double(b1, b2) => {
                let di = self.ind_root(13, phys, inode)?;
                let ind = self.ind_child(di, b1, phys, inode)?;
                self.set_ind(ind, b2, phys)?;
                inode.i_blocks = inode.i_blocks.wrapping_add(sectors);
                self.write_inode_journaled(ino, inode)?;
                Ok(phys)
            },
            IndPath::Triple(c1, c2, c3) => {
                if c1 >= bpp {
                    return Err(FsError::BadFormat);
                }
                let ti = self.ind_root(14, phys, inode)?;
                let di = self.ind_child(ti, c1, phys, inode)?;
                let si = self.ind_child(di, c2, phys, inode)?;
                self.set_ind(si, c3, phys)?;
                inode.i_blocks = inode.i_blocks.wrapping_add(sectors);
                self.write_inode_journaled(ino, inode)?;
                Ok(phys)
            },
        }
    }

    /// Free each block of every extent of the leaf `node`.
    fn free_leaf(&mut self, node: &[u8]) -> (r: Result<()>)
        requires
            old(self).wf(),
            node_fits(node@),
        ensures
            final(self).wf(),
            same_geom(old(self).spec_sb(), final(self).spec_sb()),
            r is Ok ==> final(self).spec_sb() == count_freed(old(self).spec_sb(), extents_blocks(leaf_extents(node@))),
    {
        let n = rd_le16(node, 2) as usize;
        let ghost es = leaf_extents(node@);
        let mut i: usize = 0;
        while i < n
            invariant
                self.wf(),
                same_geom(old(self).spec_sb(), self.spec_sb()),
                n == node_count(node@),
                node_fits(node@),
                i <= n,
                es == leaf_extents(node@),
                self.spec_sb() == count_freed(old(self).spec_sb(), extents_blocks(es.take(i as int))),
            decreases n - i,
        {
            let (phy, len) = leaf_entry(node, i);
            let ghost pre = extents_blocks(es.take(i as int));
            let mut j: u32 = 0;
            assert(pre + run_blocks(phy, 0) =~= pre);
            while j < len
                invariant
                    self.wf(),
                    same_geom(old(self).spec_sb(), self.spec_sb()),
                    j <= len,
                    self.spec_sb() == count_freed(old(self).spec_sb(), pre + run_blocks(phy, j as nat)),
                decreases len - j,
            {
                let b = phy.wrapping_add(j);
                proof {
                    lemma_count_step(old(self).spec_sb(), pre + run_blocks(phy, j as nat), b);
                    assert((pre + run_blocks(phy, j as nat)).push(b) =~= pre + run_blocks(phy, (j + 1) as nat));
                }
                self.free_block(b)?;
                j = j + 1;
            }
            proof {
                assert(es.take(i + 1).drop_last() =~= es.take(i as int));
                assert(es.take(i + 1).last() == (phy, len));
            }
            i = i + 1;
        }
        assert(es.take(n as int) =~= es);
        Ok(())
    }

    /// Free the non-zero pointers of indirect block image `buf`.
    fn free_ptrs(&mut self, buf: &[u8]) -> (r: Result<()>)
        requires
            old(self).wf(),
        ensures
            final(self).wf(),
            same_geom(old(self).spec_sb(), final(self).spec_sb()),
            r is Ok ==> final(self).spec_sb() == count_freed(old(self).spec_sb(), words(buf@)),
    {
        let w = le32_words(buf);
        let mut i: usize = 0;
        while i < w.len()
            invariant
                self.wf(),
                same_geom(old(self).spec_sb(), self.spec_sb()),
                i <= w@.len(),
                w@ == words(buf@),
                self.spec_sb() == count_freed(old(self).spec_sb(), w@.take(i as int)),
            decreases w@.len() - i,
        {
            proof {
                lemma_count_step(old(self).spec_sb(), w@.take(i as int), w@[i as int]);
                assert(w@.take(i as int).push(w@[i as int]) =~= w@.take(i + 1));
            }
            if w[i] != 0 {
                self.free_block(w[i])?;
            }
            i = i + 1;
        }
        assert(w@.take(w@.len() as int) =~= w@);
        Ok(())
    }

    /// Free every data block of `inode` and the blocks of its map: the
    /// extent tree's leaves and index blocks (two index levels), or the
    /// direct, singly and doubly indirect blocks.
    fn free_inode_data(&mut self, inode: &Inode) -> (r: Result<()>)
        requires
            old(self).wf(),
        ensures
            final(self).wf(),
            same_geom(old(self).spec_sb(), final(self).spec_sb()),
            r is Ok ==> final(self).spec_sb().free_inodes_count == old(self).spec_sb().free_inodes_count,
            inode.flags & EXT4_EXTENTS_FL != 0 && !node_fits(inode.block_raw@) ==> r == Err::<(), FsError>(FsError::BadFormat)
                && final(self).spec_dev() == old(self).spec_dev() && final(self).spec_sb() == old(self).spec_sb(),
            inode.flags & EXT4_EXTENTS_FL != 0 && node_fits(inode.block_raw@) && le16(inode.block_raw@, 6) == 0 && r is Ok
                ==> final(self).spec_sb() == count_freed(old(self).spec_sb(), extents_blocks(leaf_extents(inode.block_raw@))),
            inode.flags & EXT4_EXTENTS_FL != 0 && node_fits(inode.block_raw@) && le16(inode.block_raw@, 6) != 0 && r is Ok
                && (forall|i: int| 0 <= i < node_count(inode.block_raw@) ==> node_depth(#[trigger] blk_or_zero(
                &old(self).spec_dev(),
                old(self).spec_sb().block_size as int,
                index_child(inode.block_raw@, i),
            )) == 0) ==> final(self).spec_sb() == count_freed(
                old(self).spec_sb(),
                leaves_blocks(
                    &old(self).spec_dev(),
                    old(self).spec_sb().block_size as int,
                    inode.block_raw@,
                    node_count(inode.block_raw@),
                ),
            ),
            inode.flags & EXT4_EXTENTS_FL == 0 && inode.blocks@[12] == 0 && inode.blocks@[13] == 0 && r is Ok
                ==> final(self).spec_sb() == count_freed(
                old(self).spec_sb(),
                inode.blocks@.take(if next_logical(inode.size, old(self).spec_sb().block_size as int) < 12 {
                    next_logical(inode.size, old(self).spec_sb().block_size as int) as int
                } else {
                    12
                }),
            ),
            inode.flags & EXT4_EXTENTS_FL == 0 && inode.blocks@[12] != 0 && inode.blocks@[13] == 0 && r is Ok
                ==> final(self).spec_sb() == count_freed(
                old(self).spec_sb(),
                inode.blocks@.take(if next_logical(inode.size, old(self).spec_sb().block_size as int) < 12 {
                    next_logical(inode.size, old(self).spec_sb().block_size as int) as int
                } else {
                    12
                }) + words(blk_or_zero(&old(self).spec_dev(), old(self).spec_sb().block_size as int, inode.blocks@[12] as int))
                    + seq![inode.blocks@[12]],
            ),
    {
        let bs = self.sb.block_size;
        if inode.flags & EXT4_EXTENTS_FL != 0 {
            let raw = inode.block_raw.as_slice();
            let depth = rd_le16(raw, 6);
            let n = match checked_count(raw) {
                Some(n) => n,
                None => return Err(FsError::BadFormat),
            };
            if depth == 0 {
                return self.free_leaf(raw);
            }
            // The index entries' child nodes are read before anything is freed.
            let ghost dev0 = self.spec_dev();
            let mut kids: Vec<Vec<u8>> = Vec::new();
            let mut i: usize = 0;
            while i < n
                invariant
                    self.wf(),
                    *self == *old(self),
                    dev0 == old(self).spec_dev(),
                    bs == self.sb.block_size,
                    n == node_count(raw@),
                    raw@ == inode.block_raw@,
                    node_fits(raw@),
                    i <= n,
                    kids@.len() == i,
                    forall|j: int| 0 <= j < i ==> (#[trigger] kids@[j])@ == blk_or_zero(&dev0, bs as int, index_child(raw@, j))
                        && kids@[j]@.len() == bs,
                decreases n - i,
            {
                let cp = rd_le32(raw, 12 + 12 * i + 4);
                assert(cp as int == index_child(raw@, i as int));
                let lvl1 = read_block(&self.dev, bs, cp)?;
                let ghost k0 = kids@;
                kids.push(lvl1);
                proof {
                    assert forall|j: int| 0 <= j < i + 1 implies (#[trigger] kids@[j])@ == blk_or_zero(
                        &dev0,
                        bs as int,
                        index_child(raw@, j),
                    ) && kids@[j]@.len() == bs by {
                        if j < i {
                            assert(kids@[j] == k0[j]);
                        }
                    }
                }
                i = i + 1;
            }
            let ghost all_leaves = true;
            let mut i: usize = 0;
            while i < n
                invariant
                    self.wf(),
                    same_geom(old(self).spec_sb(), self.spec_sb()),
                    self.spec_sb().free_inodes_count == old(self).spec_sb().free_inodes_count,
                    bs == self.sb.block_size,
                    bs == old(self).spec_sb().block_size,
                    dev0 == old(self).spec_dev(),
                    n == node_count(raw@),
                    raw@ == inode.block_raw@,
                    node_fits(raw@),
                    i <= n,
                    kids@.len() == n,
                    forall|j: int| 0 <= j < n ==> (#[trigger] kids@[j])@ == blk_or_zero(&dev0, bs as int, index_child(raw@, j))
                        && kids@[j]@.len() == bs,
                    all_leaves <==> forall|j: int| 0 <= j < i ==> node_depth(#[trigger] blk_or_zero(&dev0, bs as int, index_child(raw@, j))) == 0,
                    all_leaves ==> self.spec_sb() == count_freed(old(self).spec_sb(), leaves_blocks(&dev0, bs as int, raw@, i as int)),
                decreases n - i,
            {
                let cp = rd_le32(raw, 12 + 12 * i + 4);
                let lvl1 = kids[i].as_slice();
                assert(lvl1@ == blk_or_zero(&dev0, bs as int, index_child(raw@, i as int)));
                let cd = rd_le16(lvl1, 6);
                let cn = match checked_count(lvl1) {
                    Some(c) => c,
                    None => return Err(FsError::BadFormat),
                };
                let ghost sb_pre = self.spec_sb();
                if cd == 0 {
                    self.free_leaf(lvl1)?;
                    let ghost sb_mid = self.spec_sb();
                    self.free_block(cp)?;
                    proof {
                        let lb = extents_blocks(leaf_extents(lvl1@));
                        let prev = leaves_blocks(&dev0, bs as int, raw@, i as int);
                        lemma_count_step(sb_pre, lb, cp);
                        lemma_count_concat(sb_pre, lb, seq![cp]);
                        assert(lb.push(cp) =~= lb + seq![cp]);
                        if all_leaves {
                            lemma_count_concat(old(self).spec_sb(), prev, lb + seq![cp]);
                            assert(prev + lb + seq![cp] =~= prev + (lb + seq![cp]));
                            assert(leaves_blocks(&dev0, bs as int, raw@, i + 1) == prev + lb + seq![cp]);
                        }
                    }
                } else {
                    proof {
                        all_leaves = false;
                    }
                    let mut j: usize = 0;
                    while j < cn
                        invariant
                            self.wf(),
                            same_geom(old(self).spec_sb(), self.spec_sb()),
                            self.spec_sb().free_inodes_count == old(self).spec_sb().free_inodes_count,
                            bs == self.sb.block_size,
                            cn == node_count(lvl1@),
                            raw@ == inode.block_raw@,
                            node_fits(raw@),
                            node_fits(lvl1@),
                            j <= cn,
                        decreases cn - j,
                    {
                        let gp = rd_le32(lvl1, 12 + 12 * j + 4);
                        let lvl2 = read_block(&self.dev, bs, gp)?;
                        match checked_count(lvl2.as_slice()) {
                            Some(_) => {},
                            None => return Err(FsError::BadFormat),
                        }
                        self.free_leaf(lvl2.as_slice())?;
                        self.free_block(gp)?;
                        j = j + 1;
                    }
                    self.free_block(cp)?;
                }
                i = i + 1;
            }
            Ok(())
        } else {
            let nblk = self.next_block_of(inode.size);
            let lim: usize = if nblk < 12 {
                nblk as usize
            } else {
                12
            };
            // The singly indirect block is read before anything is freed.
            let single: Option<Vec<u8>> = if inode.blocks[12] != 0 {
                Some(read_block(&self.dev, bs, inode.blocks[12])?)
            } else {
                None
            };
            let mut i: usize = 0;
            while i < lim
                invariant
                    self.wf(),
                    same_geom(old(self).spec_sb(), self.spec_sb()),
                    self.spec_sb().free_inodes_count == old(self).spec_sb().free_inodes_count,
                    lim <= 12,
                    inode.flags & EXT4_EXTENTS_FL == 0,
                    i <= lim,
                    lim == (if next_logical(inode.size, old(self).spec_sb().block_size as int) < 12 {
                        next_logical(inode.size, old(self).spec_sb().block_size as int) as int
                    } else {
                        12
                    }),
                    self.spec_sb() == count_freed(old(self).spec_sb(), inode.blocks@.take(i as int)),
                decreases lim - i,
            {
                proof {
                    lemma_count_step(old(self).spec_sb(), inode.blocks@.take(i as int), inode.blocks@[i as int]);
                    assert(inode.blocks@.take(i as int).push(inode.blocks@[i as int]) =~= inode.blocks@.take(i + 1));
                }
                if inode.blocks[i] != 0 {
                    self.free_block(inode.blocks[i])?;
                }
                i = i + 1;
            }
            if let Some(ibuf) = single {
                let ghost mid = self.spec_sb();
                self.free_ptrs(ibuf.as_slice())?;
                let ghost mid2 = self.spec_sb();
                self.free_block(inode.blocks[12])?;
                proof {
                    let d = inode.blocks@.take(lim as int);
                    let w = words(ibuf@);
                    lemma_count_step(mid, w, inode.blocks@[12]);
                    lemma_count_concat(old(self).spec_sb(), d, w);
                    lemma_count_concat(old(self).spec_sb(), d + w, seq![inode.blocks@[12]]);
                    lemma_count_concat(mid, w, seq![inode.blocks@[12]]);
                    assert(w.push(inode.blocks@[12]) =~= w + seq![inode.blocks@[12]]);
                    assert(count_freed(mid, w + seq![inode.blocks@[12]]) == count_freed(mid, w.push(inode.blocks@[12])));
                }
            }
            if inode.blocks[13] != 0 {
                let d1 = read_block(&self.dev, self.sb.block_size, inode.blocks[13])?;
                let w = le32_words(d1.as_slice());
                let mut i: usize = 0;
                while i < w.len()
                    invariant
                        self.wf(),
                        same_geom(old(self).spec_sb(), self.spec_sb()),
                        self.spec_sb().free_inodes_count == old(self).spec_sb().free_inodes_count,
                    self.spec_sb().free_inodes_count == old(self).spec_sb().free_inodes_count,
                        i <= w@.len(),
                        inode.flags & EXT4_EXTENTS_FL == 0,
                    decreases w@.len() - i,
                {
                    let ind = w[i];
                    if ind != 0 {
                        let d2 = read_block(&self.dev, self.sb.block_size, ind)?;
                        self.free_ptrs(d2.as_slice())?;
                        self.free_block(ind)?;
                    }
                    i = i + 1;
                }
                self.free_block(inode.blocks[13])?;
            }
            Ok(())
        }
    }

    /// The listed entries of directory inode `ino` (not `.` and `..`);
    /// other inodes are refused as the wrong type.
    fn walk_dir(&self, ino: u32) -> (r: Result<Vec<DirEnt>>)
        requires
            self.wf(),
        ensures
            r matches Ok(v) ==> exists|d: Inode| #[trigger] inode_fields(self.inode_record(ino as int), self.sb.block_size, d)
                && d.mode & IFMT == IFDIR && dir_listing(&self.dev, self.sb.block_size as int, d) == Some(ents_view(v@)),
    {
        let d = self.read_inode(ino)?;
        if d.mode & IFMT != IFDIR {
            return Err(FsError::WrongType);
        }
        if d.flags & EXT4_INLINE_DATA_FL != 0 {
            let n: usize = if d.size < 60 {
                d.size as usize
            } else {
                60
            };
            let v = walk_dir_block(vstd::slice::slice_subrange(&d.block_raw, 0, n));
            return Ok(v);
        }
        let bs = self.sb.block_size;
        let nblk = self.next_block_of(d.size);
        let mut out: Vec<DirEnt> = Vec::new();
        let mut b: u32 = 0;
        while b < nblk
            invariant
                self.wf(),
                bs == self.sb.block_size,
                b <= nblk,
                nblk == next_logical(d.size, bs as int),
                d.flags & EXT4_INLINE_DATA_FL == 0,
                dir_blocks(&self.dev, bs as int, d, b as int) == Some(ents_view(out@)),
            decreases nblk - b,
        {
            let phys = self.file_block(&d, b)?;
            if phys != 0 {
                let buf = read_block(&self.dev, bs, phys)?;
                let mut es = walk_dir_block(buf.as_slice());
                proof {
                    assert(ents_view(out@) + ents_view(es@) =~= ents_view(out@ + es@));
                }
                out.append(&mut es);
            } else {
                assert(ents_view(out@) + Seq::<(Seq<u8>, u32, u8)>::empty() =~= ents_view(out@));
            }
            b = b + 1;
        }
        Ok(out)
    }

    /// Inode of the entry `name` in directory `dir_ino`.
    fn lookup_in(&self, dir_ino: u32, name: &str) -> (r: Result<u32>)
        requires
            self.wf(),
        ensures
            r matches Ok(i) ==> exists|d: Inode| #[trigger] inode_fields(self.inode_record(dir_ino as int), self.sb.block_size, d)
                && found_in(dir_listing(&self.dev, self.sb.block_size as int, d), name.spec_bytes(), i),
    {
        let es = self.walk_dir(dir_ino)?;
        let ghost d = choose|d: Inode| #[trigger] inode_fields(self.inode_record(dir_ino as int), self.sb.block_size, d)
            && d.mode & IFMT == IFDIR && dir_listing(&self.dev, self.sb.block_size as int, d) == Some(ents_view(es@));
        let nb = crate::text::str_bytes(name);
        let mut i: usize = 0;
        while i < es.len()
            invariant
                inode_fields(self.inode_record(dir_ino as int), self.sb.block_size, d),
                dir_listing(&self.dev, self.sb.block_size as int, d) == Some(ents_view(es@)),
                i <= es@.len(),
                nb@ == name.spec_bytes(),
                find_ent(ents_view(es@), nb@, 0) == find_ent(ents_view(es@), nb@, i as int),
            decreases es@.len() - i,
        {
            if crate::text::bytes_eq(es[i].name.as_slice(), nb) {
                assert(ents_view(es@)[i as int].0 == nb@);
                return Ok(es[i].ino);
            }
            i = i + 1;
        }
        Err(FsError::NotFound)
    }

    /// The target of symbolic link `inode` (under 512 bytes, stored inline
    /// or in its first block); empty or longer targets, and targets that are
    /// not UTF-8, are malformed.
    fn read_symlink(&self, inode: &Inode) -> (r: Result<Vec<u8>>)
        requires
            self.wf(),
        ensures
            (inode.size == 0 || inode.size >= 512) ==> r == Err::<Vec<u8>, FsError>(FsError::BadFormat),
            r matches Ok(v) ==> v@.len() == inode.size && vstd::utf8::valid_utf8(v@) && (inode.size <= 60 ==> v@
                == inode.block_raw@.subrange(0, inode.size as int)),
    {
        let len = inode.size;
        if len == 0 || len >= 512 {
            return Err(FsError::BadFormat);
        }
        let n = len as usize;
        let v: Vec<u8> = if n <= 60 {
            vstd::slice::slice_to_vec(vstd::slice::slice_subrange(&inode.block_raw, 0, n))
        } else {
            let phys = self.file_block(inode, 0)?;
            let tmp = read_block(&self.dev, self.sb.block_size, phys)?;
            vstd::slice::slice_to_vec(vstd::slice::slice_subrange(tmp.as_slice(), 0, n))
        };
        match utf8_str(v.as_slice()) {
            Some(st) => {
                proof {
                    vstd::utf8::encode_utf8_valid_utf8(st@);
                }
                Ok(v)
            },
            None => Err(FsError::BadFormat),
        }
    }

    /// The inode record of inode `ino` (unique, see
    /// `lemma_inode_fields_unique`).
    pub open spec fn inode_of(&self, ino: u32) -> Inode {
        choose|d: Inode| inode_fields(self.inode_record(ino as int), self.spec_sb().block_size, d)
    }

    /// `ino` is where `path` leads from directory `base`: each component
    /// is the first entry of that name (valid UTF-8) in the listing of the
    /// directory reached so far. A component naming a symbolic link needs a
    /// hop left; where the link leads is not followed here.
    pub open spec fn walk(&self, base: u32, path: Seq<u8>, hops: nat, ino: u32) -> bool
        decreases path.len(),
    {
        let comp = spec_path_split(path).0;
        let tail = spec_path_split(path).1;
        if comp.len() == 0 {
            ino == base
        } else {
            match dir_listing(&self.spec_dev(), self.spec_sb().block_size as int, self.inode_of(base)) {
                Some(es) => match find_ent(es, comp, 0) {
                    Some(k) => {
                        &&& vstd::utf8::valid_utf8(comp)
                        &&& if self.inode_of(es[k].1).mode & IFMT == IFLNK {
                            hops > 0
                        } else {
                            proof {
                                lemma_path_split_shorter(path);
                            }
                            self.walk(es[k].1, tail, hops, ino)
                        }
                    },
                    None => false,
                },
                None => false,
            }
        }
    }

    /// `ino` is the inode `path` names from the root (following up to eight
    /// symbolic links).
    pub open spec fn resolves(&self, path: Seq<u8>, ino: u32) -> bool {
        self.walk(ROOT_INO, trim_start(path, 0x2F), 8, ino)
    }

    /// Inode reached from directory `base` along `path`, following up to
    /// `hops` symbolic links (absolute targets restart at the root).
    fn resolve_at(&self, base: u32, path: &[u8], hops: u32) -> (r: Result<u32>)
        requires
            self.wf(),
        ensures
            trim_start(path@, 0x2F).len() == 0 ==> r == Ok::<u32, FsError>(base),
            r matches Ok(i) ==> self.walk(base, path@, hops as nat, i),
        decreases hops,
    {
        let mut ino = base;
        let mut rest = path;
        proof {
            lemma_trim_start(path@, 0x2F);
        }
        while rest.len() > 0
            invariant
                self.wf(),
                trim_start(path@, 0x2F).len() == 0 ==> ino == base && trim_start(rest@, 0x2F).len() == 0,
                forall|x: u32| #[trigger] self.walk(ino, rest@, hops as nat, x) ==> self.walk(base, path@, hops as nat, x),
            ensures
                self.walk(ino, rest@, hops as nat, ino),
                forall|x: u32| #[trigger] self.walk(ino, rest@, hops as nat, x) ==> self.walk(base, path@, hops as nat, x),
                trim_start(path@, 0x2F).len() == 0 ==> ino == base,
            decreases rest@.len(),
        {
            let (comp, tail) = split_path_bytes(rest);
            proof {
                lemma_path_split_shorter(rest@);
                lemma_trim_start(rest@, 0x2F);
            }
            if comp.len() == 0 {
                break;
            }
            let name = match utf8_str(comp) {
                Some(n) => n,
                None => return Err(FsError::NotFound),
            };
            let child = self.lookup_in(ino, name)?;
            let ci = self.read_inode(child)?;
            proof {
                vstd::utf8::encode_utf8_valid_utf8(name@);
                let bs = self.sb.block_size;
                let d = choose|d: Inode| #[trigger] inode_fields(self.inode_record(ino as int), bs, d)
                    && found_in(dir_listing(&self.dev, bs as int, d), name.spec_bytes(), child);
                lemma_inode_fields_unique(self.inode_record(ino as int), bs, d, self.inode_of(ino));
                lemma_inode_fields_unique(self.inode_record(child as int), bs, ci, self.inode_of(child));
                if ci.mode & IFMT == IFLNK && hops > 0 {
                    assert forall|x: u32| self.walk(base, path@, hops as nat, x) by {
                        assert(self.walk(ino, rest@, hops as nat, x));
                    }
                }
            }
            if ci.mode & IFMT == IFLNK {
                if hops == 0 {
                    return Err(FsError::InvalidArg);
                }
                let target = self.read_symlink(&ci)?;
                let new_base = if target[0] == 0x2F {
                    ROOT_INO
                } else {
                    ino
                };
                if tail.len() == 0 {
                    return self.resolve_at(new_base, trim_slashes(target.as_slice()), hops - 1);
                }
                let tl = if target.len() < 500 {
                    target.len()
                } else {
                    500
                };
                let rl = if tail.len() < 510 - tl {
                    tail.len()
                } else {
                    510 - tl
                };
                let mut cbuf: Vec<u8> = Vec::new();
                let mut i: usize = 0;
                while i < tl
                    invariant
                        i <= tl <= target@.len(),
                        cbuf@.len() == i,
                    decreases tl - i,
                {
                    cbuf.push(target[i]);
                    i = i + 1;
                }
                cbuf.push(0x2F);
                let mut j: usize = 0;
                while j < rl
                    invariant
                        j <= rl <= tail@.len(),
                    decreases rl - j,
                {
                    cbuf.push(tail[j]);
                    j = j + 1;
                }
                if utf8_str(cbuf.as_slice()).is_none() {
                    return Err(FsError::BadFormat);
                }
                return self.resolve_at(new_base, trim_slashes(cbuf.as_slice()), hops - 1);
            }
            proof {
                assert forall|x: u32| #[trigger] self.walk(child, tail@, hops as nat, x) implies self.walk(base, path@, hops as nat, x) by {
                    assert(self.walk(ino, rest@, hops as nat, x));
                }
            }
            ino = child;
            rest = tail;
        }
        Ok(ino)
    }

    /// Inode of `path` from the root, following up to eight symbolic links.
    fn resolve(&self, path: &str) -> (r: Result<u32>)
        requires
            self.wf(),
        ensures
            trim_start(path.spec_bytes(), 0x2F).len() == 0 ==> r == Ok::<u32, FsError>(ROOT_INO),
            r matches Ok(i) ==> self.resolves(path.spec_bytes(), i),
    {
        let p = trim_slashes(str_bytes(path));
        proof {
            lemma_trim_start(path.spec_bytes(), 0x2F);
            lemma_trim_start(p@, 0x2F);
        }
        self.resolve_at(ROOT_INO, p, 8)
    }

    /// The log space a transaction of `n` blocks cannot fit in.
    pub open spec fn log_full(&self, n: int) -> bool {
        self.spec_journal() matches Some(js) && n + 2 >= (if js.total >= js.first { js.total - js.first } else { 0 })
    }

    /// Transaction id of the next transaction.
    pub open spec fn next_seq(&self) -> u32 {
        match self.spec_journal() {
            Some(j) => j.sequence,
            None => 1,
        }
    }

    /// Commit `data` as the new contents of block `phys` in a one-block
    /// transaction.
    fn commit_block(&mut self, phys: u32, data: Vec<u8>) -> (r: Result<()>)
        requires
            old(self).wf(),
            data@.len() == old(self).sb.block_size,
        ensures
            final(self).wf(),
            final(self).sb == old(self).sb,
            old(self).log_full(1) ==> r == Err::<(), FsError>(FsError::NoSpace) && final(self).dev == old(self).dev,
            old(self).spec_journal() is None ==> final(self).spec_journal() is None && (r is Ok ==> after_writes(
                &old(self).spec_dev(),
                &final(self).spec_dev(),
                old(self).spec_sb().block_size as int,
                seq![(phys as int, data@)],
            )),
            old(self).spec_journal() matches Some(js) ==> (r is Ok ==> final(self).spec_journal() == Some(
                JournalState { head: js.first, sequence: wrap32(js.sequence + 1), ..js },
            )),
    {
        let seq = self.txn_seq();
        let mut txn = Txn::new(seq);
        txn.blocks.push((phys, data));
        let ghost ob = txn.blocks@;
        assert(ob =~= seq![(phys, data)]);
        let r = self.journal_commit(&mut txn);
        proof {
            if r is Ok && old(self).journal is None {
                assert(Seq::new(1, |i: int| (ob[i].0 as int, ob[i].1@)) =~= seq![(phys as int, data@)]);
            }
        }
        r
    }

    /// Add the entry `name` → `child` to directory `dir_ino`: in the first
    /// block with room, else in a newly allocated block appended to the
    /// directory. Names over 255 bytes are refused.
    fn add_dir_entry(&mut self, dir_ino: u32, name: &str, child: u32, ftype: u8) -> (r: Result<()>)
        requires
            old(self).wf(),
            dir_ino >= 1,
        ensures
            final(self).wf(),
            same_geom(old(self).spec_sb(), final(self).spec_sb()),
            r is Ok ==> final(self).spec_sb().free_inodes_count == old(self).spec_sb().free_inodes_count,
            (name.spec_bytes().len() == 0 || name.spec_bytes().len() > 255) ==> r == Err::<(), FsError>(FsError::InvalidArg),
    {
        let namb = str_bytes(name);
        let nl = namb.len();
        if nl == 0 || nl > 255 {
            return Err(FsError::InvalidArg);
        }
        let bs = self.sb.block_size;
        let dinode = self.read_inode(dir_ino)?;
        let nblk = self.next_block_of(dinode.size);
        let mut b: u32 = 0;
        while b < nblk
            invariant
                self.wf(),
                self.sb == old(self).sb,
                bs == self.sb.block_size,
                b <= nblk,
                namb@ == name.spec_bytes(),
                1 <= namb@.len() <= 255,
            decreases nblk - b,
        {
            let phys = self.file_block(&dinode, b)?;
            if phys != 0 {
                let mut buf = read_block(&self.dev, bs, phys)?;
                if place_entry(buf.as_mut_slice(), child, namb, ftype) {
                    return self.commit_block(phys, buf);
                }
            }
            b = b + 1;
        }
        // No room: a new directory block.
        let bpg = self.sb.blocks_per_group;
        proof {
            assert(dir_ino / bpg * bpg <= dir_ino) by (nonlinear_arith)
                requires
                    bpg > 0,
            ;
        }
        let base = dir_ino / bpg * bpg;
        let near = if dinode.blocks[0] > base {
            dinode.blocks[0]
        } else {
            base
        };
        let new_blk = self.alloc_block(near)?;
        let mut buf: Vec<u8> = vec![0u8; bs as usize];
        assert(nl + 8 <= bs);
        let bsz = bs as usize;
        let mut rec = buf;
        wr_le32(rec.as_mut_slice(), 0, child);
        wr_le16(rec.as_mut_slice(), 4, bs as u16);
        rec.set(6, nl as u8);
        rec.set(7, ftype);
        let mut i: usize = 0;
        while i < nl
            invariant
                i <= nl,
                nl == namb@.len(),
                nl <= 255,
                rec@.len() == bsz,
                bsz >= 1024,
            decreases nl - i,
        {
            rec.set(8 + i, namb[i]);
            i = i + 1;
        }
        let mut di = dinode;
        if di.flags & EXT4_EXTENTS_FL != 0 {
            self.extent_append(dir_ino, &mut di)?;
        } else {
            self.indirect_append(dir_ino, &mut di)?;
        }
        di.size = di.size.wrapping_add(bs as u64);
        let seq = self.txn_seq();
        let mut txn = Txn::new(seq);
        txn.blocks.push((new_blk, rec));
        let (ii, io) = self.txn_inode(&mut txn, dir_ino)?;
        let mut iblk = vstd::slice::slice_to_vec(txn.blocks[ii].1.as_slice());
        let ghost ib0 = iblk@;
        write_inode_to_buf(iblk.as_mut_slice(), &di, bs, io);
        assert(iblk@.len() == ib0.len());
        let it = txn.blocks[ii].0;
        txn.blocks.set(ii, (it, iblk));
        proof {
            assert forall|k: int| 0 <= k < txn.blocks@.len() implies (#[trigger] txn.blocks@[k]).1@.len() == self.sb.block_size by {}
        }
        self.journal_commit(&mut txn)
    }

    /// Remove the live entry `name` from directory `dir_ino`.
    fn remove_dir_entry(&mut self, dir_ino: u32, name: &str) -> (r: Result<()>)
        requires
            old(self).wf(),
        ensures
            final(self).wf(),
            same_geom(old(self).spec_sb(), final(self).spec_sb()),
            final(self).spec_sb() == old(self).spec_sb(),
            r is Ok ==> exists|d: Inode, k: int, phys: u32| #![trigger inode_fields(old(self).inode_record(dir_ino as int), old(self).spec_sb().block_size, d), file_map(&old(self).spec_dev(), old(self).spec_sb().block_size as int, d, k), blk(&old(self).spec_dev(), old(self).spec_sb().block_size as int, phys as int)] {
                &&& inode_fields(old(self).inode_record(dir_ino as int), old(self).spec_sb().block_size, d)
                &&& 0 <= k < next_logical(d.size, old(self).spec_sb().block_size as int)
                &&& file_map(&old(self).spec_dev(), old(self).spec_sb().block_size as int, d, k) == Some(phys)
                &&& phys != 0
                &&& drop_at(blk(&old(self).spec_dev(), old(self).spec_sb().block_size as int, phys as int), 0, 0, name.spec_bytes()) is Some
                &&& (old(self).spec_journal() is None ==> after_writes(
                    &old(self).spec_dev(),
                    &final(self).spec_dev(),
                    old(self).spec_sb().block_size as int,
                    seq![(phys as int, drop_result(blk(&old(self).spec_dev(), old(self).spec_sb().block_size as int, phys as int), name.spec_bytes()))],
                ))
            },
            old(self).spec_journal() matches Some(js) ==> (r is Ok ==> final(self).spec_journal() == Some(
                JournalState { head: js.first, sequence: wrap32(js.sequence + 1), ..js },
            )),
    {
        let namb = str_bytes(name);
        let bs = self.sb.block_size;
        let inode = self.read_inode(dir_ino)?;
        let nblk = self.next_block_of(inode.size);
        let mut b: u32 = 0;
        while b < nblk
            invariant
                self.wf(),
                self.sb == old(self).sb,
                *self == *old(self),
                bs == self.sb.block_size,
                b <= nblk,
                nblk == next_logical(inode.size, bs as int),
                namb@ == name.spec_bytes(),
                inode_fields(self.inode_record(dir_ino as int), bs, inode),
            decreases nblk - b,
        {
            let phys = self.file_block(&inode, b)?;
            if phys != 0 {
                let mut buf = read_block(&self.dev, bs, phys)?;
                let ghost b0 = buf@;
                if drop_entry(buf.as_mut_slice(), namb) {
                    proof {
                        assert(buf@ == drop_result(b0, namb@));
                        assert(file_map(&self.spec_dev(), bs as int, inode, b as int) == Some(phys));
                    }
                    return self.commit_block(phys, buf);
                }
            }
            b = b + 1;
        }
        Err(FsError::NotFound)
    }

    /// `m` describes some inode of the volume under some name.
    pub open spec fn describes(&self, m: Metadata) -> bool {
        exists|ino: u32, d: Inode, nm: Seq<u8>| #[trigger] inode_fields(self.inode_record(ino as int), self.spec_sb().block_size, d)
            && #[trigger] meta_of(m, d, nm)
    }

    /// Flags, block map bytes and block pointers of inode `ino`.
    pub fn inode_raw_info(&self, ino: u32) -> (r: Result<(u32, [u8; 60], [u32; 15])>)
        requires
            self.wf(),
        ensures
            r matches Ok((f, raw, b)) ==> exists|d: Inode| #[trigger] inode_fields(self.inode_record(ino as int), self.spec_sb().block_size, d)
                && f == d.flags && raw == d.block_raw && b == d.blocks,
            (ino < 1 || ino > self.spec_sb().inodes_count) ==> r is Err,
    {
        let d = self.read_inode(ino)?;
        Ok((d.flags, d.block_raw, d.blocks))
    }

    /// Open the regular file (or link, device, …) at `path`; directories are
    /// refused as the wrong type.
    pub fn open(&self, path: &str) -> (r: Result<Ext2File<'_, D>>)
        requires
            self.wf(),
        ensures
            r matches Ok(f) ==> f.wf() && f.spec_vol() == self && f.spec_pos() == 0
                && inode_fields(self.inode_record(f.spec_ino() as int), self.spec_sb().block_size, f.spec_inode())
                && f.spec_inode().mode & IFMT != IFDIR,
            r matches Ok(f) ==> self.resolves(path.spec_bytes(), f.spec_ino()) && f.spec_inode() == self.inode_of(f.spec_ino()),
    {
        let ino = self.resolve(path)?;
        let inode = self.read_inode(ino)?;
        proof {
            lemma_inode_fields_unique(self.inode_record(ino as int), self.sb.block_size, inode, self.inode_of(ino));
        }
        if inode.mode & IFMT == IFDIR {
            return Err(FsError::WrongType);
        }
        Ok(Ext2File { vol: self, ino, inode, pos: 0 })
    }

    /// Metadata of each entry of the directory at `path` whose inode can be
    /// read.
    pub fn read_dir(&self, path: &str) -> (r: Result<Vec<Metadata>>)
        requires
            self.wf(),
        ensures
            r matches Ok(v) ==> forall|i: int| 0 <= i < v@.len() ==> self.describes(#[trigger] v@[i]),
            r matches Ok(v) ==> exists|ino: u32, idx: Seq<int>| #[trigger] self.listing_of(path.spec_bytes(), v@, ino, idx),
    {
        let ino = self.resolve(path)?;
        let es = self.walk_dir(ino)?;
        let ghost bs = self.sb.block_size;
        let ghost ev = ents_view(es@);
        proof {
            let d = choose|d: Inode| #[trigger] inode_fields(self.inode_record(ino as int), bs, d)
                && d.mode & IFMT == IFDIR && dir_listing(&self.dev, bs as int, d) == Some(ev);
            lemma_inode_fields_unique(self.inode_record(ino as int), bs, d, self.inode_of(ino));
        }
        let mut out: Vec<Metadata> = Vec::new();
        let ghost mut idx: Seq<int> = Seq::empty();
        let mut i: usize = 0;
        while i < es.len()
            invariant
                self.wf(),
                bs == self.sb.block_size,
                ev == ents_view(es@),
                i <= es@.len(),
                forall|k: int| 0 <= k < out@.len() ==> self.describes(#[trigger] out@[k]),
                self.sub_listing(out@, ev, idx),
                forall|a: int| 0 <= a < idx.len() ==> #[trigger] idx[a] < i,
            decreases es@.len() - i,
        {
            let child = es[i].ino;
            match self.read_inode(child) {
                Ok(d) => {
                    let m = Self::meta_for(&d, es[i].name.as_slice());
                    proof {
                        assert(inode_fields(self.inode_record(child as int), self.spec_sb().block_size, d));
                        lemma_inode_fields_unique(self.inode_record(child as int), bs, d, self.inode_of(child));
                        let idx2 = idx.push(i as int);
                        assert(ev[i as int].1 == child && ev[i as int].0 == es@[i as int].name@);
                        assert forall|a: int, b: int| 0 <= a < b < idx2.len() implies idx2[a] < idx2[b] by {
                            if b == idx.len() {
                                assert(idx[a] < i);
                            }
                        }
                        idx = idx2;
                    }
                    out.push(m);
                },
                Err(_) => {},
            }
            i = i + 1;
        }
        let ghost fidx = idx;
        proof {
            assert(self.listing_of(path.spec_bytes(), out@, ino, fidx));
        }
        let res: Result<Vec<Metadata>> = Ok(out);
        proof {
            assert(res matches Ok(v) && self.listing_of(path.spec_bytes(), v@, ino, fidx));
        }
        res
    }

    /// `v` lists, in order, some of the entries `es` (those whose inode
    /// could be read), each as its inode's metadata under its name.
    pub open spec fn sub_listing(&self, v: Seq<Metadata>, es: Seq<(Seq<u8>, u32, u8)>, idx: Seq<int>) -> bool {
        &&& idx.len() == v.len()
        &&& forall|a: int, b: int| 0 <= a < b < idx.len() ==> idx[a] < idx[b]
        &&& forall|a: int| 0 <= a < idx.len() ==> 0 <= #[trigger] idx[a] < es.len() && meta_of(
            v[a],
            self.inode_of(es[idx[a]].1),
            if vstd::utf8::valid_utf8(es[idx[a]].0) { es[idx[a]].0 } else { Seq::empty() },
        )
    }

    /// `v` is a listing of the directory `path` resolves to (inode `ino`),
    /// taking its entries in order at the positions `idx`.
    pub open spec fn listing_of(&self, path: Seq<u8>, v: Seq<Metadata>, ino: u32, idx: Seq<int>) -> bool {
        &&& self.resolves(path, ino)
        &&& self.inode_of(ino).mode & IFMT == IFDIR
        &&& dir_listing(&self.spec_dev(), self.spec_sb().block_size as int, self.inode_of(ino)) matches Some(es)
        &&& self.sub_listing(v, es, idx)
    }

    /// Metadata of inode `d` under the name `name`.
    fn meta_for(d: &Inode, name: &[u8]) -> (m: Metadata)
        ensures
            meta_of(m, *d, if vstd::utf8::valid_utf8(name@) {
                name@
            } else {
                Seq::empty()
            }),
    {
        let mut m = Metadata::zeroed();
        m.is_dir = d.mode & IFMT == IFDIR;
        m.size = d.size;
        m.readonly = d.mode & 0o200 == 0;
        m.mtime = d.mtime;
        let st = match utf8_str(name) {
            Some(st) => {
                proof {
                    vstd::utf8::encode_utf8_valid_utf8(st@);
                }
                st
            },
            None => {
                proof {
                    reveal_strlit("");
                }
                ""
            },
        };
        m.set_name(st);
        assert(m.name@ == name_after_set(Seq::new(256, |i: int| 0u8), st.spec_bytes()));
        m
    }

    /// Metadata of the file or directory at `path`, named by the path's last
    /// component.
    pub fn stat(&self, path: &str) -> (r: Result<Metadata>)
        requires
            self.wf(),
        ensures
            r matches Ok(m) ==> exists|ino: u32, d: Inode| #[trigger] inode_fields(self.inode_record(ino as int), self.spec_sb().block_size, d)
                && meta_of(m, d, last_component(path.spec_bytes())),
            r matches Ok(m) ==> exists|ino: u32| #[trigger] self.resolves(path.spec_bytes(), ino) && meta_of(
                m,
                self.inode_of(ino),
                last_component(path.spec_bytes()),
            ) && inode_fields(self.inode_record(ino as int), self.spec_sb().block_size, self.inode_of(ino)),
    {
        let ino = self.resolve(path)?;
        let d = self.read_inode(ino)?;
        let mut m = Metadata::zeroed();
        m.is_dir = d.mode & IFMT == IFDIR;
        m.size = d.size;
        m.readonly = d.mode & 0o200 == 0;
        m.mtime = d.mtime;
        m.set_name(last_comp(path));
        proof {
            assert(inode_fields(self.inode_record(ino as int), self.spec_sb().block_size, d));
            lemma_inode_fields_unique(self.inode_record(ino as int), self.sb.block_size, d, self.inode_of(ino));
            assert(self.resolves(path.spec_bytes(), ino));
        }
        Ok(m)
    }

    /// Read from the file mapped by `flags`, `block_raw` and `blocks`, of
    /// `size` bytes, at `*pos` into `buf`, advancing `*pos`: up to the end
    /// of the file or of `buf`, holes reading as zeros; inline data comes
    /// from the block-map bytes.
    pub fn raw_read(
        &self,
        flags: u32,
        block_raw: &[u8; 60],
        blocks: &[u32; 15],
        size: u64,
        pos: &mut u64,
        buf: &mut [u8],
    ) -> (r: Result<usize>)
        requires
            self.wf(),
        ensures
            final(buf)@.len() == old(buf)@.len(),
            *old(pos) >= size ==> r == Ok::<usize, FsError>(0) && *final(pos) == *old(pos) && final(buf)@ == old(buf)@,
            *old(pos) < size && flags & EXT4_INLINE_DATA_FL != 0 ==> {
                let off = *old(pos) as int;
                let avail = if 60 > off {
                    if size - off < 60 - off { size - off } else { 60 - off }
                } else {
                    0
                };
                let take = if avail < old(buf)@.len() { avail } else { old(buf)@.len() as int };
                &&& r == Ok::<usize, FsError>(take as usize)
                &&& *final(pos) == off + take
                &&& forall|k: int| 0 <= k < take ==> #[trigger] final(buf)@[k] == block_raw@[off + k]
                &&& forall|k: int| take <= k < old(buf)@.len() ==> #[trigger] final(buf)@[k] == old(buf)@[k]
            },
            *old(pos) < size && flags & EXT4_INLINE_DATA_FL == 0 ==> (r matches Ok(n) ==> {
                let want = if size - *old(pos) < old(buf)@.len() { size - *old(pos) } else { old(buf)@.len() as int };
                &&& n == want
                &&& *final(pos) == *old(pos) + n
                &&& forall|i: int| 0 <= i < n ==> file_byte(&self.spec_dev(), self.spec_sb().block_size as int, map_inode(flags, *block_raw, *blocks, size), *old(pos) + i)
                    == Some(#[trigger] final(buf)@[i])
                &&& forall|i: int| n <= i < old(buf)@.len() ==> #[trigger] final(buf)@[i] == old(buf)@[i]
            }),
    {
        let blen = buf.len();
        if *pos >= size {
            return Ok(0);
        }
        if flags & EXT4_INLINE_DATA_FL != 0 {
            let off = *pos;
            let avail: u64 = if 60 > off {
                if size - off < 60 - off { size - off } else { 60 - off }
            } else {
                0
            };
            let take: usize = if avail < blen as u64 { avail as usize } else { blen };
            let o = off as usize;
            let mut i: usize = 0;
            while i < take
                invariant
                    blen == buf@.len(),
                    take <= blen,
                    take > 0 ==> o + take <= 60,
                    i <= take,
                    forall|k: int| 0 <= k < blen ==> #[trigger] buf@[k] == if k < i { block_raw@[o + k] } else { old(buf)@[k] },
                decreases take - i,
            {
                buf[i] = block_raw[o + i];
                i = i + 1;
            }
            *pos = off + take as u64;
            return Ok(take);
        }
        let bs = self.sb.block_size;
        let bs64 = bs as u64;
        let want: usize = if size - *pos < blen as u64 { (size - *pos) as usize } else { blen };
        let inode = Inode { mode: IFREG, flags, size, mtime: 0, block_raw: *block_raw, blocks: *blocks, i_blocks: 0, links: 1 };
        let ghost ino_s = map_inode(flags, *block_raw, *blocks, size);
        assert(inode == ino_s);
        let ghost p0 = *pos;
        let mut done: usize = 0;
        while done < want
            invariant
                self.wf(),
                bs == self.sb.block_size,
                bs64 == bs,
                inode == ino_s,
                p0 == *old(pos),
                p0 < size,
                flags & EXT4_INLINE_DATA_FL == 0,
                blen == old(buf)@.len(),
                blen == buf@.len(),
                want == (if size - p0 < blen { size - p0 } else { blen as int }),
                want <= blen,
                done <= want,
                p0 + want <= size,
                *pos == p0 + done,
                forall|i: int| 0 <= i < done ==> file_byte(&self.dev, bs as int, ino_s, p0 + i) == Some(#[trigger] buf@[i]),
                forall|i: int| done <= i < blen ==> #[trigger] buf@[i] == old(buf)@[i],
            decreases want - done,
        {
            let cur = *pos;
            let q = cur / bs64;
            let logical = q as u32;
            let off = (cur % bs64) as usize;
            proof {
                assert(logical == q % 0x1_0000_0000) by (bit_vector)
                    requires
                        logical == q as u32,
                ;
            }
            let phys = self.file_block(&inode, logical)?;
            let room = bs as usize - off;
            let take = if room < want - done { room } else { want - done };
            let tmp: Vec<u8> = if phys == 0 {
                vec![0u8; bs as usize]
            } else {
                read_block(&self.dev, bs, phys)?
            };
            let mut j: usize = 0;
            while j < take
                invariant
                    self.wf(),
                    bs == self.sb.block_size,
                    tmp@.len() == bs,
                    bs64 == bs,
                    phys != 0 ==> tmp@ == blk(&self.dev, bs as int, phys as int),
                    phys == 0 ==> forall|k: int| 0 <= k < bs ==> #[trigger] tmp@[k] == 0,
                    file_map(&self.dev, bs as int, ino_s, logical as int) == Some(phys),
                    logical == (cur / bs64) % 0x1_0000_0000,
                    off == cur % bs64,
                    off + take <= bs,
                    blen == buf@.len(),
                    blen == old(buf)@.len(),
                    p0 == *old(pos),
                    p0 < size,
                    flags & EXT4_INLINE_DATA_FL == 0,
                    done + take <= want <= blen,
                    cur == p0 + done,
                    j <= take,
                    forall|i: int| 0 <= i < done + j ==> file_byte(&self.dev, bs as int, ino_s, p0 + i) == Some(#[trigger] buf@[i]),
                    forall|i: int| done + j <= i < blen ==> #[trigger] buf@[i] == old(buf)@[i],
                decreases take - j,
            {
                proof {
                    let x = cur + j;
                    vstd::arithmetic::div_mod::lemma_fundamental_div_mod(cur as int, bs as int);
                    assert((cur / bs64) as int * (bs as int) == (bs as int) * (cur / bs64) as int) by (nonlinear_arith);
                    assert(cur as int == (bs as int) * (cur as int / bs as int) + (cur as int % bs as int));
                    assert(cur as int / bs as int == (cur / bs64) as int);
                    assert(cur as int % bs as int == off as int);
                    assert(x as int == (cur / bs64) as int * (bs as int) + (off + j) as int);
                    vstd::arithmetic::div_mod::lemma_fundamental_div_mod_converse(x as int, bs as int, (cur / bs64) as int, (off + j) as int);
                    assert(lblk(x as int, bs as int) == logical);
                    assert(x % (bs as int) == off + j);
                }
                buf[done + j] = tmp[off + j];
                j = j + 1;
            }
            done = done + take;
            *pos = cur + take as u64;
        }
        Ok(done)
    }

    /// Create an empty regular file at `path` (extent-mapped on EXT4
    /// volumes) and return its inode number.
    #[verifier::spinoff_prover]
    pub fn create_file(&mut self, path: &str) -> (r: Result<u32>)
        requires
            old(self).wf(),
        ensures
            final(self).wf(),
            same_geom(old(self).spec_sb(), final(self).spec_sb()),
            r matches Ok(i) ==> i >= 1,
            r matches Ok(i) ==> old(self).created(path.spec_bytes(), i),
            r is Ok ==> final(self).spec_sb().free_inodes_count == sat_dec(old(self).spec_sb().free_inodes_count as int),
    {
        let (dir_p, name) = split_parent(path);
        let dir_ino = self.resolve(dir_p)?;
        let ino = self.alloc_inode(dir_ino)?;
        assert(old(self).allocates_inode(dir_ino, ino));
        let mut inode = Inode {
            mode: IFREG | 0o644,
            flags: 0,
            size: 0,
            mtime: 0,
            block_raw: [0u8; 60],
            blocks: [0u32; 15],
            i_blocks: 0,
            links: 1,
        };
        if self.sb.feature_incompat & EXT4_INCOMPAT_EXTENTS != 0 {
            inode.flags = inode.flags | EXT4_EXTENTS_FL;
            wr_le16(&mut inode.block_raw, 0, EXT4_EXTENT_MAGIC);
            wr_le16(&mut inode.block_raw, 4, 4);
        }
        self.write_inode_journaled(ino, &inode)?;
        if dir_ino < 1 {
            return Err(FsError::NotFound);
        }
        self.add_dir_entry(dir_ino, name, ino, 1)?;
        proof {
            assert(old(self).resolves(spec_split_parent(path.spec_bytes()).0, dir_ino));
            assert(old(self).created(path.spec_bytes(), ino));
        }
        Ok(ino)
    }

    /// `i` is a new inode for an entry created at `path`: the allocator's
    /// claim on this volume near the directory the path's parent resolves
    /// to, under a name of 1 to 255 bytes.
    pub open spec fn created(&self, path: Seq<u8>, i: u32) -> bool {
        &&& 1 <= spec_split_parent(path).1.len() <= 255
        &&& exists|dino: u32| #![trigger self.resolves(spec_split_parent(path).0, dino)]
            dino >= 1 && self.resolves(spec_split_parent(path).0, dino) && self.allocates_inode(dino, i)
    }

    /// Create a directory at `path` with its `.` and `..` entries.
    #[verifier::spinoff_prover]
    pub fn mkdir(&mut self, path: &str) -> (r: Result<()>)
        requires
            old(self).wf(),
        ensures
            final(self).wf(),
            same_geom(old(self).spec_sb(), final(self).spec_sb()),
            r is Ok ==> exists|ino: u32| #[trigger] old(self).created(path.spec_bytes(), ino),
            r is Ok ==> final(self).spec_sb().free_inodes_count == sat_dec(old(self).spec_sb().free_inodes_count as int),
    {
        let (dir_p, name) = split_parent(path);
        let dir_ino = self.resolve(dir_p)?;
        let ino = self.alloc_inode(dir_ino)?;
        assert(old(self).allocates_inode(dir_ino, ino));
        let bpg = self.sb.blocks_per_group;
        proof {
            assert(ino / bpg * bpg <= ino) by (nonlinear_arith)
                requires
                    bpg > 0,
            ;
        }
        let near = ino / bpg * bpg;
        let data = self.alloc_block(near)?;
        let bs = self.sb.block_size;
        let bsz = bs as usize;
        let mut buf: Vec<u8> = vec![0u8; bsz];
        wr_le32(buf.as_mut_slice(), 0, ino);
        wr_le16(buf.as_mut_slice(), 4, 12);
        buf.set(6, 1);
        buf.set(7, 2);
        buf.set(8, 0x2E);
        wr_le32(buf.as_mut_slice(), 12, dir_ino);
        wr_le16(buf.as_mut_slice(), 16, (bsz - 12) as u16);
        buf.set(18, 2);
        buf.set(19, 2);
        buf.set(20, 0x2E);
        buf.set(21, 0x2E);
        write_block(&mut self.dev, bs, data, buf.as_slice())?;
        let mut inode = Inode {
            mode: IFDIR | 0o755,
            flags: 0,
            size: bs as u64,
            mtime: 0,
            block_raw: [0u8; 60],
            blocks: [0u32; 15],
            i_blocks: bs / 512,
            links: 2,
        };
        if self.sb.feature_incompat & EXT4_INCOMPAT_EXTENTS != 0 {
            inode.flags = inode.flags | EXT4_EXTENTS_FL;
            wr_le16(&mut inode.block_raw, 0, EXT4_EXTENT_MAGIC);
            wr_le16(&mut inode.block_raw, 2, 1);
            wr_le16(&mut inode.block_raw, 4, 4);
            put_leaf(&mut inode.block_raw, 0, 0, data);
            wr_le16(&mut inode.block_raw, 18, 0);
        } else {
            inode.blocks[0] = data;
            wr_le32(&mut inode.block_raw, 0, data);
        }
        self.write_inode_journaled(ino, &inode)?;
        if dir_ino < 1 {
            return Err(FsError::NotFound);
        }
        let r = self.add_dir_entry(dir_ino, name, ino, 2);
        proof {
            if r is Ok {
                assert(old(self).resolves(spec_split_parent(path.spec_bytes()).0, dir_ino));
                assert(old(self).created(path.spec_bytes(), ino));
            }
        }
        r
    }

    /// Remove the file at `path` (not a directory) and free its blocks and
    /// inode.
    pub fn unlink(&mut self, path: &str) -> (r: Result<()>)
        requires
            old(self).wf(),
        ensures
            final(self).wf(),
            same_geom(old(self).spec_sb(), final(self).spec_sb()),
            r is Ok ==> exists|dino: u32, pd: Inode, child: u32, d: Inode| #![trigger inode_fields(old(self).inode_record(dino as int), old(self).spec_sb().block_size, pd), inode_fields(old(self).inode_record(child as int), old(self).spec_sb().block_size, d)] {
                &&& inode_fields(old(self).inode_record(dino as int), old(self).spec_sb().block_size, pd)
                &&& old(self).resolves(spec_split_parent(path.spec_bytes()).0, dino)
                &&& found_in(dir_listing(&old(self).spec_dev(), old(self).spec_sb().block_size as int, pd), spec_split_parent(path.spec_bytes()).1, child)
                &&& inode_fields(old(self).inode_record(child as int), old(self).spec_sb().block_size, d)
                &&& d.mode & IFMT != IFDIR
                &&& (d.flags & EXT4_EXTENTS_FL == 0 && d.blocks@[12] == 0 && d.blocks@[13] == 0 ==> final(self).spec_sb().free_blocks_count
                    == count_freed(
                    old(self).spec_sb(),
                    d.blocks@.take(if next_logical(d.size, old(self).spec_sb().block_size as int) < 12 {
                        next_logical(d.size, old(self).spec_sb().block_size as int) as int
                    } else {
                        12
                    }),
                ).free_blocks_count)
                &&& (d.flags & EXT4_EXTENTS_FL != 0 && node_fits(d.block_raw@) && le16(d.block_raw@, 6) == 0
                    ==> final(self).spec_sb().free_blocks_count == count_freed(old(self).spec_sb(), extents_blocks(leaf_extents(d.block_raw@))).free_blocks_count)
            },
            r is Ok ==> final(self).spec_sb().free_inodes_count == wrap32(old(self).spec_sb().free_inodes_count + 1),
    {
        let (dir_p, name) = split_parent(path);
        let dir_ino = self.resolve(dir_p)?;
        let child = self.lookup_in(dir_ino, name)?;
        let inode = self.read_inode(child)?;
        if inode.mode & IFMT == IFDIR {
            return Err(FsError::WrongType);
        }
        proof {
            let pd = choose|d: Inode| #[trigger] inode_fields(self.inode_record(dir_ino as int), self.sb.block_size, d)
                && found_in(dir_listing(&self.dev, self.sb.block_size as int, d), name.spec_bytes(), child);
            assert(inode_fields(old(self).inode_record(dir_ino as int), old(self).spec_sb().block_size, pd));
            assert(inode_fields(old(self).inode_record(child as int), old(self).spec_sb().block_size, inode));
        }
        self.remove_dir_entry(dir_ino, name)?;
        self.free_inode_data(&inode)?;
        self.free_inode(child)
    }

    /// Remove the empty directory at `path` and free its blocks and inode.
    #[verifier::spinoff_prover]
    #[verifier::rlimit(50)]
    pub fn rmdir(&mut self, path: &str) -> (r: Result<()>)
        requires
            old(self).wf(),
        ensures
            final(self).wf(),
            same_geom(old(self).spec_sb(), final(self).spec_sb()),
            r is Ok ==> exists|dino: u32, pd: Inode, child: u32, d: Inode| #![trigger inode_fields(old(self).inode_record(dino as int), old(self).spec_sb().block_size, pd), inode_fields(old(self).inode_record(child as int), old(self).spec_sb().block_size, d)] {
                &&& inode_fields(old(self).inode_record(dino as int), old(self).spec_sb().block_size, pd)
                &&& old(self).resolves(spec_split_parent(path.spec_bytes()).0, dino)
                &&& found_in(dir_listing(&old(self).spec_dev(), old(self).spec_sb().block_size as int, pd), spec_split_parent(path.spec_bytes()).1, child)
                &&& inode_fields(old(self).inode_record(child as int), old(self).spec_sb().block_size, d)
                &&& d.mode & IFMT == IFDIR && dir_listing(&old(self).spec_dev(), old(self).spec_sb().block_size as int, d) == Some(Seq::<(Seq<u8>, u32, u8)>::empty())
                &&& (d.flags & EXT4_EXTENTS_FL == 0 && d.blocks@[12] == 0 && d.blocks@[13] == 0 ==> final(self).spec_sb().free_blocks_count
                    == count_freed(
                    old(self).spec_sb(),
                    d.blocks@.take(if next_logical(d.size, old(self).spec_sb().block_size as int) < 12 {
                        next_logical(d.size, old(self).spec_sb().block_size as int) as int
                    } else {
                        12
                    }),
                ).free_blocks_count)
                &&& (d.flags & EXT4_EXTENTS_FL != 0 && node_fits(d.block_raw@) && le16(d.block_raw@, 6) == 0
                    ==> final(self).spec_sb().free_blocks_count == count_freed(old(self).spec_sb(), extents_blocks(leaf_extents(d.block_raw@))).free_blocks_count)
            },
            r is Ok ==> final(self).spec_sb().free_inodes_count == wrap32(old(self).spec_sb().free_inodes_count + 1),
    {
        let (dir_p, name) = split_parent(path);
        let dir_ino = self.resolve(dir_p)?;
        let child = self.lookup_in(dir_ino, name)?;
        let inode = self.read_inode(child)?;
        if inode.mode & IFMT != IFDIR {
            return Err(FsError::WrongType);
        }
        let es = self.walk_dir(child)?;
        if es.len() > 0 {
            return Err(FsError::NotEmpty);
        }
        proof {
            let pd = choose|d: Inode| #[trigger] inode_fields(self.inode_record(dir_ino as int), self.sb.block_size, d)
                && found_in(dir_listing(&self.dev, self.sb.block_size as int, d), name.spec_bytes(), child);
            assert(inode_fields(old(self).inode_record(dir_ino as int), old(self).spec_sb().block_size, pd));
            let cd = choose|d: Inode| #[trigger] inode_fields(self.inode_record(child as int), self.sb.block_size, d)
                && d.mode & IFMT == IFDIR && dir_listing(&self.dev, self.sb.block_size as int, d) == Some(ents_view(es@));
            assert(ents_view(es@) =~= Seq::<(Seq<u8>, u32, u8)>::empty());
            assert(inode_fields(old(self).inode_record(child as int), old(self).spec_sb().block_size, cd));
            assert(inode_fields(self.inode_record(child as int), self.sb.block_size, inode));
            lemma_inode_fields_unique(self.inode_record(child as int), self.sb.block_size, inode, cd);
        }
        self.remove_dir_entry(dir_ino, name)?;
        self.free_inode_data(&inode)?;
        self.free_inode(child)
    }

    /// Write `buf` at `*pos` into the file of inode `ino` mapped by `flags`,
    /// `block_raw` and `blocks`, of `*size` bytes, allocating blocks as the
    /// file grows; partial blocks are read, patched and written back. The
    /// inode is then written through the journal. Inline data takes at most
    /// what fits the 60 map bytes, and a full inline area is out of space.
    pub fn raw_write(
        &mut self,
        ino: u32,
        flags: &mut u32,
        block_raw: &mut [u8; 60],
        blocks: &mut [u32; 15],
        size: &mut u64,
        pos: &mut u64,
        buf: &[u8],
    ) -> (r: Result<usize>)
        requires
            old(self).wf(),
            ino >= 1,
        ensures
            final(self).wf(),
            same_geom(old(self).spec_sb(), final(self).spec_sb()),
            *old(flags) & EXT4_INLINE_DATA_FL != 0 ==> {
                let off = *old(pos) as int;
                let avail = if 60 > off { 60 - off } else { 0 };
                let take = if avail < buf@.len() { avail } else { buf@.len() as int };
                &&& take == 0 ==> r == Err::<usize, FsError>(FsError::NoSpace)
                &&& take > 0 ==> r == Ok::<usize, FsError>(take as usize) && *final(pos) == off + take
                    && *final(size) == (if off + take > *old(size) { off + take } else { *old(size) as int })
                    && final(block_raw)@ == splice(old(block_raw)@, off, buf@.subrange(0, take))
            },
            *old(flags) & EXT4_INLINE_DATA_FL == 0 ==> (r matches Ok(n) ==> n == buf@.len() && *final(pos) == *old(pos) + n
                && *final(size) == (if n > 0 && *old(pos) + n > *old(size) { *old(pos) + n } else { *old(size) as int })),
    {
        if *flags & EXT4_INLINE_DATA_FL != 0 {
            let off = *pos;
            let avail: u64 = if 60 > off {
                60 - off
            } else {
                0
            };
            let take: usize = if avail < buf.len() as u64 {
                avail as usize
            } else {
                buf.len()
            };
            if take == 0 {
                return Err(FsError::NoSpace);
            }
            let o = off as usize;
            let mut i: usize = 0;
            while i < take
                invariant
                    take <= buf@.len(),
                    o + take <= 60,
                    i <= take,
                    forall|k: int| 0 <= k < 60 ==> #[trigger] block_raw@[k] == if o <= k < o + i {
                        buf@[k - o]
                    } else {
                        old(block_raw)@[k]
                    },
                decreases take - i,
            {
                block_raw[o + i] = buf[i];
                i = i + 1;
            }
            assert(block_raw@ =~= splice(old(block_raw)@, o as int, buf@.subrange(0, take as int)));
            *pos = off + take as u64;
            if *pos > *size {
                *size = *pos;
            }
            return Ok(take);
        }
        let bs = self.sb.block_size;
        let bs64 = bs as u64;
        let bsz = bs as usize;
        let mut inode = Inode { mode: IFREG, flags: *flags, size: *size, mtime: 0, block_raw: *block_raw, blocks: *blocks, i_blocks: 0, links: 1 };
        let blen = buf.len();
        let ghost p0 = *pos;
        let ghost s0 = *size;
        if *pos > u64::MAX - blen as u64 {
            return Err(FsError::InvalidArg);
        }
        let mut done: usize = 0;
        while done < blen
            invariant
                self.wf(),
                same_geom(old(self).spec_sb(), self.spec_sb()),
                bs == self.sb.block_size,
                bs64 == bs,
                bsz == bs,
                blen == buf@.len(),
                done <= blen,
                p0 + blen <= u64::MAX,
                p0 == *old(pos),
                s0 == *old(size),
                *flags == *old(flags),
                *old(flags) & EXT4_INLINE_DATA_FL == 0,
                *pos == p0 + done,
                *size == (if done > 0 && p0 + done > s0 { p0 + done } else { s0 as int }),
                ino >= 1,
            decreases blen - done,
        {
            let cur = *pos;
            let logical = (cur / bs64) as u32;
            let off = (cur % bs64) as usize;
            let p = self.file_block(&inode, logical)?;
            let phys = if p == 0 {
                if inode.flags & EXT4_EXTENTS_FL != 0 {
                    self.extent_append(ino, &mut inode)?
                } else {
                    self.indirect_append(ino, &mut inode)?
                }
            } else {
                p
            };
            let mut tmp: Vec<u8> = if off != 0 || blen - done < bsz {
                read_block(&self.dev, bs, phys)?
            } else {
                vec![0u8; bsz]
            };
            let room = bsz - off;
            let take = if room < blen - done {
                room
            } else {
                blen - done
            };
            let mut j: usize = 0;
            while j < take
                invariant
                    tmp@.len() == bsz,
                    off + take <= bsz,
                    done + take <= blen,
                    blen == buf@.len(),
                    j <= take,
                decreases take - j,
            {
                tmp.set(off + j, buf[done + j]);
                j = j + 1;
            }
            write_block(&mut self.dev, bs, phys, tmp.as_slice())?;
            done = done + take;
            *pos = cur + take as u64;
            if *pos > *size {
                *size = *pos;
                inode.size = *size;
            }
        }
        *block_raw = inode.block_raw;
        *blocks = inode.blocks;
        *flags = inode.flags;
        inode.size = *size;
        self.write_inode_journaled(ino, &inode)?;
        Ok(done)
    }

    /// Commit a transaction. Without a journal the blocks are written home.
    /// With one, blocks whose data begins with the journal magic are escaped
    /// (in `txn`, and so also at home); the descriptor, the blocks and the
    /// commit block are logged after the head, the JBD2 superblock records
    /// the next transaction id, the blocks are written home, and the journal
    /// is checkpointed. A transaction that does not fit the log (with its
    /// descriptor and commit block) is refused for want of space.
    #[verifier::spinoff_prover]
    fn journal_commit(&mut self, txn: &mut Txn) -> (r: Result<()>)
        requires
            old(self).wf(),
            old(txn).wf(old(self).sb.block_size as int),
        ensures
            final(self).wf(),
            final(self).sb == old(self).sb,
            old(txn).blocks@.len() == 0 ==> r is Ok && final(self).dev == old(self).dev && final(self).journal == old(self).journal,
            old(self).journal is None ==> final(self).journal is None && final(txn).blocks@ == old(txn).blocks@ && (r is Ok
                ==> after_writes(
                &old(self).dev,
                &final(self).dev,
                old(self).sb.block_size as int,
                Seq::new(old(txn).blocks@.len(), |i: int| (old(txn).blocks@[i].0 as int, old(txn).blocks@[i].1@)),
            )),
            old(self).journal matches Some(js) ==> {
                let n = old(txn).blocks@.len();
                let bs = old(self).sb.block_size as int;
                &&& (n > 0 && n + 2 >= (if js.total >= js.first { js.total - js.first } else { 0 })) ==> r
                    == Err::<(), FsError>(FsError::NoSpace) && final(self).dev == old(self).dev
                &&& (n > 0 && r is Ok) ==> {
                    &&& final(txn).blocks@.len() == n
                    &&& forall|i: int| 0 <= i < n ==> #[trigger] final(txn).blocks@[i].0 == old(txn).blocks@[i].0
                        && final(txn).blocks@[i].1@ == escaped(old(txn).blocks@[i].1@)
                    &&& final(self).journal == Some(JournalState { head: js.first, sequence: wrap32(old(txn).seq + 1), ..js })
                    &&& log_mapped(js, n)
                    &&& exists|descr: Seq<u8>, commit: Seq<u8>| {
                        &&& descr.len() == bs
                        &&& has_header(descr, JBD2_DESCRIPTOR, old(txn).seq)
                        &&& desc_tags(descr, tag_limit(bs, spec_has_csum(js.feat_incompat)), spec_tag_bytes(js.feat_incompat), csum_v3(js.feat_incompat), js.feat_incompat & JBD2_INCOMPAT_64BIT != 0, 12)
                            == commit_tags(
                            Seq::new(n, |i: int| old(txn).blocks@[i].0),
                            Seq::new(n, |i: int| be32(old(txn).blocks@[i].1@, 0) == JBD2_MAGIC),
                        )
                        &&& (spec_has_csum(js.feat_incompat) ==> csum_tail_ok(descr, js.csum_seed))
                        &&& commit.len() == bs
                        &&& has_header(commit, JBD2_COMMIT, old(txn).seq)
                        &&& (spec_has_csum(js.feat_incompat) ==> csum_tail_ok(commit, js.csum_seed))
                        &&& after_writes(&old(self).dev, &final(self).dev, bs, commit_writes(&old(self).dev, bs, js, final(txn).blocks@, descr, commit, old(txn).seq))
                    }
                }
            },
    {
        let bs = self.sb.block_size;
        let bsz = bs as usize;
        let n = txn.blocks.len();
        let ghost dev0 = self.dev;
        let ghost blocks0 = txn.blocks@;
        if n == 0 {
            return Ok(());
        }
        // Without a journal: write the blocks home.
        if self.journal.is_none() {
            let ghost want = Seq::new(n as nat, |i: int| (blocks0[i].0 as int, blocks0[i].1@));
            let mut i: usize = 0;
            while i < n
                invariant
                    self.wf(),
                    self.sb == old(self).sb,
                    self.journal is None,
                    old(self).journal is None,
                    n > 0,
                    bs == self.sb.block_size,
                    n == txn.blocks@.len(),
                    txn.blocks@ == blocks0,
                    old(txn).wf(bs as int),
                    blocks0 == old(txn).blocks@,
                    want == Seq::new(n as nat, |k: int| (blocks0[k].0 as int, blocks0[k].1@)),
                    i <= n,
                    after_writes(&dev0, &self.dev, bs as int, want.subrange(0, i as int)),
                decreases n - i,
            {
                let ghost mid = self.dev;
                let t = txn.blocks[i].0;
                write_block(&mut self.dev, bs, t, txn.blocks[i].1.as_slice())?;
                proof {
                    lemma_after_writes_step(&dev0, &mid, &self.dev, bs as int, want.subrange(0, i as int), t as int, blocks0[i as int].1@);
                    assert(want.subrange(0, i as int).push((t as int, blocks0[i as int].1@)) =~= want.subrange(0, i + 1));
                }
                i = i + 1;
            }
            assert(want.subrange(0, n as int) =~= want);
            return Ok(());
        }
        let ghost js0 = self.journal.unwrap();
        let (tb, v3, csum, h64, uuid, seed, head, total, first) = match &self.journal {
            Some(j) => (j.tag_bytes(), j.feat_incompat & JBD2_INCOMPAT_CSUM_V3 != 0, j.has_csum(), j.feat_incompat & JBD2_INCOMPAT_64BIT != 0, j.uuid, j.csum_seed, j.head, j.total, j.first),
            None => return Err(FsError::BadFormat),
        };
        let avail: u32 = if total >= first {
            total - first
        } else {
            0
        };
        if n as u64 + 2 >= avail as u64 {
            return Err(FsError::NoSpace);
        }
        // Escape blocks that begin with the journal magic.
        let mut targets: Vec<u32> = Vec::new();
        let mut esc: Vec<bool> = Vec::new();
        let mut newb: Vec<(u32, Vec<u8>)> = Vec::new();
        let mut i: usize = 0;
        while i < n
            invariant
                n == txn.blocks@.len(),
                txn.blocks@ == blocks0,
                old(txn).wf(bs as int),
                blocks0 == old(txn).blocks@,
                1024 <= bs <= 4096,
                i <= n,
                targets@.len() == i,
                esc@.len() == i,
                newb@.len() == i,
                forall|k: int| 0 <= k < i ==> #[trigger] targets@[k] == blocks0[k].0,
                forall|k: int| 0 <= k < i ==> #[trigger] esc@[k] == (be32(blocks0[k].1@, 0) == JBD2_MAGIC),
                forall|k: int| 0 <= k < i ==> #[trigger] newb@[k].0 == blocks0[k].0 && newb@[k].1@ == escaped(blocks0[k].1@),
            decreases n - i,
        {
            let t = txn.blocks[i].0;
            let mut c = vstd::slice::slice_to_vec(txn.blocks[i].1.as_slice());
            assert(c@.len() == bs);
            let e = rd_be32(c.as_slice(), 0) == JBD2_MAGIC;
            if e {
                wr_be32(c.as_mut_slice(), 0, 0);
                assert(c@ =~= escaped(blocks0[i as int].1@));
            }
            targets.push(t);
            esc.push(e);
            newb.push((t, c));
            i = i + 1;
        }
        txn.blocks = newb;
        let ghost blocks1 = txn.blocks@;
        proof {
            assert forall|k: int| 0 <= k < n implies (#[trigger] blocks1[k]).1@.len() == bs by {
                assert(blocks1[k].0 == blocks0[k].0);
                assert(old(txn).blocks@[k].1@.len() == bs);
                assert(escaped(blocks0[k].1@).len() == blocks0[k].1@.len());
            }
        }
        let seq = txn.seq;
        let descr = build_descriptor(&targets, &esc, seq, bsz, tb, v3, h64, &uuid, csum, seed);
        proof {
            assert(targets@ =~= Seq::new(n as nat, |k: int| blocks0[k].0));
            assert(esc@ =~= Seq::new(n as nat, |k: int| be32(blocks0[k].1@, 0) == JBD2_MAGIC));
        }
        let commit = build_commit(bsz, seq, csum, seed);
        // Log: descriptor, data blocks, commit block.
        let dphys = match &self.journal {
            Some(j) => j.jbmap(head),
            None => None,
        };
        let dphys = match dphys {
            Some(p) => p,
            None => return Err(FsError::NoSpace),
        };
        let ghost mid0 = self.dev;
        write_block(&mut self.dev, bs, dphys, descr.as_slice())?;
        let ghost logd = seq![(dphys as int, descr@)];
        proof {
            assert(after_writes(&dev0, &mid0, bs as int, Seq::empty()));
            lemma_after_writes_step(&dev0, &mid0, &self.dev, bs as int, Seq::empty(), dphys as int, descr@);
            assert(Seq::<(int, Seq<u8>)>::empty().push((dphys as int, descr@)) =~= logd);
            assert(dphys as int == log_blk(js0, head, 0));
        }
        let mut hpos: u32 = match &self.journal {
            Some(j) => j.wrap(head.wrapping_add(1)),
            None => return Err(FsError::BadFormat),
        };
        proof {
            assert(advance(js0, head, 1) == advance(js0, js0.spec_wrap(wrap32(head + 1)), 0));
        }
        let ghost datw = Seq::new(n as nat, |k: int| (log_blk(js0, head, (k + 1) as nat), blocks1[k].1@));
        let mut i: usize = 0;
        while i < n
            invariant
                self.wf(),
                self.sb == old(self).sb,
                self.journal == Some(js0),
                bs == self.sb.block_size,
                n == txn.blocks@.len(),
                txn.blocks@ == blocks1,
                forall|k: int| 0 <= k < n ==> (#[trigger] blocks1[k]).1@.len() == bs,
                i <= n,
                n > 0,
                n == old(txn).blocks@.len(),
                old(self).journal == Some(js0),
                n + 2 < (if js0.total >= js0.first { js0.total - js0.first } else { 0 }),
                js0.head == head,
                hpos == advance(js0, head, (i + 1) as nat),
                forall|k: nat| k <= i ==> (#[trigger] js0.jbmap_spec(advance(js0, head, k) as int)) is Some,
                datw == Seq::new(n as nat, |k: int| (log_blk(js0, head, (k + 1) as nat), blocks1[k].1@)),
                after_writes(&dev0, &self.dev, bs as int, logd + datw.subrange(0, i as int)),
            decreases n - i,
        {
            let dp = match &self.journal {
                Some(j) => j.jbmap(hpos),
                None => None,
            };
            let dp = match dp {
                Some(p) => p,
                None => return Err(FsError::NoSpace),
            };
            let ghost mid = self.dev;
            write_block(&mut self.dev, bs, dp, txn.blocks[i].1.as_slice())?;
            proof {
                lemma_after_writes_step(&dev0, &mid, &self.dev, bs as int, logd + datw.subrange(0, i as int), dp as int, blocks1[i as int].1@);
                assert(dp as int == log_blk(js0, head, (i + 1) as nat));
                assert((logd + datw.subrange(0, i as int)).push((dp as int, blocks1[i as int].1@)) =~= logd + datw.subrange(0, i + 1));
                assert forall|k: nat| k <= i + 1 implies (#[trigger] js0.jbmap_spec(advance(js0, head, k) as int)) is Some by {
                    if k == i + 1 {
                    }
                }
            }
            hpos = match &self.journal {
                Some(j) => j.wrap(hpos.wrapping_add(1)),
                None => return Err(FsError::BadFormat),
            };
            proof {
                lemma_advance_step(js0, head, (i + 1) as nat);
            }
            i = i + 1;
        }
        let cphys = match &self.journal {
            Some(j) => j.jbmap(hpos),
            None => None,
        };
        let cphys = match cphys {
            Some(p) => p,
            None => return Err(FsError::NoSpace),
        };
        let ghost midc = self.dev;
        write_block(&mut self.dev, bs, cphys, commit.as_slice())?;
        let ghost logw = logd + datw + seq![(cphys as int, commit@)];
        proof {
            assert(datw.subrange(0, n as int) =~= datw);
            lemma_after_writes_step(&dev0, &midc, &self.dev, bs as int, logd + datw, cphys as int, commit@);
            assert((logd + datw).push((cphys as int, commit@)) =~= logw);
            assert(cphys as int == log_blk(js0, head, (n + 1) as nat));
        }
        hpos = match &self.journal {
            Some(j) => j.wrap(hpos.wrapping_add(1)),
            None => return Err(FsError::BadFormat),
        };
        match &mut self.journal {
            Some(j) => {
                j.head = hpos;
                j.sequence = seq.wrapping_add(1);
            },
            None => {},
        }
        let ghost midj = self.dev;
        let ghost p0 = js0.jbmap_spec(0).unwrap();
        self.write_journal_sb()?;
        let ghost seq1 = wrap32(seq + 1);
        let ghost w1 = logw.push((p0 as int, jsb_clean(blk_after(&dev0, bs as int, logw, p0 as int), seq1)));
        proof {
            assert(self.journal.unwrap().jbmap_spec(0) == js0.jbmap_spec(0));
            lemma_blk_after_read(&dev0, &midj, bs as int, logw, p0 as int);
            lemma_after_writes_step(&dev0, &midj, &self.dev, bs as int, logw, p0 as int, jsb_clean(blk_after(&dev0, bs as int, logw, p0 as int), seq1));
        }
        // Write the blocks home.
        let ghost homew = Seq::new(n as nat, |k: int| (blocks1[k].0 as int, blocks1[k].1@));
        let mut i: usize = 0;
        while i < n
            invariant
                self.wf(),
                self.sb == old(self).sb,
                bs == self.sb.block_size,
                n == txn.blocks@.len(),
                txn.blocks@ == blocks1,
                forall|k: int| 0 <= k < n ==> (#[trigger] blocks1[k]).1@.len() == bs,
                n > 0,
                n == old(txn).blocks@.len(),
                old(self).journal == Some(js0),
                n + 2 < (if js0.total >= js0.first { js0.total - js0.first } else { 0 }),
                self.journal == Some(JournalState { head: hpos, sequence: seq1, ..js0 }),
                i <= n,
                homew == Seq::new(n as nat, |k: int| (blocks1[k].0 as int, blocks1[k].1@)),
                after_writes(&dev0, &self.dev, bs as int, w1 + homew.subrange(0, i as int)),
            decreases n - i,
        {
            let ghost mid = self.dev;
            let t = txn.blocks[i].0;
            write_block(&mut self.dev, bs, t, txn.blocks[i].1.as_slice())?;
            proof {
                lemma_after_writes_step(&dev0, &mid, &self.dev, bs as int, w1 + homew.subrange(0, i as int), t as int, blocks1[i as int].1@);
                assert((w1 + homew.subrange(0, i as int)).push((t as int, blocks1[i as int].1@)) =~= w1 + homew.subrange(0, i + 1));
            }
            i = i + 1;
        }
        // Checkpoint: the log is empty again.
        match &mut self.journal {
            Some(j) => {
                j.head = j.first;
            },
            None => {},
        }
        let ghost midh = self.dev;
        let ghost w2 = w1 + homew;
        proof {
            assert(homew.subrange(0, n as int) =~= homew);
        }
        self.write_journal_sb()?;
        proof {
            lemma_blk_after_read(&dev0, &midh, bs as int, w2, p0 as int);
            lemma_after_writes_step(&dev0, &midh, &self.dev, bs as int, w2, p0 as int, jsb_clean(blk_after(&dev0, bs as int, w2, p0 as int), seq1));
            let cw = commit_writes(&dev0, bs as int, js0, blocks1, descr@, commit@, seq);
            assert(logw =~= seq![(log_blk(js0, js0.head, 0), descr@)] + Seq::new(
                n as nat,
                |k: int| (log_blk(js0, js0.head, (k + 1) as nat), blocks1[k].1@),
            ) + seq![(log_blk(js0, js0.head, (n + 1) as nat), commit@)]);
            assert(cw =~= w2.push((p0 as int, jsb_clean(blk_after(&dev0, bs as int, w2, p0 as int), seq1))));
        }
        Ok(())
    }

    /// Move `pos` past `k` log blocks.
    fn skip_blocks(js: &JournalState, pos: u32, k: usize) -> (r: u32)
        ensures
            r == advance(*js, pos, k as nat),
    {
        let mut p = pos;
        let mut i: usize = 0;
        while i < k
            invariant
                i <= k,
                advance(*js, pos, k as nat) == advance(*js, p, (k - i) as nat),
            decreases k - i,
        {
            p = js.wrap(p.wrapping_add(1));
            i = i + 1;
        }
        p
    }

    /// Mark the journal empty on disk: store the next transaction id and a
    /// zero log start in the JBD2 superblock.
    fn write_journal_sb(&mut self) -> (r: Result<()>)
        requires
            old(self).wf(),
        ensures
            final(self).wf(),
            final(self).sb == old(self).sb,
            final(self).journal == old(self).journal,
            r is Ok ==> match old(self).journal {
                None => final(self).dev == old(self).dev,
                Some(js) => js.jbmap_spec(0) matches Some(p0) && wrote_block(
                    &old(self).dev,
                    &final(self).dev,
                    old(self).sb.block_size as int,
                    p0 as int,
                    jsb_clean(blk_or_zero(&old(self).dev, old(self).sb.block_size as int, p0 as int), js.sequence),
                ),
            },
    {
        let (phys0, seq) = match &self.journal {
            None => return Ok(()),
            Some(js) => {
                let p = match js.jbmap(0) {
                    Some(p) => p,
                    None => return Err(FsError::BadFormat),
                };
                (p, js.sequence)
            },
        };
        let bs = self.sb.block_size;
        let mut buf = read_block(&self.dev, bs, phys0)?;
        wr_be32(buf.as_mut_slice(), 24, seq);
        wr_be32(buf.as_mut_slice(), 28, 0);
        write_block(&mut self.dev, bs, phys0, buf.as_slice())
    }

    /// Set the valid-state bit of the on-disk superblock and of the copy.
    fn mark_fs_clean(&mut self) -> (r: Result<()>)
        requires
            old(self).wf(),
        ensures
            final(self).wf(),
            final(self).journal == old(self).journal,
            r is Ok ==> final(self).sb == (Superblock { state: old(self).sb.state | EXT2_VALID_FS, ..old(self).sb }),
            r is Err ==> final(self).sb == old(self).sb,
            r is Ok ==> wrote_block(&old(self).dev, &final(self).dev, 1024, 1, sb_marked_clean(blk(&old(self).dev, 1024, 1))),
    {
        let mut buf = read_block(&self.dev, 1024, 1)?;
        let st = rd_le16(buf.as_slice(), 58) | EXT2_VALID_FS;
        wr_le16(buf.as_mut_slice(), 58, st);
        write_block(&mut self.dev, 1024, 1, buf.as_slice())?;
        self.sb.state = self.sb.state | EXT2_VALID_FS;
        Ok(())
    }

    /// Replay the journal: scan for the last committed transaction, collect
    /// the revoke records, write each logged block of the committed
    /// transactions home unless revoked by that or a later transaction, then
    /// mark the journal empty and the volume clean. Each pass reads at most
    /// as many log blocks as the log holds.
    fn journal_recover(&mut self) -> (r: Result<()>)
        requires
            old(self).wf(),
            old(self).journal is Some,
        ensures
            final(self).wf(),
            r is Ok ==> {
                let js = old(self).journal.unwrap();
                &&& final(self).journal == Some(JournalState {
                    sequence: recovered_seq(&old(self).dev, old(self).sb.block_size as int, js),
                    head: js.first,
                    ..js
                })
                &&& final(self).sb == (Superblock { state: old(self).sb.state | EXT2_VALID_FS, ..old(self).sb })
            },
    {
        let bs = self.sb.block_size;
        let bsz = bs as usize;
        let ghost js0 = self.journal.unwrap();
        let ghost dev0 = self.dev;
        let (start_seq, head, total, tb, v3, h64, csum) = match &self.journal {
            Some(js) => (js.sequence, js.head, js.total, js.tag_bytes(), js.feat_incompat & JBD2_INCOMPAT_CSUM_V3 != 0, js.feat_incompat & JBD2_INCOMPAT_64BIT != 0, js.has_csum()),
            None => return Err(FsError::BadFormat),
        };
        proof {
            if v3 {
                assert(tb == 16);
            }
            if h64 {
                assert(tb >= 12);
            }
        }
        // Pass 1: find the end of the committed log.
        let mut end_seq = start_seq;
        {
            let js = match &self.journal {
                Some(j) => j,
                None => return Err(FsError::BadFormat),
            };
            let mut pos = head;
            let mut seq = start_seq;
            let mut fuel: u32 = total;
            loop
                invariant_except_break
                    recovered_seq(&dev0, bs as int, js0) == scan_end(&dev0, bs as int, js0, pos, seq, end_seq, fuel as nat),
                invariant
                    self.wf(),
                    self.dev == dev0,
                    self.journal == Some(js0),
                    *js == js0,
                    bs == self.sb.block_size,
                    bsz == bs,
                    tb == spec_tag_bytes(js0.feat_incompat),
                    v3 == csum_v3(js0.feat_incompat),
                    csum == spec_has_csum(js0.feat_incompat),
                ensures
                    recovered_seq(&dev0, bs as int, js0) == end_seq,
                decreases fuel,
            {
                if fuel == 0 {
                    break;
                }
                let phys = match js.jbmap(pos) {
                    Some(p) => p,
                    None => break,
                };
                let buf = read_block(&self.dev, bs, phys)?;
                let b = buf.as_slice();
                if rd_be32(b, 0) != JBD2_MAGIC || rd_be32(b, 8) != seq {
                    break;
                }
                let btype = rd_be32(b, 4);
                pos = js.wrap(pos.wrapping_add(1));
                if btype == JBD2_DESCRIPTOR {
                    let tags = parse_descriptor(b, bsz, tb, v3, false, csum);
                    pos = Self::skip_blocks(js, pos, tags.len());
                } else if btype == JBD2_COMMIT {
                    seq = seq.wrapping_add(1);
                    end_seq = seq;
                } else if btype == JBD2_REVOKE {
                } else {
                    break;
                }
                fuel = fuel - 1;
            }
        }
        // Pass 2: collect revoke records of the committed transactions.
        let mut table: Vec<(u64, u32)> = Vec::new();
        {
            let js = match &self.journal {
                Some(j) => j,
                None => return Err(FsError::BadFormat),
            };
            let mut pos = head;
            let mut seq = start_seq;
            let mut fuel: u32 = total;
            while seq < end_seq && fuel > 0
                invariant
                    self.wf(),
                    bs == self.sb.block_size,
                    bsz == bs,
                    8 <= tb <= 16,
                    v3 || h64 ==> tb >= 12,
                    table@.len() <= MAX_REVOKE,
                decreases fuel,
            {
                let phys = match js.jbmap(pos) {
                    Some(p) => p,
                    None => break,
                };
                let buf = read_block(&self.dev, bs, phys)?;
                let b = buf.as_slice();
                if rd_be32(b, 0) != JBD2_MAGIC || rd_be32(b, 8) != seq {
                    break;
                }
                let btype = rd_be32(b, 4);
                pos = js.wrap(pos.wrapping_add(1));
                if btype == JBD2_DESCRIPTOR {
                    let tags = parse_descriptor(b, bsz, tb, v3, false, csum);
                    pos = Self::skip_blocks(js, pos, tags.len());
                } else if btype == JBD2_COMMIT {
                    seq = seq + 1;
                } else if btype == JBD2_REVOKE {
                    let recs = parse_revoke(b, bsz, h64, csum, MAX_REVOKE - table.len());
                    let mut k: usize = 0;
                    while k < recs.len()
                        invariant
                            k <= recs@.len(),
                            table@.len() + recs@.len() - k <= MAX_REVOKE,
                        decreases recs@.len() - k,
                    {
                        table.push((recs[k], seq));
                        k = k + 1;
                    }
                } else {
                    break;
                }
                fuel = fuel - 1;
            }
        }
        // Pass 3: write the logged blocks home.
        {
            let mut pos = head;
            let mut seq = start_seq;
            let mut fuel: u32 = total;
            while seq < end_seq && fuel > 0
                invariant
                    self.wf(),
                    self.journal == Some(js0),
                    self.sb == old(self).sb,
                    bs == self.sb.block_size,
                    bsz == bs,
                    8 <= tb <= 16,
                    v3 || h64 ==> tb >= 12,
                decreases fuel,
            {
                let (phys, js_wrap_pos) = match &self.journal {
                    Some(js) => (js.jbmap(pos), js.wrap(pos.wrapping_add(1))),
                    None => return Err(FsError::BadFormat),
                };
                let phys = match phys {
                    Some(p) => p,
                    None => break,
                };
                let dbuf = read_block(&self.dev, bs, phys)?;
                let d = dbuf.as_slice();
                if rd_be32(d, 0) != JBD2_MAGIC || rd_be32(d, 8) != seq {
                    break;
                }
                let btype = rd_be32(d, 4);
                pos = js_wrap_pos;
                if btype == JBD2_DESCRIPTOR {
                    let tags = parse_descriptor(d, bsz, tb, v3, h64, csum);
                    let mut k: usize = 0;
                    while k < tags.len()
                        invariant
                            self.wf(),
                            self.journal == Some(js0),
                            self.sb == old(self).sb,
                            bs == self.sb.block_size,
                            bsz == bs,
                            k <= tags@.len(),
                        decreases tags@.len() - k,
                    {
                        let t = tags[k];
                        let (dp, next) = match &self.journal {
                            Some(js) => (js.jbmap(pos), js.wrap(pos.wrapping_add(1))),
                            None => return Err(FsError::BadFormat),
                        };
                        pos = next;
                        if let Some(dp) = dp {
                            let mut wbuf = read_block(&self.dev, bs, dp)?;
                            if t.flags & JBD2_FLAG_ESCAPE != 0 {
                                wr_be32(wbuf.as_mut_slice(), 0, JBD2_MAGIC);
                            }
                            if !is_revoked(&table, t.target, seq) {
                                write_block(&mut self.dev, bs, t.target as u32, wbuf.as_slice())?;
                            }
                        }
                        k = k + 1;
                    }
                } else if btype == JBD2_COMMIT {
                    seq = seq + 1;
                } else if btype == JBD2_REVOKE {
                } else {
                    break;
                }
                fuel = fuel - 1;
            }
        }
        // Mark the journal clean.
        match &mut self.journal {
            Some(js) => {
                js.sequence = end_seq;
                js.head = js.first;
            },
            None => {},
        }
        self.write_journal_sb()?;
        self.mark_fs_clean()
    }

    /// Append every extent of the leaf `node` to the block map.
    fn push_leaf(node: &[u8], js: &mut JournalState)
        requires
            node_fits(node@),
            old(js).wf(),
        ensures
            final(js).wf(),
            final(js).runs@ == push_runs(old(js).runs@, leaf_extents(node@)),
            same_geometry(*old(js), *final(js)),
    {
        let n = rd_le16(node, 2) as usize;
        let mut i: usize = 0;
        while i < n
            invariant
                n == node_count(node@),
                node_fits(node@),
                i <= n,
                js.wf(),
                js.runs@ == push_runs(old(js).runs@, leaf_extents(node@).subrange(0, i as int)),
                same_geometry(*old(js), *js),
            decreases n - i,
        {
            let (phy, len) = leaf_entry(node, i);
            proof {
                let e = leaf_extents(node@);
                assert(e.subrange(0, i + 1).drop_last() =~= e.subrange(0, i as int));
                assert(e.subrange(0, i + 1).last() == (phy, len));
            }
            js.push(phy, len);
            i = i + 1;
        }
        assert(leaf_extents(node@).subrange(0, n as int) =~= leaf_extents(node@));
    }

    /// Append a single-block extent for each pointer of `ptrs` before the
    /// first zero.
    fn push_ptrs(ptrs: &[u32], js: &mut JournalState)
        requires
            old(js).wf(),
        ensures
            final(js).wf(),
            final(js).runs@ == push_runs(old(js).runs@, ones(ptrs@, nz_len(ptrs@, 0))),
            same_geometry(*old(js), *final(js)),
    {
        let n = ptrs.len();
        let mut i: usize = 0;
        while i < n
            invariant
                n == ptrs@.len(),
                i <= n,
                js.wf(),
                nz_len(ptrs@, 0) == nz_len(ptrs@, i as int),
                js.runs@ == push_runs(old(js).runs@, ones(ptrs@, i as int)),
                same_geometry(*old(js), *js),
            ensures
                i == nz_len(ptrs@, 0),
            decreases n - i,
        {
            let b = ptrs[i];
            if b == 0 {
                break;
            }
            proof {
                assert(ones(ptrs@, i + 1).drop_last() =~= ones(ptrs@, i as int));
            }
            js.push(b, 1);
            i = i + 1;
        }
    }

    /// Append the physical extents of `inode`'s data to the block map:
    /// through its extent tree (two index levels) or its direct and singly
    /// indirect pointers.
    fn build_block_map(&self, inode: &Inode, js: &mut JournalState) -> (r: Result<()>)
        requires
            self.wf(),
            old(js).wf(),
        ensures
            final(js).wf(),
            same_geometry(*old(js), *final(js)),
            r is Ok ==> final(js).runs@ == push_runs(
                old(js).runs@,
                inode_extents(&self.spec_dev(), self.spec_sb().block_size as int, *inode),
            ),
    {
        let bs = self.sb.block_size;
        let ghost dev = self.dev;
        let ghost bsi = bs as int;
        if inode.flags & EXT4_EXTENTS_FL != 0 {
            let raw = inode.block_raw.as_slice();
            let depth = rd_le16(raw, 6);
            let n = match checked_count(raw) {
                Some(n) => n,
                None => return Err(FsError::BadFormat),
            };
            if depth == 0 {
                Self::push_leaf(raw, js);
                return Ok(());
            }
            let mut i: usize = 0;
            while i < n
                invariant
                    self.wf(),
                    bs == self.sb.block_size,
                    raw@ == inode.block_raw@,
                    n == node_count(raw@),
                    node_fits(raw@),
                    i <= n,
                    js.wf(),
                    same_geometry(*old(js), *js),
                    js.runs@ == push_runs(old(js).runs@, root_ext(&self.dev, bs as int, raw@, i as int)),
                decreases n - i,
            {
                let cblk = rd_le32(raw, 12 + 12 * i + 4);
                let lvl1 = read_block(&self.dev, bs, cblk)?;
                let cd = rd_le16(lvl1.as_slice(), 6);
                let cn = match checked_count(lvl1.as_slice()) {
                    Some(c) => c,
                    None => return Err(FsError::BadFormat),
                };
                let ghost before = js.runs@;
                if cd == 0 {
                    Self::push_leaf(lvl1.as_slice(), js);
                } else {
                    let mut j: usize = 0;
                    while j < cn
                        invariant
                            self.wf(),
                            bs == self.sb.block_size,
                            cn == node_count(lvl1@),
                            node_fits(lvl1@),
                            j <= cn,
                            js.wf(),
                            same_geometry(*old(js), *js),
                            js.runs@ == push_runs(before, grand_ext(&self.dev, bs as int, lvl1@, j as int)),
                        decreases cn - j,
                    {
                        let gc = rd_le32(lvl1.as_slice(), 12 + 12 * j + 4);
                        let lvl2 = read_block(&self.dev, bs, gc)?;
                        match checked_count(lvl2.as_slice()) {
                            Some(_) => {},
                            None => return Err(FsError::BadFormat),
                        }
                        let ghost mid = js.runs@;
                        Self::push_leaf(lvl2.as_slice(), js);
                        proof {
                            lemma_push_runs_concat(before, grand_ext(&self.dev, bs as int, lvl1@, j as int), leaf_extents(lvl2@));
                        }
                        j = j + 1;
                    }
                }
                proof {
                    assert(lvl1@ == blk_or_zero(&self.dev, bs as int, index_child(raw@, i as int)));
                    lemma_push_runs_concat(old(js).runs@, root_ext(&self.dev, bs as int, raw@, i as int), child_ext(&self.dev, bs as int, index_child(raw@, i as int)));
                }
                i = i + 1;
            }
            Ok(())
        } else {
            let direct = vstd::slice::slice_subrange(inode.blocks.as_slice(), 0, 12);
            Self::push_ptrs(direct, js);
            let ghost mid = js.runs@;
            if inode.blocks[12] != 0 {
                let ibuf = read_block(&self.dev, bs, inode.blocks[12])?;
                let ptrs = le32_words(ibuf.as_slice());
                Self::push_ptrs(ptrs.as_slice(), js);
                proof {
                    lemma_push_runs_concat(old(js).runs@, ones(direct@, nz_len(direct@, 0)), ones(ptrs@, nz_len(ptrs@, 0)));
                }
            } else {
                proof {
                    assert(ones(direct@, nz_len(direct@, 0)) + Seq::<(u32, u32)>::empty() =~= ones(direct@, nz_len(direct@, 0)));
                }
            }
            Ok(())
        }
    }
}

/// An open file of an ext2/3/4 volume.
pub struct Ext2File<'a, D: BlockDev> {
    vol: &'a Ext2<D>,
    pub ino: u32,
    inode: Inode,
    pos: u64,
}

impl<'a, D: BlockDev> Ext2File<'a, D> {
    pub closed spec fn spec_vol(&self) -> &'a Ext2<D> {
        self.vol
    }

    pub closed spec fn spec_inode(&self) -> Inode {
        self.inode
    }

    pub closed spec fn spec_ino(&self) -> u32 {
        self.ino
    }

    pub closed spec fn spec_pos(&self) -> u64 {
        self.pos
    }

    pub closed spec fn wf(&self) -> bool {
        self.vol.wf()
    }

    pub fn size(&self) -> (r: u64)
        ensures
            r == self.spec_inode().size,
    {
        self.inode.size
    }

    pub fn pos(&self) -> (r: u64)
        ensures
            r == self.spec_pos(),
    {
        self.pos
    }

    pub fn flags(&self) -> (r: u32)
        ensures
            r == self.spec_inode().flags,
    {
        self.inode.flags
    }

    pub fn block_raw(&self) -> (r: &[u8; 60])
        ensures
            *r == self.spec_inode().block_raw,
    {
        &self.inode.block_raw
    }

    pub fn blocks(&self) -> (r: &[u32; 15])
        ensures
            *r == self.spec_inode().blocks,
    {
        &self.inode.blocks
    }

    /// Move to byte `p`; positions past the end are invalid.
    pub fn seek(&mut self, p: u64) -> (r: Result<()>)
        ensures
            p > old(self).spec_inode().size ==> r == Err::<(), FsError>(FsError::InvalidArg) && final(self).spec_pos() == old(self).spec_pos(),
            p <= old(self).spec_inode().size ==> r is Ok && final(self).spec_pos() == p,
            final(self).spec_inode() == old(self).spec_inode(),
            final(self).spec_vol() == old(self).spec_vol(),
            final(self).spec_ino() == old(self).spec_ino(),
    {
        if p > self.inode.size {
            return Err(FsError::InvalidArg);
        }
        self.pos = p;
        Ok(())
    }

    /// Read from the current position into `buf`, advancing it.
    pub fn read(&mut self, buf: &mut [u8]) -> (r: Result<usize>)
        requires
            old(self).wf(),
        ensures
            final(self).wf(),
            final(self).spec_inode() == old(self).spec_inode(),
            final(self).spec_vol() == old(self).spec_vol(),
            final(buf)@.len() == old(buf)@.len(),
            old(self).spec_pos() >= old(self).spec_inode().size ==> r == Ok::<usize, FsError>(0),
            r matches Ok(n) ==> final(self).spec_pos() == old(self).spec_pos() + n,
            (old(self).spec_pos() < old(self).spec_inode().size && old(self).spec_inode().flags & EXT4_INLINE_DATA_FL == 0)
                ==> (r matches Ok(n) ==> {
                &&& n == (if old(self).spec_inode().size - old(self).spec_pos() < old(buf)@.len() {
                    old(self).spec_inode().size - old(self).spec_pos()
                } else {
                    old(buf)@.len() as int
                })
                &&& forall|i: int| n <= i < old(buf)@.len() ==> #[trigger] final(buf)@[i] == old(buf)@[i]
            }),
            r matches Ok(n) ==> old(self).spec_inode().flags & EXT4_INLINE_DATA_FL == 0 ==> forall|i: int| 0 <= i < n ==> file_byte(
                &old(self).spec_vol().spec_dev(),
                old(self).spec_vol().spec_sb().block_size as int,
                map_inode(old(self).spec_inode().flags, old(self).spec_inode().block_raw, old(self).spec_inode().blocks, old(self).spec_inode().size),
                old(self).spec_pos() + i,
            ) == Some(#[trigger] final(buf)@[i]),
    {
        let mut p = self.pos;
        let r = self.vol.raw_read(self.inode.flags, &self.inode.block_raw, &self.inode.blocks, self.inode.size, &mut p, buf);
        if r.is_ok() {
            self.pos = p;
        }
        r
    }
}

} // verus!

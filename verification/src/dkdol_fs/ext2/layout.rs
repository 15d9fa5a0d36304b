//! On-disk records of ext2/3/4: CRC32c, the superblock, inodes and group
//! descriptors.

use vstd::prelude::*;
use crate::bytes::{le16, le32, rd_le16, rd_le32, splice, le32_bytes, le16_bytes, wr_le32, wr_le16};
use crate::gc_fs::{FsError, Result};

verus! {

pub const EXT2_MAGIC: u16 = 0xEF53;
pub const EXT4_EXTENT_MAGIC: u16 = 0xF30A;
pub const EXT_JOURNAL_INO: u32 = 8;
pub const ROOT_INO: u32 = 2;
pub const EXT4_EXTENTS_FL: u32 = 0x0008_0000;
pub const EXT4_INLINE_DATA_FL: u32 = 0x1000_0000;
pub const EXT4_HUGE_FILE_FL: u32 = 0x0004_0000;
pub const INCOMPAT_64BIT: u32 = 0x0080;
pub const COMPAT_HAS_JOURNAL: u32 = 0x0004;
pub const EXT2_VALID_FS: u16 = 0x0001;
pub const EXT4_INCOMPAT_EXTENTS: u32 = 0x0040;
pub const IFMT: u16 = 0xF000;
pub const IFREG: u16 = 0x8000;
pub const IFDIR: u16 = 0x4000;
pub const IFLNK: u16 = 0xA000;
pub const CRC32C_POLY: u32 = 0x82F6_3B78;

// ─── CRC32c (Castagnoli, reflected) ─────────────────────────────────────────

/// One shift of the reflected CRC register.
pub open spec fn crc_step(c: u32) -> u32 {
    if c & 1 != 0 {
        (c >> 1u32) ^ CRC32C_POLY
    } else {
        c >> 1u32
    }
}

/// `k` shifts of the register.
pub open spec fn crc_bits(c: u32, k: nat) -> u32
    decreases k,
{
    if k == 0 {
        c
    } else {
        crc_bits(crc_step(c), (k - 1) as nat)
    }
}

/// The register after taking in byte `b`.
pub open spec fn crc_byte(c: u32, b: u8) -> u32 {
    crc_bits(c ^ (b as u32), 8)
}

/// The register after taking in all of `s`, first byte first.
pub open spec fn crc_fold(c: u32, s: Seq<u8>) -> u32
    decreases s.len(),
{
    if s.len() == 0 {
        c
    } else {
        crc_byte(crc_fold(c, s.drop_last()), s.last())
    }
}

/// CRC32c of `s` continuing from `seed`.
pub open spec fn spec_crc32c(seed: u32, s: Seq<u8>) -> u32 {
    !crc_fold(!seed, s)
}

/// CRC32c (Castagnoli) of `data`, continuing from `seed`.
pub fn crc32c(seed: u32, data: &[u8]) -> (r: u32)
    ensures
        r == spec_crc32c(seed, data@),
{
    let mut c: u32 = !seed;
    let mut i: usize = 0;
    while i < data.len()
        invariant
            i <= data@.len(),
            c == crc_fold(!seed, data@.subrange(0, i as int)),
        decreases data@.len() - i,
    {
        let b = data[i];
        let mut x: u32 = c ^ (b as u32);
        let mut j: u32 = 0;
        while j < 8
            invariant
                j <= 8,
                crc_bits(x, (8 - j) as nat) == crc_byte(c, b),
            decreases 8 - j,
        {
            x = if x & 1 != 0 {
                (x >> 1u32) ^ CRC32C_POLY
            } else {
                x >> 1u32
            };
            j = j + 1;
        }
        proof {
            let s1 = data@.subrange(0, i + 1);
            assert(s1.drop_last() =~= data@.subrange(0, i as int));
            assert(s1.last() == b);
        }
        c = x;
        i = i + 1;
    }
    assert(data@.subrange(0, data@.len() as int) =~= data@);
    !c
}

// ─── Superblock ─────────────────────────────────────────────────────────────

/// The superblock fields the driver uses.
#[derive(Clone, Copy)]
pub struct Superblock {
    pub inodes_count: u32,
    pub blocks_count: u32,
    pub free_blocks_count: u32,
    pub free_inodes_count: u32,
    pub block_size: u32,
    pub blocks_per_group: u32,
    pub inodes_per_group: u32,
    pub inode_size: u16,
    pub groups_count: u32,
    pub desc_size: u16,
    pub feature_compat: u32,
    pub feature_incompat: u32,
    pub state: u16,
    pub journal_inum: u32,
    pub uuid: [u8; 16],
}

/// A superblock image the driver accepts: long enough, the ext2 magic, and
/// a block size of at most 4 KiB.
pub open spec fn sb_accepts(s: Seq<u8>) -> bool {
    &&& s.len() >= 264
    &&& le16(s, 56) == EXT2_MAGIC
    &&& le32(s, 24) <= 2
}

/// `sb` holds the fields of the superblock image `s`.
pub open spec fn sb_fields(s: Seq<u8>, sb: Superblock) -> bool {
    let log_bs = le32(s, 24);
    let rev = le32(s, 76);
    let bcount = le32(s, 4);
    let bpg = le32(s, 32);
    let j = if rev > 0 {
        le32(s, 236)
    } else {
        EXT_JOURNAL_INO as int
    };
    &&& sb.inodes_count == le32(s, 0)
    &&& sb.blocks_count == bcount
    &&& sb.free_blocks_count == le32(s, 12)
    &&& sb.free_inodes_count == le32(s, 16)
    &&& sb.block_size == (if log_bs == 0 {
        1024int
    } else if log_bs == 1 {
        2048int
    } else {
        4096int
    })
    &&& sb.blocks_per_group == bpg
    &&& sb.inodes_per_group == le32(s, 40)
    &&& sb.inode_size == (if rev == 0 {
        128int
    } else {
        le16(s, 88)
    })
    &&& sb.groups_count == (if bpg > 0 {
        (bcount + bpg - 1) / bpg
    } else {
        0int
    })
    &&& sb.feature_compat == le32(s, 92)
    &&& sb.feature_incompat == le32(s, 96)
    &&& sb.desc_size == (if sb.feature_incompat & INCOMPAT_64BIT != 0 {
        if le16(s, 254) < 32 {
            32int
        } else {
            le16(s, 254)
        }
    } else {
        32int
    })
    &&& sb.state == le16(s, 58)
    &&& sb.journal_inum == (if j == 0 {
        EXT_JOURNAL_INO as int
    } else {
        j
    })
    &&& sb.uuid@ == s.subrange(104, 120)
}

/// Parse a superblock image (the 1024 bytes at byte 1024 of the volume).
/// Images with a block size above 4 KiB are refused as malformed.
pub fn parse_superblock(buf: &[u8]) -> (r: Result<Superblock>)
    ensures
        r is Ok <==> sb_accepts(buf@),
        r is Err ==> r == Err::<Superblock, FsError>(FsError::BadFormat),
        r matches Ok(sb) ==> sb_fields(buf@, sb),
{
    if buf.len() < 264 {
        return Err(FsError::BadFormat);
    }
    if rd_le16(buf, 56) != EXT2_MAGIC {
        return Err(FsError::BadFormat);
    }
    let log_bs = rd_le32(buf, 24);
    if log_bs > 2 {
        return Err(FsError::BadFormat);
    }
    let rev = rd_le32(buf, 76);
    let block_size: u32 = if log_bs == 0 {
        1024
    } else if log_bs == 1 {
        2048
    } else {
        4096
    };
    let bcount = rd_le32(buf, 4);
    let bpg = rd_le32(buf, 32);
    let feat_ic = rd_le32(buf, 96);
    let ds: u16 = if feat_ic & INCOMPAT_64BIT != 0 {
        let d = rd_le16(buf, 254);
        if d < 32 {
            32
        } else {
            d
        }
    } else {
        32
    };
    let uuid: [u8; 16] = [
        buf[104], buf[105], buf[106], buf[107], buf[108], buf[109], buf[110], buf[111],
        buf[112], buf[113], buf[114], buf[115], buf[116], buf[117], buf[118], buf[119],
    ];
    assert(uuid@ =~= buf@.subrange(104, 120));
    let jinum = if rev > 0 {
        rd_le32(buf, 236)
    } else {
        EXT_JOURNAL_INO
    };
    let groups: u32 = if bpg > 0 {
        let g: u64 = (bcount as u64 + bpg as u64 - 1) / bpg as u64;
        assert(g <= bcount) by (nonlinear_arith)
            requires
                g == (bcount + bpg - 1) / (bpg as int),
                bpg >= 1,
        ;
        g as u32
    } else {
        0
    };
    Ok(Superblock {
        inodes_count: rd_le32(buf, 0),
        blocks_count: bcount,
        free_blocks_count: rd_le32(buf, 12),
        free_inodes_count: rd_le32(buf, 16),
        block_size,
        blocks_per_group: bpg,
        inodes_per_group: rd_le32(buf, 40),
        inode_size: if rev == 0 {
            128
        } else {
            rd_le16(buf, 88)
        },
        groups_count: groups,
        desc_size: ds,
        feature_compat: rd_le32(buf, 92),
        feature_incompat: feat_ic,
        state: rd_le16(buf, 58),
        journal_inum: if jinum == 0 {
            EXT_JOURNAL_INO
        } else {
            jinum
        },
        uuid,
    })
}

// ─── Inode ──────────────────────────────────────────────────────────────────

/// The inode fields the driver uses. `blocks` holds the 15 block pointers of
/// `block_raw` as they were read; the two are updated together.
#[derive(Clone, Copy)]
pub struct Inode {
    pub mode: u16,
    pub flags: u32,
    pub size: u64,
    pub mtime: u32,
    pub block_raw: [u8; 60],
    pub blocks: [u32; 15],
    pub i_blocks: u32,
    pub links: u16,
}

/// `ino` holds the fields of the inode image `d` on a volume with blocks of
/// `bs` bytes: the high size word counts on volumes with blocks above 1 KiB
/// and for huge files.
pub open spec fn inode_fields(d: Seq<u8>, bs: u32, ino: Inode) -> bool {
    let flags = le32(d, 32) as u32;
    &&& ino.mode == le16(d, 0)
    &&& ino.flags == flags
    &&& ino.size == (if bs > 1024 || flags & EXT4_HUGE_FILE_FL != 0 {
        le32(d, 108) * 0x1_0000_0000 + le32(d, 4)
    } else {
        le32(d, 4)
    })
    &&& ino.mtime == le32(d, 16)
    &&& ino.block_raw@ == d.subrange(40, 100)
    &&& forall|i: int| 0 <= i < 15 ==> #[trigger] ino.blocks@[i] == le32(d, 40 + 4 * i)
    &&& ino.i_blocks == le32(d, 28)
    &&& ino.links == le16(d, 26)
}

/// Where an inode record keeps the fields the driver reads: the mode at
/// byte 0, the size's low word at 4 (its high word at 108 counting on
/// volumes of blocks over 1 KiB or huge files), the modification time at
/// 16, the link count at 26, the 512-byte sector count at 28, the flags at
/// 32 and the 60-byte block map at 40, whose fifteen words are the block
/// pointers; all little-endian.
pub proof fn inode_layout_law(d: Seq<u8>, bs: u32, ino: Inode)
    requires
        d.len() >= 112,
        inode_fields(d, bs, ino),
    ensures
        ino.mode == d[0] + d[1] * 0x100,
        ino.links == d[26] + d[27] * 0x100,
        ino.mtime == d[16] + d[17] * 0x100 + d[18] * 0x1_0000 + d[19] * 0x100_0000,
        ino.i_blocks == d[28] + d[29] * 0x100 + d[30] * 0x1_0000 + d[31] * 0x100_0000,
        ino.flags == d[32] + d[33] * 0x100 + d[34] * 0x1_0000 + d[35] * 0x100_0000,
        ino.size % 0x1_0000_0000 == d[4] + d[5] * 0x100 + d[6] * 0x1_0000 + d[7] * 0x100_0000,
        bs > 1024 ==> ino.size / 0x1_0000_0000 == d[108] + d[109] * 0x100 + d[110] * 0x1_0000 + d[111] * 0x100_0000,
        forall|k: int| 0 <= k < 60 ==> #[trigger] ino.block_raw@[k] == d[40 + k],
        forall|i: int| 0 <= i < 15 ==> #[trigger] ino.blocks@[i] == d[40 + 4 * i] + d[41 + 4 * i] * 0x100 + d[42 + 4 * i]
            * 0x1_0000 + d[43 + 4 * i] * 0x100_0000,
{
    let lo = le32(d, 4);
    let hi = le32(d, 108);
    assert(0 <= lo < 0x1_0000_0000 && 0 <= hi < 0x1_0000_0000);
    assert((hi * 0x1_0000_0000 + lo) % 0x1_0000_0000 == lo && (hi * 0x1_0000_0000 + lo) / 0x1_0000_0000 == hi) by (nonlinear_arith)
        requires
            0 <= lo < 0x1_0000_0000,
            0 <= hi,
    ;
    let f = le32(d, 32);
    assert(0 <= f < 0x1_0000_0000);
    assert forall|k: int| 0 <= k < 60 implies #[trigger] ino.block_raw@[k] == d[40 + k] by {
        assert(ino.block_raw@[k] == d.subrange(40, 100)[k]);
    }
    assert forall|i: int| 0 <= i < 15 implies #[trigger] ino.blocks@[i] == d[40 + 4 * i] + d[41 + 4 * i] * 0x100 + d[42 + 4
        * i] * 0x1_0000 + d[43 + 4 * i] * 0x100_0000 by {
        assert(ino.blocks@[i] == le32(d, 40 + 4 * i));
    }
}

/// Decode an inode image.
pub fn parse_inode(d: &[u8], block_size: u32) -> (r: Inode)
    requires
        d@.len() >= 112,
    ensures
        inode_fields(d@, block_size, r),
{
    let flags = rd_le32(d, 32);
    let size_lo = rd_le32(d, 4) as u64;
    let size_hi = rd_le32(d, 108) as u64;
    let size = if block_size > 1024 || flags & EXT4_HUGE_FILE_FL != 0 {
        size_hi * 0x1_0000_0000 + size_lo
    } else {
        size_lo
    };
    let mut block_raw = [0u8; 60];
    let mut i: usize = 0;
    while i < 60
        invariant
            i <= 60,
            d@.len() >= 112,
            forall|k: int| 0 <= k < i ==> block_raw@[k] == d@[40 + k],
        decreases 60 - i,
    {
        block_raw[i] = d[40 + i];
        i = i + 1;
    }
    assert(block_raw@ =~= d@.subrange(40, 100));
    let mut blocks = [0u32; 15];
    let mut j: usize = 0;
    while j < 15
        invariant
            j <= 15,
            d@.len() >= 112,
            forall|k: int| 0 <= k < j ==> #[trigger] blocks@[k] == le32(d@, 40 + 4 * k),
        decreases 15 - j,
    {
        blocks[j] = rd_le32(d, 40 + j * 4);
        j = j + 1;
    }
    Inode {
        mode: rd_le16(d, 0),
        flags,
        size,
        mtime: rd_le32(d, 16),
        block_raw,
        blocks,
        i_blocks: rd_le32(d, 28),
        links: rd_le16(d, 26),
    }
}

/// The image `s` after storing the writable fields of `ino` in the inode
/// record at byte `off` (the mode and the high size word on 1 KiB volumes
/// are left as they were).
pub open spec fn inode_stored(s: Seq<u8>, ino: Inode, bs: u32, off: int) -> Seq<u8> {
    let s1 = splice(s, off + 4, le32_bytes(ino.size as u32));
    let s2 = splice(s1, off + 16, le32_bytes(ino.mtime));
    let s3 = splice(s2, off + 26, le16_bytes(ino.links));
    let s4 = splice(s3, off + 28, le32_bytes(ino.i_blocks));
    let s5 = splice(s4, off + 32, le32_bytes(ino.flags));
    let s6 = splice(s5, off + 40, ino.block_raw@);
    if bs > 1024 {
        splice(s6, off + 108, le32_bytes((ino.size / 0x1_0000_0000) as u32))
    } else {
        s6
    }
}

/// Store the writable fields of `inode` in the inode record at byte `off`
/// of `buf`.
pub fn write_inode_to_buf(buf: &mut [u8], inode: &Inode, bs: u32, off: usize)
    requires
        off + 128 <= old(buf)@.len(),
    ensures
        final(buf)@ == inode_stored(old(buf)@, *inode, bs, off as int),
{
    let n = buf.len();
    wr_le32(buf, off + 4, inode.size as u32);
    wr_le32(buf, off + 16, inode.mtime);
    wr_le16(buf, off + 26, inode.links);
    wr_le32(buf, off + 28, inode.i_blocks);
    wr_le32(buf, off + 32, inode.flags);
    let ghost s5 = buf@;
    let mut i: usize = 0;
    while i < 60
        invariant
            i <= 60,
            n == buf@.len(),
            off + 128 <= buf@.len(),
            buf@.len() == s5.len(),
            forall|k: int| 0 <= k < buf@.len() ==> #[trigger] buf@[k] == if off + 40 <= k < off + 40 + i {
                inode.block_raw@[k - off - 40]
            } else {
                s5[k]
            },
        decreases 60 - i,
    {
        buf[off + 40 + i] = inode.block_raw[i];
        i = i + 1;
    }
    assert(buf@ =~= splice(s5, off + 40, inode.block_raw@));
    if bs > 1024 {
        wr_le32(buf, off + 108, (inode.size / 0x1_0000_0000) as u32);
    }
}

// ─── Group descriptor ───────────────────────────────────────────────────────

/// The fields of a block-group descriptor.
#[derive(Clone, Copy)]
pub struct GroupDesc {
    pub inode_table: u64,
    pub block_bitmap: u32,
    pub inode_bitmap: u32,
    pub free_blocks: u16,
    pub free_inodes: u16,
}

/// The descriptor at byte `o` of `s`; the high inode-table word counts for
/// 64-byte descriptors on 64-bit volumes.
pub open spec fn gd_of(s: Seq<u8>, o: int, ds: u16, incompat: u32) -> GroupDesc {
    GroupDesc {
        inode_table: (if ds >= 64 && incompat & INCOMPAT_64BIT != 0 {
            le32(s, o + 40) * 0x1_0000_0000 + le32(s, o + 8)
        } else {
            le32(s, o + 8)
        }) as u64,
        block_bitmap: le32(s, o) as u32,
        inode_bitmap: le32(s, o + 4) as u32,
        free_blocks: le16(s, o + 12) as u16,
        free_inodes: le16(s, o + 14) as u16,
    }
}

/// Where a group descriptor keeps its fields: the block bitmap at byte 0,
/// the inode bitmap at 4, the inode table at 8 (its high word at 40 on
/// 64-bit volumes with descriptors of 64 bytes or more), the free block
/// and inode counts as half-words at 12 and 14; all little-endian.
pub proof fn group_desc_layout_law(s: Seq<u8>, o: int, ds: u16, incompat: u32)
    ensures
        ({
            let g = gd_of(s, o, ds, incompat);
            let lo = s[o + 8] + s[o + 9] * 0x100 + s[o + 10] * 0x1_0000 + s[o + 11] * 0x100_0000;
            &&& g.block_bitmap == s[o] + s[o + 1] * 0x100 + s[o + 2] * 0x1_0000 + s[o + 3] * 0x100_0000
            &&& g.inode_bitmap == s[o + 4] + s[o + 5] * 0x100 + s[o + 6] * 0x1_0000 + s[o + 7] * 0x100_0000
            &&& g.free_blocks == s[o + 12] + s[o + 13] * 0x100
            &&& g.free_inodes == s[o + 14] + s[o + 15] * 0x100
            &&& g.inode_table % 0x1_0000_0000 == lo
            &&& (ds < 64 || incompat & INCOMPAT_64BIT == 0) ==> g.inode_table == lo
            &&& (ds >= 64 && incompat & INCOMPAT_64BIT != 0) ==> g.inode_table / 0x1_0000_0000 == s[o + 40] + s[o + 41]
                * 0x100 + s[o + 42] * 0x1_0000 + s[o + 43] * 0x100_0000
        }),
{
    let lo = le32(s, o + 8);
    let hi = le32(s, o + 40);
    assert(0 <= lo < 0x1_0000_0000 && 0 <= hi < 0x1_0000_0000);
    assert(0 <= le32(s, o) < 0x1_0000_0000 && 0 <= le32(s, o + 4) < 0x1_0000_0000);
    assert((hi * 0x1_0000_0000 + lo) % 0x1_0000_0000 == lo && (hi * 0x1_0000_0000 + lo) / 0x1_0000_0000 == hi
        && hi * 0x1_0000_0000 + lo < 0x1_0000_0000_0000_0000) by (nonlinear_arith)
        requires
            0 <= lo < 0x1_0000_0000,
            0 <= hi < 0x1_0000_0000,
    ;
}

/// How the superblock's geometry follows from its bytes: the magic 0xEF53
/// at byte 56, a block of 1024 << (the word at 24) bytes, and as many block
/// groups as it takes to cover the block count (word at 4) with groups of
/// the word at 32 blocks: the last group is the one that reaches it.
pub proof fn superblock_geometry_law(s: Seq<u8>, sb: Superblock)
    requires
        s.len() >= 264,
        sb_accepts(s),
        sb_fields(s, sb),
    ensures
        s[56] == 0x53 && s[57] == 0xEF,
        sb.block_size == 1024 * (if s[24] == 0 { 1int } else if s[24] == 1 { 2 } else { 4 }),
        sb.blocks_per_group > 0 ==> sb.groups_count * sb.blocks_per_group >= sb.blocks_count,
        sb.blocks_per_group > 0 && sb.groups_count > 0 ==> (sb.groups_count - 1) * sb.blocks_per_group < sb.blocks_count,
{
    assert(le16(s, 56) == 0xEF53);
    assert(s[57] == 0xEF && s[56] == 0x53);
    let bpg = sb.blocks_per_group as int;
    let bc = sb.blocks_count as int;
    if bpg > 0 {
        let g = (bc + bpg - 1) / bpg;
        vstd::arithmetic::div_mod::lemma_fundamental_div_mod(bc + bpg - 1, bpg);
        assert(g * bpg >= bc && (g - 1) * bpg < bc) by (nonlinear_arith)
            requires
                bc + bpg - 1 == bpg * g + (bc + bpg - 1) % bpg,
                0 <= (bc + bpg - 1) % bpg < bpg,
                bpg > 0,
                bc >= 0,
        ;
    }
}

/// Decode the group descriptor at byte `o`.
pub fn decode_group_desc(s: &[u8], o: usize, ds: u16, incompat: u32) -> (r: GroupDesc)
    requires
        o + 16 <= s@.len(),
        ds >= 64 ==> o + 44 <= s@.len(),
    ensures
        r == gd_of(s@, o as int, ds, incompat),
{
    let n = s.len();
    let itlo = rd_le32(s, o + 8);
    let itab: u64 = if ds >= 64 && incompat & INCOMPAT_64BIT != 0 {
        (rd_le32(s, o + 40) as u64) * 0x1_0000_0000 + itlo as u64
    } else {
        itlo as u64
    };
    GroupDesc {
        inode_table: itab,
        block_bitmap: rd_le32(s, o),
        inode_bitmap: rd_le32(s, o + 4),
        free_blocks: rd_le16(s, o + 12),
        free_inodes: rd_le16(s, o + 14),
    }
}

} // verus!

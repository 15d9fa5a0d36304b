//! FAT32 / ExFAT filesystem driver.
//!
//! FAT12 and FAT16 are not supported: SD cards are FAT32 or ExFAT.
//! ExFAT name hashes use an ASCII-only up-case function.

use vstd::prelude::*;
use vstd::string::StringSliceAdditionalSpecFns;
use crate::bytes::{le16, le32, le64, rd_le16, rd_le32, rd_le64, wr_le32, splice, le32_bytes, lemma_le32_round};
use crate::text::{
    count_kept_before_trailing, count_leading, eq_ci, last_index, lemma_last_index, lemma_trim_end, rfind, split_str, str_bytes,
    trim_end, trim_start, upper, upper_byte,
};
use crate::gc_fs::{
    lemma_path_split_shorter, name_after_set, name_eq_ci, path_split, spec_path_split, BlockDev, FsError, Metadata, Result,
};
use vstd::arithmetic::div_mod::{lemma_fundamental_div_mod, lemma_fundamental_div_mod_converse, lemma_mod_mod};
use vstd::arithmetic::power2::{pow2, lemma2_to64, lemma_pow2_pos, lemma_pow2_strictly_increases, lemma_pow2_unfold};

verus! {

/// FAT entry value at or above which a cluster chain ends.
pub const FAT_EOC_MIN: u32 = 0x0FFF_FFF8;
/// End-of-chain marker returned by `fat_next`.
pub const FAT_EOC: u32 = 0x0FFF_FFFF;

#[derive(Clone, Copy, PartialEq, Eq, Debug, Structural)]
pub enum FatKind {
    Fat32,
    ExFat,
}

#[derive(Clone, Copy)]
pub struct FatGeom {
    pub kind: FatKind,
    pub bytes_per_sec: u32,
    pub secs_per_clus: u32,
    pub fat_lba: u64,
    pub data_lba: u64,
    pub root_cluster: u32,
    pub fat_size_secs: u32,
    pub fat_count: u8,
    pub total_clusters: u32,
    /// ExFAT: first cluster of the allocation bitmap; 0 for FAT32.
    pub bitmap_cluster: u32,
}

pub open spec fn is_exfat_sig(s: Seq<u8>) -> bool {
    s.subrange(3, 11) == seq![0x45u8, 0x58, 0x46, 0x41, 0x54, 0x20, 0x20, 0x20]
}

/// The geometry an ExFAT boot sector describes; `None` when a shift count
/// is too large for a 32-bit value.
pub open spec fn spec_parse_exfat(s: Seq<u8>) -> Option<FatGeom> {
    let fat_off = le32(s, 80);
    let fat_len = le32(s, 84);
    let data_off = le32(s, 88);
    let vol_len = le64(s, 72);
    let root_clus = le32(s, 96);
    let sec_shift = s[108];
    let spc_shift = s[109];
    if sec_shift >= 32 || spc_shift >= 32 {
        None
    } else {
        let vl32 = vol_len % 0x1_0000_0000;
        let clusters = if data_off < vl32 { (vl32 - data_off) / (pow2(spc_shift as nat) as int) } else { 0 };
        Some(FatGeom {
            kind: FatKind::ExFat,
            bytes_per_sec: pow2(sec_shift as nat) as u32,
            secs_per_clus: pow2(spc_shift as nat) as u32,
            fat_lba: fat_off as u64,
            data_lba: data_off as u64,
            root_cluster: root_clus as u32,
            fat_size_secs: fat_len as u32,
            fat_count: s[110],
            total_clusters: clusters as u32,
            bitmap_cluster: 0,
        })
    }
}

/// Where an exFAT boot sector keeps the geometry: the FAT's first sector
/// and length at bytes 80 and 84, the cluster heap at 88, the root cluster
/// at 96 (little-endian words), and at 108, 109 and 110 the sector and
/// cluster size as powers of two and the FAT count.
pub proof fn exfat_geometry_law(s: Seq<u8>)
    ensures
        spec_parse_exfat(s) matches Some(g) ==> {
            &&& g.kind == FatKind::ExFat
            &&& g.fat_lba == s[80] + s[81] * 0x100 + s[82] * 0x1_0000 + s[83] * 0x100_0000
            &&& g.fat_size_secs == s[84] + s[85] * 0x100 + s[86] * 0x1_0000 + s[87] * 0x100_0000
            &&& g.data_lba == s[88] + s[89] * 0x100 + s[90] * 0x1_0000 + s[91] * 0x100_0000
            &&& g.root_cluster == s[96] + s[97] * 0x100 + s[98] * 0x1_0000 + s[99] * 0x100_0000
            &&& g.bytes_per_sec == pow2(s[108] as nat) && s[108] < 32
            &&& g.secs_per_clus == pow2(s[109] as nat) && s[109] < 32
            &&& g.fat_count == s[110]
        },
{
    assert(0 <= le32(s, 80) < 0x1_0000_0000 && 0 <= le32(s, 84) < 0x1_0000_0000);
    assert(0 <= le32(s, 88) < 0x1_0000_0000 && 0 <= le32(s, 96) < 0x1_0000_0000);
    if s[108] < 32 && s[109] < 32 {
        lemma2_to64();
        lemma_pow2_strictly_increases(s[108] as nat, 32);
        lemma_pow2_strictly_increases(s[109] as nat, 32);
    }
}

/// The geometry a FAT32 boot sector describes, or why it is refused.
pub open spec fn spec_parse_fat32(s: Seq<u8>) -> Result<FatGeom> {
    let bps = le16(s, 11);
    let spc = s[13] as int;
    let rsvd = le16(s, 14);
    let nfat = s[16];
    let rde = le16(s, 17);
    let ts16 = le16(s, 19);
    let fs16 = le16(s, 22);
    let ts32 = le32(s, 32);
    let fs32 = le32(s, 36);
    let rc = le32(s, 44);
    if bps == 0 || spc == 0 {
        Err(FsError::BadFormat)
    } else {
        let fat_sz = if fs16 > 0 { fs16 } else { fs32 };
        let tot = if ts16 > 0 { ts16 } else { ts32 };
        let rde_sec = (rde * 32 + bps - 1) / bps;
        let data_lb = rsvd + nfat * fat_sz + rde_sec;
        let d32 = data_lb % 0x1_0000_0000;
        let clusters = (if tot >= d32 { tot - d32 } else { 0 }) / spc;
        if clusters < 65525 {
            Err(FsError::BadFormat)
        } else {
            Ok(FatGeom {
                kind: FatKind::Fat32,
                bytes_per_sec: bps as u32,
                secs_per_clus: spc as u32,
                fat_lba: rsvd as u64,
                data_lba: data_lb as u64,
                root_cluster: rc as u32,
                fat_size_secs: fat_sz as u32,
                fat_count: nfat,
                total_clusters: clusters as u32,
                bitmap_cluster: 0,
            })
        }
    }
}

/// Where a FAT32 boot sector keeps the geometry: bytes per sector at 11,
/// sectors per cluster at 13, reserved sectors (where the first FAT
/// starts) at 14, the FAT count at 16, root entries at 17, the FAT size as
/// the 16-bit word at 22 or, when that is zero, the 32-bit word at 36, and
/// the root cluster at 44; the data area follows the reserved sectors, the
/// FATs and the root entries, and a volume is FAT32 only with at least
/// 65525 clusters.
pub proof fn fat32_geometry_law(s: Seq<u8>)
    requires
        s.len() == 512,
        !is_exfat_sig(s),
    ensures
        spec_parse_geom(s) matches Ok(g) ==> {
            let bps = s[11] + s[12] * 0x100;
            let rsvd = s[14] + s[15] * 0x100;
            let rde = s[17] + s[18] * 0x100;
            let fs16 = s[22] + s[23] * 0x100;
            let fat_sz = if fs16 > 0 { fs16 } else { s[36] + s[37] * 0x100 + s[38] * 0x1_0000 + s[39] * 0x100_0000 };
            &&& g.kind == FatKind::Fat32
            &&& g.bytes_per_sec == bps && bps > 0
            &&& g.secs_per_clus == s[13] && s[13] > 0
            &&& g.fat_lba == rsvd
            &&& g.fat_count == s[16]
            &&& g.fat_size_secs == fat_sz
            &&& g.data_lba == rsvd + s[16] * fat_sz + (rde * 32 + bps - 1) / bps
            &&& g.root_cluster == s[44] + s[45] * 0x100 + s[46] * 0x1_0000 + s[47] * 0x100_0000
            &&& g.total_clusters >= 65525
            &&& g.bitmap_cluster == 0
        },
{
    let w = le32(s, 36);
    assert(0 <= w < 0x1_0000_0000);
    let w2 = le32(s, 44);
    assert(0 <= w2 < 0x1_0000_0000);
    let bps = le16(s, 11);
    let rde = le16(s, 17);
    if bps > 0 {
        assert(0 <= (rde * 32 + bps - 1) / bps <= rde * 32 + bps) by (nonlinear_arith)
            requires
                bps > 0,
                rde >= 0,
        ;
    }
    let fs = if le16(s, 22) > 0 { le16(s, 22) } else { le32(s, 36) };
    assert(0 <= s[16] * fs <= 255 * 0xFFFF_FFFF) by (nonlinear_arith)
        requires
            0 <= s[16] <= 255,
            0 <= fs <= 0xFFFF_FFFF,
    ;
}

/// The geometry a boot sector describes.
pub open spec fn spec_parse_geom(s: Seq<u8>) -> Result<FatGeom> {
    if is_exfat_sig(s) {
        match spec_parse_exfat(s) {
            Some(g) => Ok(g),
            None => Err(FsError::BadFormat),
        }
    } else {
        spec_parse_fat32(s)
    }
}

fn shl1(k: u8) -> (r: u32)
    requires
        k < 32,
    ensures
        r == pow2(k as nat),
        1 <= r <= 0x8000_0000,
    decreases k,
{
    proof {
        lemma_pow2_bound(k as nat);
    }
    if k == 0 {
        proof {
            lemma2_to64();
        }
        1
    } else {
        let h = shl1(k - 1);
        proof {
            lemma_pow2_unfold(k as nat);
        }
        h * 2
    }
}

pub proof fn lemma_pow2_bound(n: nat)
    requires
        n < 32,
    ensures
        1 <= pow2(n) <= 0x8000_0000,
{
    lemma2_to64();
    lemma_pow2_pos(n);
    if n < 31 {
        lemma_pow2_strictly_increases(n, 31);
    }
}

impl FatGeom {
    /// Field bounds that every parsed geometry satisfies.
    pub open spec fn wf(&self) -> bool {
        &&& self.bytes_per_sec >= 1
        &&& self.bytes_per_sec <= 0x8000_0000
        &&& self.secs_per_clus >= 1
        &&& self.secs_per_clus <= 0x8000_0000
        &&& self.fat_lba <= 0x1_0000_0000
        &&& self.data_lba <= 0x100_0000_0000
    }

    /// Decode the boot sector: ExFAT when its OEM name says so, else FAT32,
    /// which needs at least 65525 clusters.
    pub fn parse(s: &[u8; 512]) -> (r: Result<Self>)
        ensures
            r == spec_parse_geom(s@),
            r matches Ok(g) ==> g.wf(),
    {
        let sl = s.as_slice();
        if s[3] == 0x45 && s[4] == 0x58 && s[5] == 0x46 && s[6] == 0x41 && s[7] == 0x54 && s[8]
            == 0x20 && s[9] == 0x20 && s[10] == 0x20 {
            assert(is_exfat_sig(s@)) by {
                assert(s@.subrange(3, 11) =~= seq![0x45u8, 0x58, 0x46, 0x41, 0x54, 0x20, 0x20, 0x20]);
            }
            return match Self::parse_exfat(s) {
                Some(g) => Ok(g),
                None => Err(FsError::BadFormat),
            };
        }
        assert(!is_exfat_sig(s@)) by {
            if is_exfat_sig(s@) {
                assert(s@.subrange(3, 11)[0] == s@[3]);
                assert(s@.subrange(3, 11)[1] == s@[4]);
                assert(s@.subrange(3, 11)[2] == s@[5]);
                assert(s@.subrange(3, 11)[3] == s@[6]);
                assert(s@.subrange(3, 11)[4] == s@[7]);
                assert(s@.subrange(3, 11)[5] == s@[8]);
                assert(s@.subrange(3, 11)[6] == s@[9]);
                assert(s@.subrange(3, 11)[7] == s@[10]);
            }
        }
        let bps = rd_le16(sl, 11) as u32;
        let spc = s[13] as u32;
        let rsvd = rd_le16(sl, 14) as u32;
        let nfat = s[16];
        let rde = rd_le16(sl, 17) as u32;
        let ts16 = rd_le16(sl, 19) as u32;
        let fs16 = rd_le16(sl, 22) as u32;
        let ts32 = rd_le32(sl, 32);
        let fs32 = rd_le32(sl, 36);
        let rc = rd_le32(sl, 44);
        if bps == 0 || spc == 0 {
            return Err(FsError::BadFormat);
        }
        let fat_sz = if fs16 > 0 { fs16 } else { fs32 };
        let tot = if ts16 > 0 { ts16 } else { ts32 };
        let fat_lba = rsvd as u64;
        let rde_sec = (rde * 32 + bps - 1) / bps;
        proof {
            assert(nfat as u64 * fat_sz as u64 <= 0xFF * 0xFFFF_FFFF) by (nonlinear_arith)
                requires
                    nfat <= 0xFF,
                    fat_sz <= 0xFFFF_FFFF,
            ;
            assert(rde_sec <= rde * 32 + bps) by (nonlinear_arith)
                requires
                    rde_sec == (rde * 32 + bps - 1) / bps as int,
                    bps >= 1,
            ;
        }
        let data_lb = fat_lba + nfat as u64 * fat_sz as u64 + rde_sec as u64;
        let d32 = (data_lb % 0x1_0000_0000) as u32;
        let clusters = (if tot >= d32 { tot - d32 } else { 0 }) / spc;
        if clusters < 65525 {
            return Err(FsError::BadFormat);
        }
        Ok(FatGeom {
            kind: FatKind::Fat32,
            bytes_per_sec: bps,
            secs_per_clus: spc,
            fat_lba,
            data_lba: data_lb,
            root_cluster: rc,
            fat_size_secs: fat_sz,
            fat_count: nfat,
            total_clusters: clusters,
            bitmap_cluster: 0,
        })
    }

    fn parse_exfat(s: &[u8; 512]) -> (r: Option<Self>)
        ensures
            r == spec_parse_exfat(s@),
            r matches Some(g) ==> g.wf(),
    {
        let sl = s.as_slice();
        let fat_off = rd_le32(sl, 80);
        let fat_len = rd_le32(sl, 84);
        let data_off = rd_le32(sl, 88);
        let vol_len = rd_le64(sl, 72);
        let root_clus = rd_le32(sl, 96);
        let sec_shift = s[108];
        let spc_shift = s[109];
        let n_fats = s[110];
        if sec_shift >= 32 || spc_shift >= 32 {
            return None;
        }
        let bps = shl1(sec_shift);
        let spc = shl1(spc_shift);
        let vl32 = (vol_len % 0x1_0000_0000) as u32;
        let clusters = if data_off < vl32 { (vl32 - data_off) / spc } else { 0 };
        proof {
            lemma_pow2_bound(sec_shift as nat);
            lemma_pow2_bound(spc_shift as nat);
        }
        Some(FatGeom {
            kind: FatKind::ExFat,
            bytes_per_sec: bps,
            secs_per_clus: spc,
            fat_lba: fat_off as u64,
            data_lba: data_off as u64,
            root_cluster: root_clus,
            fat_size_secs: fat_len,
            fat_count: n_fats,
            total_clusters: clusters,
            bitmap_cluster: 0,
        })
    }

    /// First sector of data cluster `c` (clusters are numbered from 2).
    pub fn cluster_lba(&self, c: u32) -> (r: u64)
        requires
            self.wf(),
            c >= 2,
        ensures
            r == self.data_lba + (c - 2) * self.secs_per_clus,
    {
        proof {
            assert((c - 2) * self.secs_per_clus <= 0xFFFF_FFFF * 0x8000_0000) by (nonlinear_arith)
                requires
                    c - 2 <= 0xFFFF_FFFF,
                    self.secs_per_clus <= 0x8000_0000,
                    c >= 2,
            ;
        }
        self.data_lba + (c as u64 - 2) * self.secs_per_clus as u64
    }

    /// Bytes per cluster.
    pub fn bytes_per_cluster(&self) -> (r: u64)
        requires
            self.wf(),
        ensures
            r == self.bytes_per_sec * self.secs_per_clus,
    {
        proof {
            assert(self.bytes_per_sec * self.secs_per_clus <= 0x8000_0000 * 0x8000_0000) by (nonlinear_arith)
                requires
                    self.bytes_per_sec <= 0x8000_0000,
                    self.secs_per_clus <= 0x8000_0000,
            ;
        }
        self.bytes_per_sec as u64 * self.secs_per_clus as u64
    }
}


// ─── Name and timestamp helpers ──────────────────────────────────────────────

/// UTF-8 bytes written for one UCS-2 code unit. Code unit 0 takes the
/// three-byte form.
pub open spec fn utf8_units(cp: u16) -> Seq<u8> {
    if 1 <= cp <= 0x7F {
        seq![cp as u8]
    } else if 0x80 <= cp <= 0x7FF {
        seq![(0xC0 + cp / 64) as u8, (0x80 + cp % 64) as u8]
    } else {
        seq![(0xE0 + cp / 4096) as u8, (0x80 + (cp / 64) % 64) as u8, (0x80 + cp % 64) as u8]
    }
}

/// A name character's UTF-8 bytes decode back to it: one byte below 0x80,
/// else a lead byte 110xxxxx and one 10xxxxxx byte up to 0x7FF, else a lead
/// byte 1110xxxx and two continuation bytes, each carrying six bits.
pub proof fn utf8_units_law(cp: u16)
    requires
        cp >= 1,
    ensures
        ({
            let u = utf8_units(cp);
            &&& cp < 0x80 ==> u.len() == 1 && u[0] == cp
            &&& 0x80 <= cp < 0x800 ==> u.len() == 2 && 0xC0 <= u[0] < 0xE0 && 0x80 <= u[1] < 0xC0 && (u[0] - 0xC0) * 64 + (u[1]
                - 0x80) == cp
            &&& cp >= 0x800 ==> u.len() == 3 && 0xE0 <= u[0] < 0xF0 && 0x80 <= u[1] < 0xC0 && 0x80 <= u[2] < 0xC0 && (u[0]
                - 0xE0) * 4096 + (u[1] - 0x80) * 64 + (u[2] - 0x80) == cp
        }),
{
    let c = cp as int;
    vstd::arithmetic::div_mod::lemma_fundamental_div_mod(c, 64);
    vstd::arithmetic::div_mod::lemma_fundamental_div_mod(c / 64, 64);
    vstd::arithmetic::div_mod::lemma_div_denominator(c, 64, 64);
    assert(c / 4096 < 16);
}

/// Encode one UCS-2 code unit as UTF-8 at `out[at..]` when it fits there;
/// returns the number of bytes written (0 when it does not fit).
fn ucs2_to_utf8(cp: u16, out: &mut [u8], at: usize) -> (n: usize)
    requires
        at <= old(out)@.len(),
    ensures
        final(out)@.len() == old(out)@.len(),
        n == (if old(out)@.len() - at >= utf8_units(cp).len() { utf8_units(cp).len() } else { 0 }),
        final(out)@.subrange(at as int, at + n) == utf8_units(cp).subrange(0, n as int),
        forall|k: int| 0 <= k < old(out)@.len() && !(at <= k < at + n) ==> final(out)@[k] == old(out)@[k],
{
    let room = out.len() - at;
    if 1 <= cp && cp <= 0x7F {
        if room >= 1 {
            out[at] = cp as u8;
            assert(out@.subrange(at as int, at + 1) =~= utf8_units(cp));
            return 1;
        }
    } else if 0x80 <= cp && cp <= 0x7FF {
        if room >= 2 {
            out[at] = (0xC0 + cp / 64) as u8;
            out[at + 1] = (0x80 + cp % 64) as u8;
            assert(out@.subrange(at as int, at + 2) =~= utf8_units(cp));
            return 2;
        }
    } else {
        if room >= 3 {
            out[at] = (0xE0 + cp / 4096) as u8;
            out[at + 1] = (0x80 + (cp / 64) % 64) as u8;
            out[at + 2] = (0x80 + cp % 64) as u8;
            assert(out@.subrange(at as int, at + 3) =~= utf8_units(cp));
            return 3;
        }
    }
    assert(out@.subrange(at as int, at as int) =~= utf8_units(cp).subrange(0, 0));
    0
}

/// Number of bytes of `s` that are not UTF-8 continuation bytes.
pub open spec fn lead_count(s: Seq<u8>) -> int
    decreases s.len(),
{
    if s.len() == 0 {
        0
    } else {
        lead_count(s.drop_last()) + if 0x80 <= s.last() <= 0xBF { 0int } else { 1int }
    }
}

/// Count the UCS-2 units a UTF-8 string encodes to (one per non-continuation byte).
fn ucs2_len(utf8: &[u8]) -> (n: usize)
    ensures
        n == lead_count(utf8@),
{
    let mut i: usize = 0;
    let mut n: usize = 0;
    while i < utf8.len()
        invariant
            i <= utf8@.len(),
            n <= i,
            n == lead_count(utf8@.subrange(0, i as int)),
        decreases utf8@.len() - i,
    {
        assert(utf8@.subrange(0, i + 1).drop_last() =~= utf8@.subrange(0, i as int));
        let b = utf8[i];
        if !(0x80 <= b && b <= 0xBF) {
            n = n + 1;
        }
        i = i + 1;
    }
    assert(utf8@.subrange(0, i as int) =~= utf8@);
    n
}

/// UCS-2 code units decoded from UTF-8 (BMP only); invalid or
/// truncated sequences are skipped one byte at a time.
pub open spec fn decode_ucs2(s: Seq<u8>) -> Seq<u16>
    decreases s.len(),
{
    if s.len() == 0 {
        Seq::empty()
    } else {
        let b = s[0];
        if b < 0x80 {
            seq![b as u16] + decode_ucs2(s.subrange(1, s.len() as int))
        } else if 0xC0 <= b <= 0xDF && 1 < s.len() {
            seq![((b % 32) * 64 + s[1] % 64) as u16] + decode_ucs2(s.subrange(2, s.len() as int))
        } else if 0xE0 <= b <= 0xEF && 2 < s.len() {
            seq![((b % 16) * 4096 + (s[1] % 64) * 64 + s[2] % 64) as u16] + decode_ucs2(
                s.subrange(3, s.len() as int),
            )
        } else {
            decode_ucs2(s.subrange(1, s.len() as int))
        }
    }
}

/// Convert UTF-8 to UCS-2 (BMP only) into `dst`, as many units as fit.
/// Returns the number written.
fn utf8_to_ucs2(src: &[u8], dst: &mut [u16]) -> (n: usize)
    ensures
        final(dst)@.len() == old(dst)@.len(),
        n == (if decode_ucs2(src@).len() < old(dst)@.len() { decode_ucs2(src@).len() as int } else { old(dst)@.len() as int }),
        final(dst)@.subrange(0, n as int) == decode_ucs2(src@).subrange(0, n as int),
        final(dst)@.subrange(n as int, old(dst)@.len() as int) == old(dst)@.subrange(n as int, old(dst)@.len() as int),
{
    let mut i: usize = 0;
    let mut out: usize = 0;
    let ghost full = decode_ucs2(src@);
    assert(src@.subrange(0, src@.len() as int) =~= src@);
    assert(dst@.subrange(0, 0) =~= Seq::<u16>::empty());
    while i < src.len() && out < dst.len()
        invariant
            i <= src@.len(),
            out <= dst@.len(),
            dst@.len() == old(dst)@.len(),
            full == decode_ucs2(src@),
            full =~= dst@.subrange(0, out as int) + decode_ucs2(src@.subrange(i as int, src@.len() as int)),
            dst@.subrange(out as int, dst@.len() as int) == old(dst)@.subrange(out as int, old(dst)@.len() as int),
        decreases src@.len() - i,
    {
        let ghost rest = src@.subrange(i as int, src@.len() as int);
        let ghost before = dst@;
        let ghost old_out = out;
        let b = src[i];
        if b < 0x80 {
            dst[out] = b as u16;
            out = out + 1;
            i = i + 1;
            assert(rest.subrange(1, rest.len() as int) =~= src@.subrange(i as int, src@.len() as int));
        } else if 0xC0 <= b && b <= 0xDF && src.len() - i > 1 {
            dst[out] = ((b as u16 % 32) * 64) + (src[i + 1] as u16 % 64);
            out = out + 1;
            i = i + 2;
            assert(rest.subrange(2, rest.len() as int) =~= src@.subrange(i as int, src@.len() as int));
        } else if 0xE0 <= b && b <= 0xEF && src.len() - i > 2 {
            dst[out] = ((b as u16 % 16) * 4096) + ((src[i + 1] as u16 % 64) * 64) + (src[i + 2] as u16
                % 64);
            out = out + 1;
            i = i + 3;
            assert(rest.subrange(3, rest.len() as int) =~= src@.subrange(i as int, src@.len() as int));
        } else {
            i = i + 1;
            assert(rest.subrange(1, rest.len() as int) =~= src@.subrange(i as int, src@.len() as int));
        }
        proof {
            assert forall|k: int| out <= k < dst@.len() implies dst@[k] == old(dst)@[k] by {
                assert(before.subrange(old_out as int, before.len() as int)[k - old_out] == old(dst)@.subrange(
                    old_out as int,
                    old(dst)@.len() as int,
                )[k - old_out]);
            }
            assert(dst@.subrange(out as int, dst@.len() as int) =~= old(dst)@.subrange(out as int, old(dst)@.len() as int));
        }
    }
    proof {
        let rest = decode_ucs2(src@.subrange(i as int, src@.len() as int));
        if i >= src@.len() {
            assert(src@.subrange(i as int, src@.len() as int) =~= Seq::<u8>::empty());
            assert(full =~= dst@.subrange(0, out as int));
        }
        assert(full.subrange(0, out as int) =~= dst@.subrange(0, out as int));
    }
    out
}

/// Byte offsets of the 13 name characters in a long-name entry.
pub open spec fn lfn_off(k: int) -> int {
    if k < 5 { 1 + 2 * k } else if k < 11 { 14 + 2 * (k - 5) } else { 28 + 2 * (k - 11) }
}

/// A long-name entry holds its 13 UCS-2 characters at bytes 1, 3, 5, 7,
/// 9, then 14, 16, 18, 20, 22, 24, then 28 and 30: around the attribute
/// byte at 11, the type and checksum at 12 and 13 and the zero cluster at
/// 26; the offsets rise and every character fits the 32-byte entry.
pub proof fn lfn_offsets_law(k: int, j: int)
    requires
        0 <= k < 13,
        0 <= j < 13,
    ensures
        k < j ==> lfn_off(k) + 2 <= lfn_off(j),
        1 <= lfn_off(k) && lfn_off(k) + 2 <= 32,
        lfn_off(k) != 11 && lfn_off(k) + 1 != 11 && lfn_off(k) != 12 && lfn_off(k) != 13,
        lfn_off(k) != 26 && lfn_off(k) + 1 != 26 && lfn_off(k) != 27 && lfn_off(k) + 1 != 27,
        k == 0 ==> lfn_off(k) == 1,
        k == 5 ==> lfn_off(k) == 14,
        k == 11 ==> lfn_off(k) == 28,
        k == 12 ==> lfn_off(k) == 30,
{
}

/// The 13 UCS-2 name characters of a long-name directory entry.
fn extract_lfn_chars(e: &[u8; 32]) -> (out: [u16; 13])
    ensures
        forall|k: int| 0 <= k < 13 ==> out@[k] == le16(e@, lfn_off(k)),
{
    let mut out = [0u16; 13];
    let mut k: usize = 0;
    while k < 13
        invariant
            k <= 13,
            forall|j: int| 0 <= j < k ==> out@[j] == le16(e@, lfn_off(j)),
        decreases 13 - k,
    {
        let o = if k < 5 { 1 + 2 * k } else if k < 11 { 14 + 2 * (k - 5) } else { 28 + 2 * (k - 11) };
        out[k] = rd_le16(e.as_slice(), o);
        k = k + 1;
    }
    out
}

/// The UTF-8 name assembled from the characters `cs` from `i` on, after
/// `acc`: up to the first NUL or 0xFFFF, stopping once 252 bytes are reached.
pub open spec fn lfn_enc(cs: Seq<u16>, i: int, acc: Seq<u8>) -> Seq<u8>
    decreases cs.len() - i,
{
    if i < 0 || i >= cs.len() || cs[i] == 0 || cs[i] == 0xFFFF {
        acc
    } else if acc.len() + utf8_units(cs[i]).len() >= 252 {
        acc + utf8_units(cs[i])
    } else {
        lfn_enc(cs, i + 1, acc + utf8_units(cs[i]))
    }
}

/// The UCS-2 units of each long-name part.
pub open spec fn parts_view(p: Seq<[u16; 13]>) -> Seq<Seq<u16>> {
    Seq::new(p.len(), |i: int| p[i]@)
}

/// The characters of the first `count` long-name parts, in order.
pub open spec fn lfn_flat(parts: Seq<Seq<u16>>, count: int) -> Seq<u16>
    decreases count,
{
    if count <= 0 { Seq::empty() } else { lfn_flat(parts, count - 1) + parts[count - 1] }
}

pub proof fn lemma_lfn_flat_len(parts: Seq<Seq<u16>>, count: int)
    requires
        0 <= count <= parts.len(),
        forall|i: int| 0 <= i < count ==> #[trigger] parts[i].len() == 13,
    ensures
        lfn_flat(parts, count).len() == 13 * count,
        forall|k: int| 0 <= k < 13 * count ==> #[trigger] lfn_flat(parts, count)[k] == parts[k / 13][k % 13],
    decreases count,
{
    if count > 0 {
        lemma_lfn_flat_len(parts, count - 1);
        assert(parts[count - 1].len() == 13);
        assert forall|k: int| 0 <= k < 13 * count implies #[trigger] lfn_flat(parts, count)[k] == parts[k / 13][k % 13] by {
            if k < 13 * (count - 1) {
                assert(lfn_flat(parts, count)[k] == lfn_flat(parts, count - 1)[k]);
            } else {
                assert(k / 13 == count - 1);
                assert(k % 13 == k - 13 * (count - 1));
            }
        }
    }
}

proof fn lemma_lfn_enc_len(cs: Seq<u16>, i: int, acc: Seq<u8>)
    requires
        acc.len() < 252,
    ensures
        lfn_enc(cs, i, acc).len() <= 254,
        lfn_enc(cs, i, acc).len() >= acc.len(),
        lfn_enc(cs, i, acc).subrange(0, acc.len() as int) == acc,
    decreases cs.len() - i,
{
    if i < 0 || i >= cs.len() || cs[i] == 0 || cs[i] == 0xFFFF {
    } else if acc.len() + utf8_units(cs[i]).len() >= 252 {
        assert((acc + utf8_units(cs[i])).subrange(0, acc.len() as int) =~= acc);
    } else {
        lemma_lfn_enc_len(cs, i + 1, acc + utf8_units(cs[i]));
        assert(lfn_enc(cs, i, acc).subrange(0, acc.len() as int) =~= (acc + utf8_units(cs[i])).subrange(
            0,
            acc.len() as int,
        ));
    }
}

/// Assemble a long name from its first `count` parts into `out`, NUL
/// terminated. Returns its length.
fn assemble_lfn(parts: &[[u16; 13]], count: usize, out: &mut [u8; 256]) -> (n: usize)
    requires
        count <= parts@.len(),
        parts@.len() * 26 <= isize::MAX,
    ensures
        n < 256,
        final(out)@.subrange(0, n as int) == lfn_enc(lfn_flat(parts_view(parts@), count as int), 0, Seq::empty()),
        final(out)@[n as int] == 0,
        forall|k: int| n < k < 256 ==> final(out)@[k] == old(out)@[k],
{
    let ghost pv = parts_view(parts@);
    let ghost cs = lfn_flat(pv, count as int);
    proof {
        lemma_lfn_flat_len(pv, count as int);
        lemma_lfn_enc_len(cs, 0, Seq::empty());
    }
    let total: u64 = 13 * count as u64;
    let mut n: usize = 0;
    let mut t: u64 = 0;
    let mut stop = false;
    while t < total && !stop
        invariant
            count <= parts@.len(),
            total == 13 * count,
            pv == parts_view(parts@),
            cs == lfn_flat(pv, count as int),
            cs.len() == total,
            forall|k: int| 0 <= k < total ==> #[trigger] cs[k] == pv[k / 13][k % 13],
            t <= total,
            n <= 254,
            out@.len() == 256,
            !stop ==> n < 252 && lfn_enc(cs, 0, Seq::empty()) == lfn_enc(cs, t as int, out@.subrange(0, n as int)),
            stop ==> lfn_enc(cs, 0, Seq::empty()) == out@.subrange(0, n as int),
            forall|k: int| n <= k < 256 ==> out@[k] == old(out)@[k],
        decreases total - t + (if stop { 0int } else { 1int }),
    {
        let cp = parts[(t / 13) as usize][(t % 13) as usize];
        if cp == 0 || cp == 0xFFFF {
            stop = true;
        } else {
            let ghost pre = out@.subrange(0, n as int);
            let ghost before = out@;
            let w = ucs2_to_utf8(cp, out, n);
            assert(w == utf8_units(cp).len());
            assert(utf8_units(cp).subrange(0, w as int) =~= utf8_units(cp));
            assert forall|k: int| 0 <= k < n implies out@[k] == before[k] by {}
            assert(out@.subrange(0, (n + w) as int) =~= pre + utf8_units(cp)) by {
                assert forall|k: int| 0 <= k < n + w implies out@[k] == (pre + utf8_units(cp))[k] by {
                    if k >= n {
                        assert(out@.subrange(n as int, n + w)[k - n] == out@[k]);
                    }
                }
            }
            n = n + w;
            if n >= 252 {
                stop = true;
            } else {
                t = t + 1;
            }
        }
    }
    proof {
        if !stop {
            assert(lfn_enc(cs, t as int, out@.subrange(0, n as int)) == out@.subrange(0, n as int));
        }
    }
    out[n] = 0;
    n
}


/// ASCII upper-casing of every byte.
pub open spec fn upper_seq(s: Seq<u8>) -> Seq<u8> {
    Seq::new(s.len(), |i: int| upper(s[i]))
}

/// The displayed 8.3 name of a short directory entry: base and extension
/// without their space padding, upper-cased, joined by `.` when there is
/// an extension.
pub open spec fn sfn_name(e: Seq<u8>) -> Seq<u8> {
    let name = trim_end(e.subrange(0, 8), 0x20);
    let ext = trim_end(e.subrange(8, 11), 0x20);
    if ext.len() == 0 {
        upper_seq(name)
    } else {
        upper_seq(name) + seq![0x2Eu8] + upper_seq(ext)
    }
}

/// `b` without its trailing spaces.
fn trim_spaces(b: &[u8]) -> (r: &[u8])
    ensures
        r@ == trim_end(b@, 0x20),
{
    let k = count_kept_before_trailing(b, 0x20);
    let (h, _) = b.split_at(k);
    h
}

/// Copy `src` upper-cased into `out` at `at`.
fn put_upper(out: &mut [u8; 256], at: usize, src: &[u8])
    requires
        at + src@.len() <= 256,
    ensures
        forall|k: int| 0 <= k < src@.len() ==> final(out)@[at + k] == upper(src@[k]),
        forall|k: int| 0 <= k < 256 && !(at <= k < at + src@.len()) ==> final(out)@[k] == old(out)@[k],
{
    let mut i: usize = 0;
    while i < src.len()
        invariant
            at + src@.len() <= 256,
            i <= src@.len(),
            forall|k: int| 0 <= k < i ==> out@[at + k] == upper(src@[k]),
            forall|k: int| 0 <= k < 256 && !(at <= k < at + i) ==> out@[k] == old(out)@[k],
        decreases src@.len() - i,
    {
        out[at + i] = upper_byte(src[i]);
        i = i + 1;
    }
}

/// Write the displayed name of short entry `e` into `out`, NUL terminated.
/// Returns its length.
fn assemble_sfn(e: &[u8; 32], out: &mut [u8; 256]) -> (n: usize)
    ensures
        n <= 12,
        final(out)@.subrange(0, n as int) == sfn_name(e@),
        final(out)@[n as int] == 0,
        forall|k: int| n < k < 256 ==> final(out)@[k] == old(out)@[k],
{
    let (head, _) = e.as_slice().split_at(11);
    let (b8, x3) = head.split_at(8);
    assert(b8@ == e@.subrange(0, 8));
    assert(x3@ == e@.subrange(8, 11));
    let name = trim_spaces(b8);
    let ext = trim_spaces(x3);
    proof {
        lemma_trim_end(b8@, 0x20);
        lemma_trim_end(x3@, 0x20);
    }
    put_upper(out, 0, name);
    let mut n = name.len();
    if ext.len() > 0 {
        out[n] = 0x2E;
        put_upper(out, n + 1, ext);
        n = n + 1 + ext.len();
    }
    assert(out@.subrange(0, n as int) =~= sfn_name(e@));
    out[n] = 0;
    n
}

/// One step of the short-name checksum: rotate right by one, then add.
pub open spec fn sfn_step(s: u8, b: u8) -> u8 {
    ((s / 2 + (s % 2) * 128 + b) % 256) as u8
}

/// Checksum of a short name, binding long-name entries to it.
pub open spec fn sfn_sum(s: Seq<u8>) -> u8
    decreases s.len(),
{
    if s.len() == 0 { 0 } else { sfn_step(sfn_sum(s.drop_last()), s.last()) }
}

fn sfn_checksum(sfn: &[u8]) -> (r: u8)
    ensures
        r == sfn_sum(sfn@),
{
    let mut s: u8 = 0;
    let mut i: usize = 0;
    while i < sfn.len()
        invariant
            i <= sfn@.len(),
            s == sfn_sum(sfn@.subrange(0, i as int)),
        decreases sfn@.len() - i,
    {
        assert(sfn@.subrange(0, i + 1).drop_last() =~= sfn@.subrange(0, i as int));
        s = (((s / 2 + (s % 2) * 128) as u16 + sfn[i] as u16) % 256) as u8;
        i = i + 1;
    }
    assert(sfn@.subrange(0, i as int) =~= sfn@);
    s
}

/// First cluster recorded in a short entry (high word at 20, low at 26).
pub open spec fn entry_cluster(e: Seq<u8>) -> int {
    le16(e, 20) * 0x1_0000 + le16(e, 26)
}

/// A FAT32 short entry's first cluster is split in two little-endian
/// halves: the high 16 bits at byte 20, the low 16 bits at byte 26.
pub proof fn entry_cluster_law(e: Seq<u8>)
    requires
        e.len() == 32,
    ensures
        entry_cluster(e) == (e[20] + e[21] * 0x100) * 0x1_0000 + e[26] + e[27] * 0x100,
        entry_cluster(e) / 0x1_0000 == e[20] + e[21] * 0x100,
        entry_cluster(e) % 0x1_0000 == e[26] + e[27] * 0x100,
{
    let hi = le16(e, 20);
    let lo = le16(e, 26);
    assert(0 <= lo < 0x1_0000 && 0 <= hi);
    assert((hi * 0x1_0000 + lo) / 0x1_0000 == hi && (hi * 0x1_0000 + lo) % 0x1_0000 == lo) by (nonlinear_arith)
        requires
            0 <= lo < 0x1_0000,
            0 <= hi,
    ;
}

fn fat32_entry_cluster(e: &[u8; 32]) -> (r: u32)
    ensures
        r == entry_cluster(e@),
{
    let hi = rd_le16(e.as_slice(), 20) as u32;
    let lo = rd_le16(e.as_slice(), 26) as u32;
    hi * 0x1_0000 + lo
}

/// Base and extension of a long name: split at the last `.` unless that
/// `.` leads the name.
pub open spec fn sfn_parts(b: Seq<u8>) -> (Seq<u8>, Seq<u8>) {
    match last_index(b, 0x2E) {
        Some(d) => if d > 0 { (b.subrange(0, d), b.subrange(d + 1, b.len() as int)) } else { (b, Seq::empty()) },
        None => (b, Seq::empty()),
    }
}

/// Whether a long name needs long-name entries: its base is longer than 8,
/// its extension longer than 3, or a kept byte is not upper case.
pub open spec fn sfn_needs_lfn(b: Seq<u8>) -> bool {
    let (base, ext) = sfn_parts(b);
    ||| base.len() > 8
    ||| ext.len() > 3
    ||| exists|i: int| 0 <= i < base.len() && upper(base[i]) != base[i]
    ||| exists|i: int| 0 <= i < ext.len() && upper(ext[i]) != ext[i]
}

/// The 11 bytes of the generated 8.3 name, before any numeric tail.
pub open spec fn sfn_plain(b: Seq<u8>) -> Seq<u8> {
    let (base, ext) = sfn_parts(b);
    Seq::new(11, |i: int|
        if i < 8 {
            if i < base.len() { upper(base[i]) } else { 0x20u8 }
        } else {
            if i - 8 < ext.len() { upper(ext[i - 8]) } else { 0x20u8 }
        })
}

/// The generated 8.3 name: `~1` (or a final `1`) marks one that needs
/// long-name entries.
pub open spec fn sfn_of(b: Seq<u8>) -> Seq<u8> {
    let p = sfn_plain(b);
    let bi = if sfn_parts(b).0.len() < 8 { sfn_parts(b).0.len() as int } else { 8 };
    if !sfn_needs_lfn(b) {
        p
    } else if bi < 7 {
        p.update(bi, 0x7Eu8).update(bi + 1, 0x31u8)
    } else {
        p.update(7, 0x31u8)
    }
}

/// Generate an 8.3 name for `name`, and whether it needs long-name entries.
fn make_sfn(name: &str) -> (r: ([u8; 11], bool))
    ensures
        r.0@ == sfn_of(name.spec_bytes()),
        r.1 == sfn_needs_lfn(name.spec_bytes()),
{
    let bytes = str_bytes(name);
    let ghost bs = bytes@;
    let dot = rfind(bytes, 0x2E);
    proof {
        lemma_last_index(bs, 0x2E);
    }
    let ghost li = last_index(bs, 0x2E);
    let _blen = bytes.len();
    let (base_b, ext_b): (&[u8], &[u8]) = match dot {
        Some(d) => {
            if d > 0 {
                let (a, rest) = bytes.split_at(d);
                let (_, x) = rest.split_at(1);
                assert(x@ =~= bs.subrange(d + 1, bs.len() as int));
                assert(a@ =~= bs.subrange(0, d as int));
                assert(li == Some(d as int));
                assert(a@ == sfn_parts(bs).0);
                (a, x)
            } else {
                let e: &[u8] = &[];
                assert(e@ =~= Seq::<u8>::empty());
                (bytes, e)
            }
        },
        None => {
            let e: &[u8] = &[];
            assert(e@ =~= Seq::<u8>::empty());
            (bytes, e)
        },
    };
    assert(base_b@ == sfn_parts(bs).0);
    assert(ext_b@ =~= sfn_parts(bs).1);
    let mut sfn = [0x20u8; 11];
    let mut needs = false;
    let mut bi: usize = 0;
    while bi < base_b.len() && bi < 8
        invariant
            bi <= 8,
            bi <= base_b@.len() || bi == 0,
            bi <= base_b@.len(),
            forall|k: int| 0 <= k < bi ==> sfn@[k] == upper(base_b@[k]),
            forall|k: int| bi <= k < 11 ==> sfn@[k] == 0x20,
            needs == exists|k: int| 0 <= k < bi && upper(base_b@[k]) != base_b@[k],
        decreases 8 - bi,
    {
        let up = upper_byte(base_b[bi]);
        if base_b[bi] != up {
            needs = true;
        }
        sfn[bi] = up;
        bi = bi + 1;
    }
    if bi < base_b.len() {
        needs = true;
    }
    let ghost nb = needs;
    let mut ei: usize = 0;
    while ei < ext_b.len() && ei < 3
        invariant
            bi <= 8,
            ei <= 3,
            ei <= ext_b@.len(),
            bi == (if base_b@.len() < 8 { base_b@.len() as int } else { 8 }),
            forall|k: int| 0 <= k < bi ==> sfn@[k] == upper(base_b@[k]),
            forall|k: int| bi <= k < 8 ==> sfn@[k] == 0x20,
            forall|k: int| 0 <= k < ei ==> sfn@[8 + k] == upper(ext_b@[k]),
            forall|k: int| 8 + ei <= k < 11 ==> sfn@[k] == 0x20,
            needs == (nb || exists|k: int| 0 <= k < ei && upper(ext_b@[k]) != ext_b@[k]),
        decreases 3 - ei,
    {
        let up = upper_byte(ext_b[ei]);
        if ext_b[ei] != up {
            needs = true;
        }
        sfn[8 + ei] = up;
        ei = ei + 1;
    }
    if ei < ext_b.len() {
        needs = true;
    }
    assert(sfn@ =~= sfn_plain(bs));
    assert(needs == sfn_needs_lfn(bs)) by {
        if base_b@.len() <= 8 && ext_b@.len() <= 3 {
            assert(bi == base_b@.len());
            assert(ei == ext_b@.len());
        }
    }
    if needs {
        if bi < 7 {
            sfn[bi] = 0x7E;
            sfn[bi + 1] = 0x31;
        } else {
            sfn[7] = 0x31;
        }
    }
    assert(sfn@ =~= sfn_of(bs));
    (sfn, needs)
}


/// The 32 bytes of a short directory entry.
pub open spec fn sfn_entry(sfn: Seq<u8>, cluster: u32, size: u32, attr: u8) -> Seq<u8> {
    Seq::new(32, |i: int|
        if i < 11 { sfn[i] }
        else if i == 11 { attr }
        else if i == 20 { ((cluster / 0x1_0000) % 0x100) as u8 }
        else if i == 21 { (cluster / 0x100_0000) as u8 }
        else if i == 26 { (cluster % 0x100) as u8 }
        else if i == 27 { ((cluster / 0x100) % 0x100) as u8 }
        else if i == 28 { (size % 0x100) as u8 }
        else if i == 29 { ((size / 0x100) % 0x100) as u8 }
        else if i == 30 { ((size / 0x1_0000) % 0x100) as u8 }
        else if i == 31 { (size / 0x100_0000) as u8 }
        else { 0u8 })
}

/// Write a short directory entry at byte `at` of `e`.
fn write_sfn_entry(e: &mut [u8], at: usize, sfn: &[u8; 11], cluster: u32, size: u32, attr: u8)
    requires
        at + 32 <= old(e)@.len(),
    ensures
        final(e)@.len() == old(e)@.len(),
        final(e)@.subrange(at as int, at + 32) == sfn_entry(sfn@, cluster, size, attr),
        forall|k: int| 0 <= k < old(e)@.len() && !(at <= k < at + 32) ==> final(e)@[k] == old(e)@[k],
{
    let n = e.len();
    let mut i: usize = 0;
    while i < 32
        invariant
            n == e@.len(),
            at + 32 <= e@.len(),
            e@.len() == old(e)@.len(),
            i <= 32,
            forall|k: int| 0 <= k < i ==> e@[at + k] == sfn_entry(sfn@, cluster, size, attr)[k],
            forall|k: int| 0 <= k < e@.len() && !(at <= k < at + i) ==> e@[k] == old(e)@[k],
        decreases 32 - i,
    {
        let b: u8 = if i < 11 {
            sfn[i]
        } else if i == 11 {
            attr
        } else if i == 20 {
            ((cluster / 0x1_0000) % 0x100) as u8
        } else if i == 21 {
            (cluster / 0x100_0000) as u8
        } else if i == 26 {
            (cluster % 0x100) as u8
        } else if i == 27 {
            ((cluster / 0x100) % 0x100) as u8
        } else if i == 28 {
            (size % 0x100) as u8
        } else if i == 29 {
            ((size / 0x100) % 0x100) as u8
        } else if i == 30 {
            ((size / 0x1_0000) % 0x100) as u8
        } else if i == 31 {
            (size / 0x100_0000) as u8
        } else {
            0
        };
        e[at + i] = b;
        i = i + 1;
    }
    assert(e@.subrange(at as int, at + 32) =~= sfn_entry(sfn@, cluster, size, attr));
}

/// The sector and slot `slot` entries past `lba`'s first slot, counting
/// `slots_per_sec` slots to a sector.
fn advance_dir_pos(lba: u64, slot: usize, slots_per_sec: usize) -> (r: (u64, usize))
    requires
        slots_per_sec > 0,
        lba + slot <= u64::MAX,
    ensures
        r.0 == lba + slot as int / slots_per_sec as int,
        r.1 == slot as int % slots_per_sec as int,
{
    (lba + (slot / slots_per_sec) as u64, slot % slots_per_sec)
}

/// `path` without trailing `/`s, split at its last `/` into parent and
/// name; a path without `/` is a name in the root.
pub open spec fn spec_split_parent(path: Seq<u8>) -> (Seq<u8>, Seq<u8>) {
    let p = trim_end(path, 0x2F);
    match last_index(p, 0x2F) {
        Some(i) => (p.subrange(0, i), p.subrange(i + 1, p.len() as int)),
        None => (seq![0x2Fu8], p),
    }
}

/// Split a path into parent directory and final component.
pub fn split_parent(path: &str) -> (r: (&str, &str))
    ensures
        (r.0.spec_bytes(), r.1.spec_bytes()) == spec_split_parent(path.spec_bytes()),
{
    let b = str_bytes(path);
    let k = count_kept_before_trailing(b, 0x2F);
    proof {
        lemma_trim_end(b@, 0x2F);
    }
    let (p, _) = split_str(path, k);
    let pb = str_bytes(p);
    assert(pb@ == trim_end(b@, 0x2F));
    match rfind(pb, 0x2F) {
        Some(i) => {
            proof {
                lemma_last_index(pb@, 0x2F);
            }
            let (dir, rest) = split_str(p, i);
            let (_, name) = split_str(rest, 1);
            assert(name.spec_bytes() =~= pb@.subrange(i + 1, pb@.len() as int));
            assert(dir.spec_bytes() =~= pb@.subrange(0, i as int));
            assert(last_index(pb@, 0x2F) == Some(i as int));
            (dir, name)
        },
        None => {
            proof {
                reveal_strlit("/");
                vstd::string::is_ascii_spec_bytes("/");
                assert("/".spec_bytes() =~= seq![0x2Fu8]);
                lemma_last_index(pb@, 0x2F);
            }
            ("/", p)
        },
    }
}

pub open spec fn spec_is_leap(y: int) -> bool {
    (y % 4 == 0 && y % 100 != 0) || y % 400 == 0
}

fn is_leap(y: u32) -> (r: bool)
    ensures
        r == spec_is_leap(y as int),
{
    (y % 4 == 0 && y % 100 != 0) || y % 400 == 0
}

pub open spec fn year_days(y: int) -> int {
    if spec_is_leap(y) { 366 } else { 365 }
}

/// Days from 1970-01-01 to January 1st of year `y`.
pub open spec fn days_before_year(y: int) -> int
    decreases y - 1970,
{
    if y <= 1970 { 0 } else { days_before_year(y - 1) + year_days(y - 1) }
}

/// Days in month `m` (1-based, up to 12) of year `y`.
pub open spec fn month_days(m: int, y: int) -> int {
    if m == 2 {
        if spec_is_leap(y) { 29 } else { 28 }
    } else if m == 4 || m == 6 || m == 9 || m == 11 {
        30
    } else {
        31
    }
}

/// Days in year `y` before the first of month `m`.
pub open spec fn days_before_month(m: int, y: int) -> int
    decreases m,
{
    if m <= 1 { 0 } else { days_before_month(m - 1, y) + month_days(m - 1, y) }
}

/// The Unix time a FAT date and time word pair names, taken modulo 2^32;
/// 0 for a zero month or day, and for months past 13.
pub open spec fn spec_fat_to_unix(date: u16, time: u16) -> u32 {
    let year = (date as int / 512) % 128 + 1980;
    let month = (date as int / 32) % 16;
    let day = date as int % 32;
    let hour = (time as int / 2048) % 32;
    let min = (time as int / 32) % 64;
    let sec = (time as int % 32) * 2;
    if month == 0 || day == 0 || month > 13 {
        0
    } else {
        let days = days_before_year(year) + days_before_month(month, year) + day - 1;
        ((days * 86400 + hour * 3600 + min * 60 + sec) % 0x1_0000_0000) as u32
    }
}

/// Days from 1970-01-01 to January 1st of 1980 + y: the ten years before
/// 1980 (1972 and 1976 leap), then 365 a year and one more for every
/// fourth year from 1980 on, 2100 excepted.
#[verifier::spinoff_prover]
proof fn lemma_days_since_1980(y: int)
    requires
        0 <= y < 128,
    ensures
        days_before_year(1980 + y) == 3652 + 365 * y + (y + 3) / 4 - (if y > 120 { 1int } else { 0 }),
    decreases y,
{
    if y == 0 {
        reveal_with_fuel(days_before_year, 11);
    } else {
        lemma_days_since_1980(y - 1);
        assert(days_before_year(1980 + y) == days_before_year(1980 + y - 1) + year_days(1980 + y - 1));
    }
}

/// FAT dates count their years from 1980: midnight of January 1st of year
/// 1980 + y is 1980-01-01T00:00:00Z (Unix time 315532800) plus a day's
/// seconds for every day of the years between, leap years (every fourth,
/// 2100 excepted) having 366 days; modulo 2^32.
#[verifier::spinoff_prover]
pub proof fn fat_new_year_law(y: u16)
    requires
        y < 128,
    ensures
        spec_fat_to_unix((y * 512 + 33) as u16, 0) == (315532800 + 86400 * (365 * y + (y + 3) / 4 - (if y > 120 {
            1int
        } else {
            0
        }))) % 0x1_0000_0000,
{
    let date = (y * 512 + 33) as u16;
    assert(date as int / 512 == y as int);
    assert((date as int / 32) % 16 == 1);
    assert(date as int % 32 == 1);
    lemma_days_since_1980(y as int);
    assert(days_before_month(1, 1980 + y) == 0);
}

/// The first of month m + 1 comes one month length after the first of month
/// m: 31 days, 30 for April, June, September and November, and for
/// February 29 in a leap year (every fourth year from 1980, 2100 excepted)
/// and 28 otherwise; modulo 2^32.
#[verifier::spinoff_prover]
pub proof fn fat_next_month_law(y: u16, m: u16)
    requires
        y < 128,
        1 <= m < 12,
    ensures
        spec_fat_to_unix((y * 512 + (m + 1) * 32 + 1) as u16, 0) == (spec_fat_to_unix((y * 512 + m * 32 + 1) as u16, 0)
            + 86400 * (if m == 2 {
            if y % 4 == 0 && y != 120 {
                29int
            } else {
                28
            }
        } else if m == 4 || m == 6 || m == 9 || m == 11 {
            30
        } else {
            31
        })) % 0x1_0000_0000,
{
    let d1 = (y * 512 + m * 32 + 1) as u16;
    let d2 = (y * 512 + (m + 1) * 32 + 1) as u16;
    assert(d1 as int / 512 == y && (d1 as int / 32) % 16 == m && d1 as int % 32 == 1);
    assert(d2 as int / 512 == y && (d2 as int / 32) % 16 == m + 1 && d2 as int % 32 == 1);
    let yr = 1980 + y as int;
    assert(spec_is_leap(yr) <==> (y % 4 == 0 && y != 120));
    lemma_days_before_year_bound(yr);
    lemma_days_before_month_bound(m as int, yr);
    let days = days_before_year(yr) + days_before_month(m as int, yr);
    let md = month_days(m as int, yr);
    assert(days_before_month(m + 1, yr) == days_before_month(m as int, yr) + md);
    let a = days * 86400;
    assert(a >= 0) by (nonlinear_arith)
        requires
            days >= 0,
            a == days * 86400,
    ;
    assert((days + md) * 86400 == a + 86400 * md) by (nonlinear_arith)
        requires
            a == days * 86400,
    ;
    assert(0 <= 86400 * md < 0x1_0000_0000);
    vstd::arithmetic::div_mod::lemma_add_mod_noop(a, 86400 * md, 0x1_0000_0000);
    vstd::arithmetic::div_mod::lemma_mod_twice(a, 0x1_0000_0000);
    vstd::arithmetic::div_mod::lemma_small_mod((86400 * md) as nat, 0x1_0000_0000);
}

/// The time word of a valid date adds its hours, minutes and two-second
/// units to the date's midnight; modulo 2^32.
#[verifier::spinoff_prover]
pub proof fn fat_time_law(date: u16, time: u16)
    requires
        1 <= (date as int / 32) % 16 <= 12,
        date as int % 32 != 0,
    ensures
        spec_fat_to_unix(date, time) == (spec_fat_to_unix(date, 0) + (time as int / 2048) % 32 * 3600 + (time as int / 32)
            % 64 * 60 + (time as int % 32) * 2) % 0x1_0000_0000,
{
    let year = (date as int / 512) % 128 + 1980;
    let month = (date as int / 32) % 16;
    let day = date as int % 32;
    let days = days_before_year(year) + days_before_month(month, year) + day - 1;
    let t = (time as int / 2048) % 32 * 3600 + (time as int / 32) % 64 * 60 + (time as int % 32) * 2;
    assert(((0 as int) / 2048) % 32 == 0 && ((0 as int) / 32) % 64 == 0 && (0 as int) % 32 == 0);
    lemma_days_before_year_bound(year);
    lemma_days_before_month_bound(month, year);
    assert(days * 86400 >= 0) by (nonlinear_arith)
        requires
            days >= 0,
    ;
    vstd::arithmetic::div_mod::lemma_add_mod_noop(days * 86400, t, 0x1_0000_0000);
    vstd::arithmetic::div_mod::lemma_mod_twice(days * 86400, 0x1_0000_0000);
    vstd::arithmetic::div_mod::lemma_small_mod(t as nat, 0x1_0000_0000);
}

/// The next day of the same month is a day's seconds later; modulo 2^32.
#[verifier::spinoff_prover]
pub proof fn fat_next_day_law(date: u16, time: u16)
    requires
        1 <= (date as int / 32) % 16 <= 12,
        1 <= date as int % 32 < 31,
    ensures
        spec_fat_to_unix((date + 1) as u16, time) == (spec_fat_to_unix(date, time) + 86400) % 0x1_0000_0000,
{
    let d2 = (date + 1) as u16;
    assert(d2 as int / 512 == date as int / 512);
    assert(d2 as int / 32 == date as int / 32);
    assert(d2 as int % 32 == date as int % 32 + 1);
    let year = (date as int / 512) % 128 + 1980;
    let month = (date as int / 32) % 16;
    let t = (time as int / 2048) % 32 * 3600 + (time as int / 32) % 64 * 60 + (time as int % 32) * 2;
    let days = days_before_year(year) + days_before_month(month, year) + date as int % 32 - 1;
    lemma_days_before_year_bound(year);
    lemma_days_before_month_bound(month, year);
    let a = days * 86400 + t;
    assert((days + 1) * 86400 + t == a + 86400) by (nonlinear_arith)
        requires
            a == days * 86400 + t,
    ;
    assert(a >= 0) by (nonlinear_arith)
        requires
            days >= 0,
            t >= 0,
            a == days * 86400 + t,
    ;
    vstd::arithmetic::div_mod::lemma_add_mod_noop(a, 86400, 0x1_0000_0000);
    vstd::arithmetic::div_mod::lemma_mod_twice(a, 0x1_0000_0000);
    vstd::arithmetic::div_mod::lemma_small_mod(86400, 0x1_0000_0000);
}

proof fn lemma_days_before_year_bound(y: int)
    requires
        1970 <= y,
    ensures
        365 * (y - 1970) <= days_before_year(y) <= 366 * (y - 1970),
    decreases y - 1970,
{
    if y > 1970 {
        lemma_days_before_year_bound(y - 1);
    }
}

proof fn lemma_days_before_month_bound(m: int, y: int)
    requires
        1 <= m,
    ensures
        0 <= days_before_month(m, y) <= 31 * (m - 1),
    decreases m,
{
    if m > 1 {
        lemma_days_before_month_bound(m - 1, y);
    }
}

/// Convert FAT date and time words to a Unix timestamp; seconds have a
/// two-second resolution.
fn fat_to_unix(date: u16, time: u16) -> (r: u32)
    ensures
        r == spec_fat_to_unix(date, time),
{
    let year = ((date / 512) % 128) as u32 + 1980;
    let month = ((date / 32) % 16) as u32;
    let day = (date % 32) as u32;
    let hour = ((time / 2048) % 32) as u32;
    let min = ((time / 32) % 64) as u32;
    let sec = (time % 32) as u32 * 2;
    if month == 0 || day == 0 || month > 13 {
        return 0;
    }
    let mut days: u64 = 0;
    let mut y: u32 = 1970;
    while y < year
        invariant
            1970 <= y <= year,
            year <= 2107,
            days == days_before_year(y as int),
        decreases year - y,
    {
        proof {
            lemma_days_before_year_bound(y as int);
        }
        days = days + if is_leap(y) { 366 } else { 365 };
        y = y + 1;
    }
    proof {
        lemma_days_before_year_bound(year as int);
    }
    let mut m: u32 = 1;
    let ghost base = days;
    while m < month
        invariant
            1 <= m <= month,
            month <= 13,
            year <= 2107,
            base == days_before_year(year as int),
            base <= 366 * 137,
            days == base + days_before_month(m as int, year as int),
        decreases month - m,
    {
        proof {
            lemma_days_before_month_bound(m as int, year as int);
        }
        let md: u64 = if m == 2 {
            if is_leap(year) { 29 } else { 28 }
        } else if m == 4 || m == 6 || m == 9 || m == 11 {
            30
        } else {
            31
        };
        days = days + md;
        m = m + 1;
    }
    proof {
        lemma_days_before_year_bound(year as int);
        lemma_days_before_month_bound(month as int, year as int);
    }
    days = days + day as u64 - 1;
    let t: u64 = days * 86400 + hour as u64 * 3600 + min as u64 * 60 + sec as u64;
    (t % 0x1_0000_0000) as u32
}

/// Unix time of a 4-byte ExFAT timestamp: FAT date in the high half,
/// FAT time in the low half. Fewer than 4 bytes give 0.
fn exfat_timestamp(ts: &[u8]) -> (r: u32)
    ensures
        r == (if ts@.len() < 4 { 0 } else {
            spec_fat_to_unix((le32(ts@, 0) / 0x1_0000) as u16, (le32(ts@, 0) % 0x1_0000) as u16)
        }),
{
    if ts.len() < 4 {
        return 0;
    }
    let v = rd_le32(ts, 0);
    fat_to_unix((v / 0x1_0000) as u16, (v % 0x1_0000) as u16)
}

/// Rotate a 16-bit value right by one bit, then add `b`, wrapping.
pub open spec fn rot16_add(h: u16, b: int) -> u16 {
    ((h / 2 + (h % 2) * 0x8000 + b) % 0x1_0000) as u16
}

/// ASCII upper-casing of one UCS-2 unit.
pub open spec fn upper16(c: u16) -> u16 {
    if 0x61 <= c <= 0x7A { (c - 0x20) as u16 } else { c }
}

/// ExFAT name hash over the up-cased units, low byte then high byte.
pub open spec fn name_hash(s: Seq<u16>) -> u16
    decreases s.len(),
{
    if s.len() == 0 {
        0
    } else {
        let up = upper16(s.last());
        rot16_add(rot16_add(name_hash(s.drop_last()), up as int % 0x100), up as int / 0x100)
    }
}

fn exfat_name_hash(name: &[u16]) -> (r: u16)
    ensures
        r == name_hash(name@),
{
    let mut h: u16 = 0;
    let mut i: usize = 0;
    while i < name.len()
        invariant
            i <= name@.len(),
            h == name_hash(name@.subrange(0, i as int)),
        decreases name@.len() - i,
    {
        assert(name@.subrange(0, i + 1).drop_last() =~= name@.subrange(0, i as int));
        let cp = name[i];
        let up = if 0x61 <= cp && cp <= 0x7A { cp - 0x20 } else { cp };
        h = (((h / 2 + (h % 2) * 0x8000) as u32 + (up % 0x100) as u32) % 0x1_0000) as u16;
        h = (((h / 2 + (h % 2) * 0x8000) as u32 + (up / 0x100) as u32) % 0x1_0000) as u16;
        i = i + 1;
    }
    assert(name@.subrange(0, i as int) =~= name@);
    h
}


/// ExFAT entry-set checksum over the first `t` bytes of the set, skipping
/// bytes 2 and 3 of the primary entry (where the checksum lives).
pub open spec fn set_sum(e: Seq<[u8; 32]>, t: int) -> u16
    decreases t,
{
    if t <= 0 {
        0
    } else {
        let k = t - 1;
        if k == 2 || k == 3 { set_sum(e, k) } else { rot16_add(set_sum(e, k), e[k / 32][k % 32] as int) }
    }
}

fn exfat_set_checksum(entries: &[[u8; 32]]) -> (r: u16)
    requires
        entries@.len() * 32 <= usize::MAX,
    ensures
        r == set_sum(entries@, 32 * entries@.len() as int),
{
    let total = entries.len() * 32;
    let mut sum: u16 = 0;
    let mut t: usize = 0;
    while t < total
        invariant
            total == 32 * entries@.len(),
            t <= total,
            sum == set_sum(entries@, t as int),
        decreases total - t,
    {
        if t != 2 && t != 3 {
            let b = entries[t / 32][t % 32];
            sum = (((sum / 2 + (sum % 2) * 0x8000) as u32 + b as u32) % 0x1_0000) as u16;
        }
        t = t + 1;
    }
    sum
}

// ─── Directory entries ───────────────────────────────────────────────────────

/// Position of one 32-byte entry in a directory's cluster chain.
#[derive(Clone, Copy, PartialEq, Eq, Structural)]
pub struct EntryPos {
    pub clus: u32,
    /// Sector within the cluster.
    pub sec: usize,
    /// 32-byte slot within the sector.
    pub slot: usize,
}

/// One decoded directory entry (file or subdirectory).
pub struct EntryInfo {
    pub cluster: u32,
    pub size: u64,
    pub is_dir: bool,
    pub readonly: bool,
    pub hidden: bool,
    pub mtime: u32,
    pub name: [u8; 256],
    pub name_len: usize,
}

/// What a directory entry says, with its name as bytes.
pub struct DirEntry {
    pub cluster: u32,
    pub size: u64,
    pub is_dir: bool,
    pub readonly: bool,
    pub hidden: bool,
    pub mtime: u32,
    pub name: Seq<u8>,
    /// Where its entry set starts (the first long-name entry, if any).
    pub first: EntryPos,
    /// Where its short (or ExFAT primary) entry is.
    pub pos: EntryPos,
}

/// `a` followed by `b`, unless `b` failed.
pub open spec fn opt_cat(a: Seq<DirEntry>, b: Option<Seq<DirEntry>>) -> Option<Seq<DirEntry>> {
    match b {
        Some(x) => Some(a + x),
        None => None,
    }
}

pub open spec fn opt_bytes(t: Option<&[u8]>) -> Option<Seq<u8>> {
    match t {
        Some(x) => Some(x@),
        None => None,
    }
}

/// Copy the 32-byte entry at byte `off` of a sector.
fn copy_entry(sec: &[u8; 512], off: usize) -> (e: [u8; 32])
    requires
        off + 32 <= 512,
    ensures
        e@ == sec@.subrange(off as int, off + 32),
{
    let mut e = [0u8; 32];
    let mut i: usize = 0;
    while i < 32
        invariant
            off + 32 <= 512,
            i <= 32,
            forall|j: int| 0 <= j < i ==> e@[j] == sec@[off + j],
        decreases 32 - i,
    {
        e[i] = sec[off + i];
        i = i + 1;
    }
    assert(e@ =~= sec@.subrange(off as int, off + 32));
    e
}

/// A decoded entry together with where its entries lie.
pub struct Found {
    pub info: EntryInfo,
    pub first: EntryPos,
    pub pos: EntryPos,
}

impl View for Found {
    type V = DirEntry;

    open spec fn view(&self) -> DirEntry {
        DirEntry {
            cluster: self.info.cluster,
            size: self.info.size,
            is_dir: self.info.is_dir,
            readonly: self.info.readonly,
            hidden: self.info.hidden,
            mtime: self.info.mtime,
            name: self.info.name@.subrange(0, self.info.name_len as int),
            first: self.first,
            pos: self.pos,
        }
    }
}

pub open spec fn founds_view(v: Seq<Found>) -> Seq<DirEntry> {
    Seq::new(v.len(), |i: int| v[i]@)
}

/// Long-name entries collected so far while reading a FAT32 directory.
pub struct LfnSt {
    pub parts: Seq<Seq<u16>>,
    pub count: int,
    pub csum: u8,
    pub start: EntryPos,
    pub has_start: bool,
}

/// What one raw FAT32 entry does to a directory read.
pub enum Step32 {
    /// The end-of-directory marker.
    End,
    /// An entry that names no file; the long-name state moves on.
    Skip(LfnSt),
    /// A file or directory entry.
    Emit(DirEntry, LfnSt),
}

pub open spec fn lfn_reset(st: LfnSt) -> LfnSt {
    LfnSt { count: 0, has_start: false, ..st }
}

/// The 13 characters of a long-name entry.
pub open spec fn lfn_chars(e: Seq<u8>) -> Seq<u16> {
    Seq::new(13, |k: int| le16(e, lfn_off(k)) as u16)
}

/// The entry a short (8.3) directory entry describes, given the long-name
/// entries before it.
pub open spec fn short_entry(st: LfnSt, e: Seq<u8>, cur: EntryPos) -> DirEntry {
    let attr = e[11];
    let use_lfn = st.count > 0 && st.has_start && st.csum == sfn_sum(e.subrange(0, 11));
    DirEntry {
        cluster: entry_cluster(e) as u32,
        size: le32(e, 28) as u64,
        is_dir: attr & 0x10 != 0,
        readonly: attr & 0x01 != 0,
        hidden: attr & 0x02 != 0,
        mtime: spec_fat_to_unix(le16(e, 24) as u16, le16(e, 22) as u16),
        name: if use_lfn { lfn_enc(lfn_flat(st.parts, st.count), 0, Seq::empty()) } else { sfn_name(e) },
        first: if st.has_start { st.start } else { cur },
        pos: cur,
    }
}

/// One raw 32-byte FAT32 entry read at `cur`.
pub open spec fn step32(st: LfnSt, e: Seq<u8>, cur: EntryPos) -> Step32 {
    if e[0] == 0 {
        Step32::End
    } else if e[0] == 0xE5 {
        Step32::Skip(lfn_reset(st))
    } else if e[11] == 0x0F {
        let sq = e[0] & 0x3F;
        if sq == 0 || sq > 20 {
            Step32::Skip(lfn_reset(st))
        } else {
            let st2 = if e[0] & 0x40 != 0 {
                LfnSt { count: sq as int, csum: e[13], start: cur, has_start: true, ..st }
            } else {
                st
            };
            Step32::Skip(LfnSt { parts: st2.parts.update(sq - 1, lfn_chars(e)), ..st2 })
        }
    } else if e[11] & 0x08 != 0 {
        Step32::Skip(lfn_reset(st))
    } else {
        Step32::Emit(short_entry(st, e, cur), lfn_reset(st))
    }
}


/// The UTF-8 bytes of an ExFAT name: each unit's encoding is appended
/// while it still fits in 256 bytes, and skipped otherwise.
pub open spec fn utf8_fit(units: Seq<u16>) -> Seq<u8>
    decreases units.len(),
{
    if units.len() == 0 {
        Seq::empty()
    } else {
        let p = utf8_fit(units.drop_last());
        let u = utf8_units(units.last());
        if 256 - p.len() >= u.len() { p + u } else { p }
    }
}

/// `name` extended by the characters of ExFAT name entry `se` from
/// character `j` on: up to the first NUL, and to 255 characters in all.
pub open spec fn add_name_units(name: Seq<u16>, se: Seq<u8>, j: int) -> Seq<u16>
    decreases 15 - j,
{
    if j >= 15 || j < 0 || name.len() >= 255 || le16(se, 2 + 2 * j) == 0 {
        name
    } else {
        add_name_units(name.push(le16(se, 2 + 2 * j) as u16), se, j + 1)
    }
}

/// What the secondary entries of an ExFAT file entry set say.
pub struct XAcc {
    pub cluster: u32,
    pub size: u64,
    pub name: Seq<u16>,
}

/// Fold one secondary entry into `a`.
pub open spec fn x_secondary(a: XAcc, se: Seq<u8>) -> XAcc {
    if se[0] == 0xC0 {
        XAcc { cluster: le32(se, 20) as u32, size: le64(se, 24) as u64, ..a }
    } else if se[0] == 0xC1 {
        XAcc { name: add_name_units(a.name, se, 0), ..a }
    } else {
        a
    }
}

/// The entry an ExFAT file entry `e` at `p` describes, given what its
/// secondary entries say.
pub open spec fn x_entry(a: XAcc, e: Seq<u8>, p: EntryPos) -> DirEntry {
    let attr = le16(e, 4) as u16;
    DirEntry {
        cluster: a.cluster,
        size: a.size,
        is_dir: attr & 0x10 != 0,
        readonly: attr & 0x01 != 0,
        hidden: attr & 0x02 != 0,
        mtime: spec_fat_to_unix((le32(e, 8) / 0x1_0000) as u16, (le32(e, 8) % 0x1_0000) as u16),
        name: utf8_fit(a.name),
        first: p,
        pos: p,
    }
}

/// What reading the raw entry at a given index of an ExFAT directory gives.
pub enum RawRead {
    Entry(Seq<u8>),
    /// The cluster chain has ended.
    EndChain,
    /// The chain has more links than the volume has clusters.
    Cyclic,
}

/// The FAT entry of cluster `c` lies within one 512-byte sector.
proof fn lemma_fat_offset(c: int)
    requires
        c >= 0,
    ensures
        (c * 4) % 512 == 4 * (c % 128),
        (c * 4) % 512 <= 508,
        (c * 4) / 512 == c / 128,
{
    lemma_fundamental_div_mod(c, 128);
    lemma_fundamental_div_mod_converse(c * 4, 512, c / 128, 4 * (c % 128));
}

proof fn lemma_div_lt(n: int, d: int, f: int)
    requires
        d > 0,
        n >= 0,
        n / d <= f,
    ensures
        n < (f + 1) * d,
{
    lemma_fundamental_div_mod(n, d);
    let q = n / d;
    let r = n % d;
    assert(n < (f + 1) * d) by (nonlinear_arith)
        requires
            n == d * q + r,
            0 <= r < d,
            q <= f,
    ;
}

proof fn lemma_div_ge(n: int, d: int, f: int)
    requires
        d > 0,
        n >= (f + 1) * d,
        f >= 0,
    ensures
        n / d > f,
{
    lemma_fundamental_div_mod(n, d);
    let q = n / d;
    let r = n % d;
    assert(q > f) by (nonlinear_arith)
        requires
            n == d * q + r,
            0 <= r < d,
            n >= (f + 1) * d,
    ;
}

/// Moving `j` bytes forward inside one 512-byte sector of a cluster of
/// `bpc = 512 * spc` bytes.
proof fn lemma_in_sector(pos: int, spc: int, j: int)
    requires
        spc >= 1,
        pos >= 0,
        j >= 0,
        (pos % (512 * spc)) % 512 + j < 512,
    ensures
        (pos + j) / (512 * spc) == pos / (512 * spc),
        (pos + j) % (512 * spc) == pos % (512 * spc) + j,
        ((pos + j) % (512 * spc)) / 512 == (pos % (512 * spc)) / 512,
        ((pos + j) % (512 * spc)) % 512 == (pos % (512 * spc)) % 512 + j,
{
    let d = 512 * spc;
    lemma_fundamental_div_mod(pos, d);
    let q = pos / d;
    let r = pos % d;
    lemma_fundamental_div_mod(r, 512);
    let a = r / 512;
    let o = r % 512;
    assert(a < spc) by (nonlinear_arith)
        requires
            r == 512 * a + o,
            0 <= o < 512,
            0 <= r < 512 * spc,
    ;
    assert(r + j < d) by (nonlinear_arith)
        requires
            r == 512 * a + o,
            o + j < 512,
            a < spc,
            d == 512 * spc,
    ;
    assert(pos + j == q * d + (r + j)) by (nonlinear_arith)
        requires
            pos == d * q + r,
    ;
    lemma_fundamental_div_mod_converse(pos + j, d, q, r + j);
    lemma_fundamental_div_mod_converse(r + j, 512, a, o + j);
}

/// Moving to the next cluster boundary.
proof fn lemma_to_boundary(pos: int, d: int, j: int)
    requires
        d > 0,
        pos >= 0,
        pos % d + j == d,
    ensures
        (pos + j) / d == pos / d + 1,
        (pos + j) % d == 0,
{
    lemma_fundamental_div_mod(pos, d);
    let q = pos / d;
    assert(pos + j == (q + 1) * d + 0) by (nonlinear_arith)
        requires
            pos == d * q + (pos % d),
            pos % d + j == d,
    ;
    lemma_fundamental_div_mod_converse(pos + j, d, q + 1, 0);
}

/// Moving forward inside a cluster.
proof fn lemma_within(pos: int, d: int, j: int)
    requires
        d > 0,
        pos >= 0,
        j >= 0,
        pos % d + j < d,
    ensures
        (pos + j) / d == pos / d,
        (pos + j) % d == pos % d + j,
{
    lemma_fundamental_div_mod(pos, d);
    let q = pos / d;
    let r = pos % d;
    assert(pos + j == q * d + (r + j)) by (nonlinear_arith)
        requires
            pos == d * q + r,
    ;
    lemma_fundamental_div_mod_converse(pos + j, d, q, r + j);
}

proof fn lemma_div_mono(a: int, b: int, d: int)
    requires
        d > 0,
        0 <= a <= b,
    ensures
        a / d <= b / d,
{
    vstd::arithmetic::div_mod::lemma_div_is_ordered(a, b, d);
}

proof fn lemma_div_pred(x: int, d: int)
    requires
        d > 0,
        x >= 1,
    ensures
        (x - 1) / d + 1 >= x / d,
{
    lemma_fundamental_div_mod(x, d);
    lemma_fundamental_div_mod(x - 1, d);
    let q = x / d;
    let r = x % d;
    let q1 = (x - 1) / d;
    let r1 = (x - 1) % d;
    assert(q1 + 1 >= q) by (nonlinear_arith)
        requires
            x == d * q + r,
            x - 1 == d * q1 + r1,
            0 <= r < d,
            0 <= r1 < d,
    ;
}

proof fn lemma_step_same(n: int, d: int)
    requires
        d > 0,
        n >= 0,
        n % d + 1 < d,
    ensures
        (n + 1) / d == n / d,
        (n + 1) % d == n % d + 1,
{
    lemma_fundamental_div_mod(n, d);
    let q = n / d;
    let r = n % d;
    assert(n + 1 == q * d + (r + 1)) by (nonlinear_arith)
        requires
            n == d * q + r,
    ;
    lemma_fundamental_div_mod_converse(n + 1, d, q, r + 1);
}

proof fn lemma_step_next(n: int, d: int)
    requires
        d > 0,
        n >= 0,
        n % d + 1 == d,
    ensures
        (n + 1) / d == n / d + 1,
        (n + 1) % d == 0,
{
    lemma_fundamental_div_mod(n, d);
    let q = n / d;
    assert(n + 1 == (q + 1) * d + 0) by (nonlinear_arith)
        requires
            n == d * q + (d - 1),
    ;
    lemma_fundamental_div_mod_converse(n + 1, d, q + 1, 0);
}

/// The secondary entries of an ExFAT entry set read so far.
struct XAccum {
    cluster: u32,
    size: u64,
    name: [u16; 256],
    len: usize,
}

impl XAccum {
    spec fn view_acc(&self) -> XAcc {
        XAcc { cluster: self.cluster, size: self.size, name: self.name@.subrange(0, self.len as int) }
    }

    /// Fold one secondary entry in.
    fn add(&mut self, se: &[u8; 32])
        requires
            old(self).len <= 255,
        ensures
            final(self).len <= 255,
            final(self).view_acc() == x_secondary(old(self).view_acc(), se@),
    {
        let sl = se.as_slice();
        if se[0] == 0xC0 {
            self.cluster = rd_le32(sl, 20);
            self.size = rd_le64(sl, 24);
        } else if se[0] == 0xC1 {
            let ghost name0 = self.view_acc().name;
            let ghost c0 = self.cluster;
            let ghost z0 = self.size;
            let mut j: usize = 0;
            let mut stop = false;
            while j < 15 && !stop
                invariant
                    self.len <= 255,
                    j <= 15,
                    se@.len() == 32,
                    sl@ == se@,
                    self.cluster == c0,
                    self.size == z0,
                    self.view_acc().name.len() == self.len,
                    add_name_units(name0, se@, 0) == (if stop { self.view_acc().name } else { add_name_units(self.view_acc().name, se@, j as int) }),
                decreases 15 - j, (if stop { 0int } else { 1int }),
            {
                if self.len >= 255 {
                    stop = true;
                } else {
                    let ch = rd_le16(sl, 2 + 2 * j);
                    if ch == 0 {
                        stop = true;
                    } else {
                        let ghost before = self.view_acc().name;
                        assert(add_name_units(before, se@, j as int) == add_name_units(before.push(ch), se@, j + 1));
                        self.name[self.len] = ch;
                        self.len = self.len + 1;
                        assert(self.view_acc().name =~= before.push(ch));
                        j = j + 1;
                    }
                }
            }
            proof {
                if !stop {
                    assert(add_name_units(self.view_acc().name, se@, 15) == self.view_acc().name);
                }
            }
        }
    }

    /// The name as UTF-8 in `out`; returns its length.
    fn to_utf8(&self, out: &mut [u8; 256]) -> (n: usize)
        requires
            self.len <= 255,
        ensures
            n <= 256,
            final(out)@.subrange(0, n as int) == utf8_fit(self.view_acc().name),
    {
        let ghost units = self.view_acc().name;
        let mut nl: usize = 0;
        let mut i: usize = 0;
        assert(out@.subrange(0, 0) =~= utf8_fit(units.subrange(0, 0)));
        while i < self.len
            invariant
                self.len <= 255,
                units == self.name@.subrange(0, self.len as int),
                i <= self.len,
                nl <= 256,
                out@.len() == 256,
                out@.subrange(0, nl as int) == utf8_fit(units.subrange(0, i as int)),
            decreases self.len - i,
        {
            let ghost before = out@;
            let ghost p = before.subrange(0, nl as int);
            let cp = self.name[i];
            assert(units.subrange(0, i + 1).drop_last() =~= units.subrange(0, i as int));
            assert(units.subrange(0, i + 1).last() == cp);
            let w = ucs2_to_utf8(cp, out, nl);
            proof {
                if w > 0 {
                    assert(utf8_units(cp).subrange(0, w as int) =~= utf8_units(cp));
                    assert forall|k: int| 0 <= k < nl + w implies out@[k] == (p + utf8_units(cp))[k] by {
                        if k >= nl {
                            assert(out@.subrange(nl as int, nl + w)[k - nl] == out@[k]);
                        }
                    }
                    assert(out@.subrange(0, nl + w) =~= p + utf8_units(cp));
                } else {
                    assert(out@.subrange(0, nl as int) =~= p);
                }
            }
            nl = nl + w;
            i = i + 1;
        }
        assert(units.subrange(0, i as int) =~= units);
        nl
    }
}

/// `m` describes directory entry `d`: its fields, and its name stored
/// NUL-padded.
pub open spec fn meta_is(m: Metadata, d: DirEntry) -> bool {
    &&& m.size == d.size
    &&& m.is_dir == d.is_dir
    &&& m.readonly == d.readonly
    &&& m.hidden == d.hidden
    &&& m.mtime == d.mtime
    &&& d.name.len() <= 256
    &&& m.name@.subrange(0, d.name.len() as int) == d.name
    &&& forall|k: int| d.name.len() <= k < 256 ==> m.name@[k] == 0
}

/// The last component of `path`: what follows its last `/`.
pub open spec fn last_component(path: Seq<u8>) -> Seq<u8> {
    match last_index(path, 0x2F) {
        Some(i) => path.subrange(i + 1, path.len() as int),
        None => path,
    }
}

/// The last component of `path`.
pub fn last_comp(path: &str) -> (r: &str)
    ensures
        r.spec_bytes() == last_component(path.spec_bytes()),
{
    let pb = str_bytes(path);
    match rfind(pb, 0x2F) {
        Some(i) => {
            proof {
                lemma_last_index(pb@, 0x2F);
            }
            let _len = pb.len();
            assert(pb@ == path.spec_bytes());
            assert(pb@[i as int] == 0x2F);
            let (_, t) = split_str(path, i);
            assert(t.spec_bytes()[0] == 0x2F);
            let (_, n) = split_str(t, 1);
            assert(n.spec_bytes() =~= pb@.subrange(i + 1, pb@.len() as int));
            n
        },
        None => path,
    }
}

/// Metadata for a decoded entry.
fn meta_from(f: &Found) -> (m: Metadata)
    requires
        f.info.name_len <= 256,
    ensures
        meta_is(m, f@),
{
    let mut m = Metadata::zeroed();
    m.is_dir = f.info.is_dir;
    m.readonly = f.info.readonly;
    m.hidden = f.info.hidden;
    m.size = f.info.size;
    m.mtime = f.info.mtime;
    let n = f.info.name_len;
    let mut i: usize = 0;
    while i < n
        invariant
            n == f.info.name_len,
            n <= 256,
            i <= n,
            forall|k: int| 0 <= k < i ==> m.name@[k] == f.info.name@[k],
            forall|k: int| i <= k < 256 ==> m.name@[k] == 0,
            m.size == f.info.size,
            m.is_dir == f.info.is_dir,
            m.readonly == f.info.readonly,
            m.hidden == f.info.hidden,
            m.mtime == f.info.mtime,
        decreases n - i,
    {
        m.name[i] = f.info.name[i];
        i = i + 1;
    }
    assert(m.name@.subrange(0, n as int) =~= f@.name);
    m
}

/// Long-name state of a FAT32 directory read.
struct LfnState {
    parts: [[u16; 13]; 20],
    count: usize,
    csum: u8,
    start: EntryPos,
    has_start: bool,
}

impl View for LfnState {
    type V = LfnSt;

    closed spec fn view(&self) -> LfnSt {
        LfnSt {
            parts: parts_view(self.parts@),
            count: self.count as int,
            csum: self.csum,
            start: self.start,
            has_start: self.has_start,
        }
    }
}

/// The state a FAT32 directory read starts from.
pub open spec fn lfn_init(st: LfnSt) -> bool {
    &&& st.count == 0
    &&& !st.has_start
    &&& st.parts.len() == 20
    &&& forall|i: int| 0 <= i < 20 ==> #[trigger] st.parts[i].len() == 13
}

/// The long-name state a FAT32 directory read starts in.
pub open spec fn lfn_start() -> LfnSt {
    LfnSt {
        parts: Seq::new(20, |i: int| Seq::new(13, |k: int| 0u16)),
        count: 0,
        csum: 0,
        start: EntryPos { clus: 0, sec: 0, slot: 0 },
        has_start: false,
    }
}

/// Invariant of the long-name state.
pub open spec fn lfn_ok(st: LfnSt) -> bool {
    &&& 0 <= st.count <= 20
    &&& st.parts.len() == 20
    &&& forall|i: int| 0 <= i < 20 ==> #[trigger] st.parts[i].len() == 13
}

enum StepOut {
    End,
    Skip,
    Emit(Found),
}

impl LfnState {
    fn new() -> (s: Self)
        ensures
            s@ == lfn_start(),
            lfn_ok(s@),
    {
        let s = LfnState {
            parts: [[0u16; 13]; 20],
            count: 0,
            csum: 0,
            start: EntryPos { clus: 0, sec: 0, slot: 0 },
            has_start: false,
        };
        assert(s@.parts =~= lfn_start().parts) by {
            assert forall|i: int| 0 <= i < 20 implies s@.parts[i] =~= Seq::new(13, |k: int| 0u16) by {}
        }
        s
    }

    fn reset(&mut self)
        ensures
            final(self)@ == lfn_reset(old(self)@),
    {
        self.count = 0;
        self.has_start = false;
    }

    /// Feed one raw entry read at `cur`.
    fn step(&mut self, e: &[u8; 32], cur: EntryPos) -> (r: StepOut)
        requires
            lfn_ok(old(self)@),
        ensures
            lfn_ok(final(self)@),
            match step32(old(self)@, e@, cur) {
                Step32::End => r is End,
                Step32::Skip(st) => r is Skip && final(self)@ == st,
                Step32::Emit(d, st) => r matches StepOut::Emit(f) && f@ == d && f.info.name_len < 256
                    && final(self)@ == st,
            },
    {
        if e[0] == 0 {
            return StepOut::End;
        }
        if e[0] == 0xE5 {
            self.reset();
            return StepOut::Skip;
        }
        if e[11] == 0x0F {
            let sq = e[0] & 0x3F;
            if sq == 0 || sq > 20 {
                self.reset();
                return StepOut::Skip;
            }
            if e[0] & 0x40 != 0 {
                self.count = sq as usize;
                self.csum = e[13];
                self.start = cur;
                self.has_start = true;
            }
            let ghost before = self@;
            let chars = extract_lfn_chars(e);
            assert(chars@ =~= lfn_chars(e@));
            self.parts[(sq - 1) as usize] = chars;
            assert(self@.parts =~= before.parts.update(sq - 1, lfn_chars(e@)));
            return StepOut::Skip;
        }
        let attr = e[11];
        if attr & 0x08 != 0 {
            self.reset();
            return StepOut::Skip;
        }
        let (head, _) = e.as_slice().split_at(11);
        let csum = sfn_checksum(head);
        assert(head@ == e@.subrange(0, 11));
        let use_lfn = self.count > 0 && self.has_start && self.csum == csum;
        let mut name = [0u8; 256];
        let name_len = if use_lfn {
            assemble_lfn(self.parts.as_slice(), self.count, &mut name)
        } else {
            assemble_sfn(e, &mut name)
        };
        let first = if self.has_start { self.start } else { cur };
        let sl = e.as_slice();
        let info = EntryInfo {
            cluster: fat32_entry_cluster(e),
            size: rd_le32(sl, 28) as u64,
            is_dir: attr & 0x10 != 0,
            readonly: attr & 0x01 != 0,
            hidden: attr & 0x02 != 0,
            mtime: fat_to_unix(rd_le16(sl, 24), rd_le16(sl, 22)),
            name,
            name_len,
        };
        self.reset();
        StepOut::Emit(Found { info, first, pos: cur })
    }
}

pub const FAT32_NAME_MAX: usize = 255;

/// The FAT word left where word `w` stood when an entry is set to `v`:
/// the reserved top four bits of `w` and the low 28 bits of `v`.
pub open spec fn fat_word(w: u32, v: u32) -> u32 {
    (w & 0xF000_0000) | (v & 0x0FFF_FFFF)
}

/// Sector image `s` with the FAT word at byte `o` set to `v`.
pub open spec fn with_fat_word(s: Seq<u8>, o: int, v: u32) -> Seq<u8> {
    splice(s, o, le32_bytes(fat_word(le32(s, o) as u32, v)))
}

/// The word at `o` after storing the bytes of `n` there is `n`.
proof fn lemma_le32_stored(s: Seq<u8>, o: int, n: u32)
    requires
        0 <= o,
        o + 4 <= s.len(),
    ensures
        le32(splice(s, o, le32_bytes(n)), o) == n,
        splice(s, o, le32_bytes(n)).len() == s.len(),
{
    let b = le32_bytes(n);
    let s1 = splice(s, o, b);
    lemma_le32_round(n);
    assert(s1[o] == b[0] && s1[o + 1] == b[1] && s1[o + 2] == b[2] && s1[o + 3] == b[3]);
}

/// Setting the same FAT word twice is setting it once.
proof fn lemma_fat_word_again(s: Seq<u8>, o: int, v: u32)
    requires
        0 <= o,
        o + 4 <= s.len(),
    ensures
        with_fat_word(with_fat_word(s, o, v), o, v) == with_fat_word(s, o, v),
        le32(with_fat_word(s, o, v), o) == fat_word(le32(s, o) as u32, v),
{
    let w = le32(s, o) as u32;
    let n = fat_word(w, v);
    let s1 = splice(s, o, le32_bytes(n));
    lemma_le32_stored(s, o, n);
    assert(fat_word(n, v) == n) by (bit_vector)
        requires
            n == (w & 0xF000_0000) | (v & 0x0FFF_FFFF),
    ;
    assert(le32(s1, o) as u32 == n);
    assert(splice(s1, o, le32_bytes(n)) =~= s1);
}

/// A mounted FAT32 or ExFAT volume.
pub struct FatVolume<D: BlockDev> {
    dev: D,
    pub geom: FatGeom,
}

impl<D: BlockDev> FatVolume<D> {
    /// The device the volume lives on.
    pub closed spec fn spec_dev(&self) -> D {
        self.dev
    }

    /// The volume's geometry.
    pub closed spec fn spec_geom(&self) -> FatGeom {
        self.geom
    }

    /// A volume this driver can work with: a well-formed geometry with
    /// 512-byte sectors on a device of 512-byte sectors.
    pub open spec fn wf(&self) -> bool {
        &&& self.spec_geom().wf()
        &&& self.spec_geom().bytes_per_sec == 512
        &&& self.spec_dev().sector_len() == 512
    }

    /// Contents of device sector `lba`.
    pub open spec fn sector(&self, lba: int) -> Seq<u8> {
        self.spec_dev().sector(lba)
    }

    /// The 28-bit FAT entry of cluster `c`.
    pub open spec fn fat_entry(&self, c: u32) -> u32 {
        (le32(self.sector(self.spec_geom().fat_lba + (c * 4) / 512), (c * 4) % 512) % 0x1000_0000) as u32
    }

    /// The cluster after `c` in its chain; `FAT_EOC` at the end of a chain.
    pub open spec fn next_of(&self, c: u32) -> u32 {
        if self.fat_entry(c) >= FAT_EOC_MIN { FAT_EOC } else { self.fat_entry(c) }
    }

    /// First sector of cluster `c`.
    pub open spec fn clus_lba(&self, c: u32) -> int {
        self.spec_geom().data_lba + (c - 2) * self.spec_geom().secs_per_clus
    }

    /// Directory entries per cluster.
    pub open spec fn epc(&self) -> int {
        self.spec_geom().secs_per_clus * 16
    }

    /// Raw entry `k` of cluster `c`.
    pub open spec fn dir_entry(&self, c: u32, k: int) -> Seq<u8> {
        self.sector(self.clus_lba(c) + k / 16).subrange((k % 16) * 32, (k % 16) * 32 + 32)
    }

    /// Whether `c` names a cluster of a chain (rather than its end).
    pub open spec fn in_chain(c: u32) -> bool {
        2 <= c < FAT_EOC_MIN
    }

    /// The entries a FAT32 directory read yields from entry `k` of cluster
    /// `clus` on, with long-name state `st`, following at most `fuel` more
    /// links of the chain and stopping after the first entry named `target`
    /// (ignoring case). `None` when the chain is longer than `fuel` allows.
    pub open spec fn walk32(&self, clus: u32, k: int, st: LfnSt, fuel: nat, target: Option<Seq<u8>>) -> Option<Seq<DirEntry>>
        decreases fuel, self.epc() - k,
    {
        if !Self::in_chain(clus) || k < 0 {
            Some(Seq::empty())
        } else if k >= self.epc() {
            if fuel == 0 {
                None
            } else {
                self.walk32(self.next_of(clus), 0, st, (fuel - 1) as nat, target)
            }
        } else {
            let cur = EntryPos { clus, sec: (k / 16) as usize, slot: (k % 16) as usize };
            match step32(st, self.dir_entry(clus, k), cur) {
                Step32::End => Some(Seq::empty()),
                Step32::Skip(st2) => self.walk32(clus, k + 1, st2, fuel, target),
                Step32::Emit(d, st2) => {
                    if target matches Some(t) && eq_ci(d.name, t) {
                        Some(seq![d])
                    } else {
                        match self.walk32(clus, k + 1, st2, fuel, target) {
                            Some(rest) => Some(seq![d] + rest),
                            None => None,
                        }
                    }
                },
            }
        }
    }

    /// Kind of the volume.
    pub fn kind(&self) -> (r: FatKind)
        ensures
            r == self.spec_geom().kind,
    {
        self.geom.kind
    }

    /// `"FAT32"` or `"ExFAT"`.
    pub fn kind_str(&self) -> (r: &'static str)
        ensures
            r@ == (if self.spec_geom().kind == FatKind::Fat32 { "FAT32"@ } else { "ExFAT"@ }),
    {
        match self.geom.kind {
            FatKind::Fat32 => "FAT32",
            FatKind::ExFat => "ExFAT",
        }
    }

    fn read_sec(&self, lba: u64, buf: &mut [u8; 512]) -> (r: Result<()>)
        requires
            self.wf(),
        ensures
            r is Ok ==> final(buf)@ == self.sector(lba as int),
    {
        let r = self.dev.read_sector(lba, buf);
        proof {
            if r is Ok {
                assert(buf@ =~= buf@.subrange(0, 512));
            }
        }
        r
    }

    /// The cluster after `cluster` in its chain, or `FAT_EOC`.
    pub fn fat_next(&self, cluster: u32) -> (r: Result<u32>)
        requires
            self.wf(),
        ensures
            r is Ok ==> r == Ok::<u32, FsError>(self.next_of(cluster)),
    {
        let byte = cluster as u64 * 4;
        proof {
            lemma_fat_offset(cluster as int);
        }
        let mut sec = [0u8; 512];
        self.read_sec(self.geom.fat_lba + byte / 512, &mut sec)?;
        let o = (byte % 512) as usize;
        let e = rd_le32(sec.as_slice(), o) % 0x1000_0000;
        Ok(if e >= FAT_EOC_MIN { FAT_EOC } else { e })
    }

    /// Sector of copy `k` of the FAT that holds the entry of cluster `c`.
    pub open spec fn fat_sec(&self, k: int, c: u32) -> int {
        self.spec_geom().fat_lba + k * self.spec_geom().fat_size_secs + (c * 4) / 512
    }

    /// Sector `l` holds the entry of cluster `c` in one of the first `n`
    /// copies of the FAT.
    pub open spec fn holds_entry(&self, n: int, c: u32, l: int) -> bool {
        exists|k: int| 0 <= k < n && l == #[trigger] self.fat_sec(k, c)
    }

    /// Set the FAT entry of `cluster` to `value` (its low 28 bits) in every
    /// copy of the FAT, keeping the reserved top bits of each word; no other
    /// byte of the device changes.
    pub fn fat_set(&mut self, cluster: u32, value: u32) -> (r: Result<()>)
        requires
            old(self).wf(),
        ensures
            final(self).wf(),
            final(self).spec_geom() == old(self).spec_geom(),
            r is Ok ==> forall|l: int| #[trigger] final(self).sector(l) == if old(self).holds_entry(
                old(self).spec_geom().fat_count as int,
                cluster,
                l,
            ) {
                with_fat_word(old(self).sector(l), (cluster * 4) % 512, value)
            } else {
                old(self).sector(l)
            },
            r is Ok && old(self).spec_geom().fat_count >= 1 ==> final(self).fat_entry(cluster) == value & 0x0FFF_FFFF,
    {
        let byte = cluster as u64 * 4;
        proof {
            lemma_fat_offset(cluster as int);
        }
        let off = (byte % 512) as usize;
        let n = self.geom.fat_count as u64;
        let mut copy: u64 = 0;
        while copy < n
            invariant
                self.wf(),
                self.spec_geom() == old(self).spec_geom(),
                copy <= n,
                n == old(self).spec_geom().fat_count,
                off == (cluster * 4) % 512,
                off + 4 <= 512,
                byte == cluster * 4,
                copy >= 1 ==> old(self).sector(old(self).fat_sec(0, cluster)).len() == 512,
                forall|l: int| #[trigger] self.sector(l) == if old(self).holds_entry(copy as int, cluster, l) {
                    with_fat_word(old(self).sector(l), off as int, value)
                } else {
                    old(self).sector(l)
                },
            decreases n - copy,
        {
            proof {
                let fss = self.geom.fat_size_secs as u64;
                assert(copy * fss <= 255 * 0xFFFF_FFFF) by (nonlinear_arith)
                    requires
                        copy < 256,
                        fss <= 0xFFFF_FFFF,
                ;
            }
            let lba = self.geom.fat_lba + copy * self.geom.fat_size_secs as u64 + byte / 512;
            let ghost cur = self.sector(lba as int);
            let ghost pre = *self;
            proof {
                assert(lba as int == old(self).fat_sec(copy as int, cluster));
            }
            let mut sec = [0u8; 512];
            self.read_sec(lba, &mut sec)?;
            proof {
                if copy == 0 {
                    assert(cur == old(self).sector(old(self).fat_sec(0, cluster)));
                    assert(cur.len() == 512);
                }
            }
            let w = rd_le32(&sec, off);
            let nw = (w & 0xF000_0000) | (value & 0x0FFF_FFFF);
            wr_le32(&mut sec, off, nw);
            assert(sec@ == with_fat_word(cur, off as int, value));
            self.dev.write_sector(lba, &sec)?;
            proof {
                assert forall|l: int| #[trigger] self.sector(l) == if old(self).holds_entry(copy + 1, cluster, l) {
                    with_fat_word(old(self).sector(l), off as int, value)
                } else {
                    old(self).sector(l)
                } by {
                    if l == lba as int {
                        assert(old(self).holds_entry(copy + 1, cluster, l));
                        assert(sec@ =~= sec@.subrange(0, 512));
                        if old(self).holds_entry(copy as int, cluster, l) {
                            lemma_fat_word_again(old(self).sector(l), off as int, value);
                        }
                    } else {
                        assert(self.sector(l) == pre.sector(l));
                        if old(self).holds_entry(copy + 1, cluster, l) {
                            let k = choose|k: int| 0 <= k < copy + 1 && l == #[trigger] old(self).fat_sec(k, cluster);
                            assert(old(self).holds_entry(copy as int, cluster, l));
                        }
                    }
                }
            }
            copy = copy + 1;
        }
        proof {
            if n >= 1 {
                let l0 = old(self).fat_sec(0, cluster);
                assert(old(self).holds_entry(n as int, cluster, l0));
                assert(l0 == old(self).spec_geom().fat_lba + (cluster * 4) / 512);
                let s0 = old(self).sector(l0);
                if s0.len() >= 512 {
                    lemma_fat_word_again(s0, off as int, value);
                    let w0 = le32(s0, off as int) as u32;
                    assert(fat_word(w0, value) % 0x1000_0000 == value & 0x0FFF_FFFF) by (bit_vector);
                    assert(self.sector(l0) == with_fat_word(s0, off as int, value));
                    assert(le32(self.sector(l0), off as int) == fat_word(w0, value));
                    assert(self.fat_entry(cluster) == (fat_word(w0, value) % 0x1000_0000) as u32);
                }
            }
        }
        Ok(())
    }

    /// The cluster `k` links down the chain from `c`.
    pub open spec fn chain_at(&self, c: u32, k: nat) -> u32
        decreases k,
    {
        if k == 0 {
            c
        } else {
            self.next_of(self.chain_at(c, (k - 1) as nat))
        }
    }

    /// Sector of the ExFAT allocation bitmap that holds the bit of cluster
    /// `c`, the byte of it within that sector, and the bit within the byte.
    pub open spec fn bitmap_spot(&self, c: u32) -> (int, int, int) {
        let byte_idx = (c - 2) / 8;
        let bpc = 512 * self.spec_geom().secs_per_clus;
        let in_c = byte_idx % bpc;
        (self.clus_lba(self.chain_at(self.spec_geom().bitmap_cluster, (byte_idx / bpc) as nat)) + in_c / 512, in_c % 512, (c
            - 2) % 8)
    }

    /// Byte `b` with bit `bit` set (`set`) or cleared.
    pub open spec fn with_bit(b: u8, bit: int, set: bool) -> u8 {
        if set {
            b | (1u8 << bit as u8)
        } else {
            b & !(1u8 << bit as u8)
        }
    }

    /// Set (`set`) or clear the ExFAT allocation-bitmap bit of `cluster`; a
    /// volume without a bitmap is left as it is, and a bitmap chain that
    /// ends early is malformed.
    fn bitmap_op(&mut self, cluster: u32, set: bool) -> (r: Result<()>)
        requires
            old(self).wf(),
            cluster >= 2,
        ensures
            final(self).wf(),
            final(self).spec_geom() == old(self).spec_geom(),
            old(self).spec_geom().bitmap_cluster == 0 ==> r is Ok && final(self).spec_dev() == old(self).spec_dev(),
            r is Ok && old(self).spec_geom().bitmap_cluster != 0 ==> {
                let (lba, byte, bit) = old(self).bitmap_spot(cluster);
                forall|l: int| #[trigger] final(self).sector(l) == if l == lba {
                    old(self).sector(l).update(byte, Self::with_bit(old(self).sector(l)[byte], bit, set))
                } else {
                    old(self).sector(l)
                }
            },
    {
        if self.geom.bitmap_cluster == 0 {
            return Ok(());
        }
        let bit = cluster - 2;
        let byte_idx = (bit / 8) as u64;
        let bit_idx = (bit % 8) as u8;
        let bpc = self.geom.bytes_per_cluster();
        let clus_off = byte_idx / bpc;
        let byte_in_c = byte_idx % bpc;
        let sec_off = byte_in_c / 512;
        let byte_in_s = (byte_in_c % 512) as usize;
        let mut c = self.geom.bitmap_cluster;
        let mut i: u64 = 0;
        while i < clus_off
            invariant
                self.wf(),
                *self == *old(self),
                old(self).spec_geom().bitmap_cluster != 0,
                i <= clus_off,
                c == old(self).chain_at(old(self).spec_geom().bitmap_cluster, i as nat),
            decreases clus_off - i,
        {
            c = self.fat_next(c)?;
            if c >= FAT_EOC_MIN {
                return Err(FsError::BadFormat);
            }
            i = i + 1;
        }
        if c < 2 {
            return Err(FsError::BadFormat);
        }
        let base = self.geom.cluster_lba(c);
        proof {
            let spc = self.geom.secs_per_clus as int;
            assert(bpc == 512 * spc);
            assert(byte_in_c < bpc);
            assert(sec_off < spc) by (nonlinear_arith)
                requires
                    byte_in_c < 512 * spc,
                    sec_off == byte_in_c / 512,
            ;
            assert((c - 2) * spc <= 0xFFFF_FFFF * 0x8000_0000) by (nonlinear_arith)
                requires
                    0 <= c - 2 <= 0xFFFF_FFFF,
                    spc <= 0x8000_0000,
            ;
        }
        let lba = base + sec_off;
        assert((lba as int, byte_in_s as int, bit_idx as int) == old(self).bitmap_spot(cluster));
        let mut sec = [0u8; 512];
        self.read_sec(lba, &mut sec)?;
        let ghost s0 = sec@;
        let cur = sec[byte_in_s];
        if set {
            sec[byte_in_s] = cur | (1u8 << bit_idx);
        } else {
            sec[byte_in_s] = cur & !(1u8 << bit_idx);
        }
        assert(sec@ =~= s0.update(byte_in_s as int, Self::with_bit(cur, bit_idx as int, set)));
        self.dev.write_sector(lba, &sec)?;
        assert(sec@ =~= sec@.subrange(0, 512));
        Ok(())
    }

    /// One past the highest cluster number the volume has (at most
    /// `u32::MAX`).
    pub open spec fn clus_end(&self) -> int {
        if self.spec_geom().total_clusters + 2 > u32::MAX {
            u32::MAX as int
        } else {
            self.spec_geom().total_clusters + 2
        }
    }

    /// Allocate the first free cluster: on ExFAT mark it in the allocation
    /// bitmap, then mark it end-of-chain in the FAT. A volume whose every
    /// cluster is in use has no space.
    pub fn alloc_cluster(&mut self) -> (r: Result<u32>)
        requires
            old(self).wf(),
        ensures
            final(self).wf(),
            final(self).spec_geom() == old(self).spec_geom(),
            r matches Ok(c) ==> 2 <= c < old(self).clus_end() && old(self).fat_entry(c) == 0 && forall|d: u32|
                2 <= d < c ==> #[trigger] old(self).fat_entry(d) != 0,
            r matches Ok(c) ==> (old(self).spec_geom().fat_count >= 1 ==> final(self).fat_entry(c) == FAT_EOC),
            (forall|d: u32| 2 <= d < old(self).clus_end() ==> #[trigger] old(self).fat_entry(d) != 0) ==> r is Err,
    {
        let end: u32 = if self.geom.total_clusters > 0xFFFF_FFFD {
            0xFFFF_FFFF
        } else {
            self.geom.total_clusters + 2
        };
        let mut sec = [0u8; 512];
        let mut cur_lba: u64 = u64::MAX;
        let mut c: u32 = 2;
        while c < end
            invariant
                self.wf(),
                *self == *old(self),
                end == old(self).clus_end(),
                2 <= c,
                forall|d: u32| 2 <= d < c ==> #[trigger] old(self).fat_entry(d) != 0,
                cur_lba != u64::MAX ==> sec@ == old(self).sector(cur_lba as int),
            decreases end - c,
        {
            let byte = c as u64 * 4;
            proof {
                lemma_fat_offset(c as int);
            }
            let lba = self.geom.fat_lba + byte / 512;
            if lba != cur_lba {
                self.read_sec(lba, &mut sec)?;
                cur_lba = lba;
            }
            let off = (byte % 512) as usize;
            let val = rd_le32(&sec, off) % 0x1000_0000;
            assert(val == old(self).fat_entry(c));
            if val == 0 {
                match self.geom.kind {
                    FatKind::ExFat => {
                        self.bitmap_op(c, true)?;
                    },
                    FatKind::Fat32 => {},
                }
                self.fat_set(c, FAT_EOC)?;
                assert(FAT_EOC & 0x0FFF_FFFF == FAT_EOC) by (bit_vector);
                return Ok(c);
            }
            c = c + 1;
        }
        Err(FsError::NoSpace)
    }

    /// Read a FAT32 directory starting at cluster `start`, stopping after
    /// the first entry named `target` (ignoring case) when one is given.
    /// A chain with more links than the volume has clusters is refused.
    fn walk_fat32(&self, start: u32, target: Option<&[u8]>) -> (r: Result<Vec<Found>>)
        requires
            self.wf(),
        ensures
            ({
                let sp = self.walk32(start, 0, lfn_start(), self.spec_geom().total_clusters as nat, opt_bytes(target));
                &&& r matches Ok(v) ==> sp == Some(founds_view(v@))
                &&& sp is None ==> r is Err
            }),
            r matches Ok(v) ==> forall|i: int| 0 <= i < v@.len() ==> v@[i].info.name_len <= 256,
    {
        let ghost tv = opt_bytes(target);
        let ghost total = self.walk32(start, 0, lfn_start(), self.geom.total_clusters as nat, tv);
        let mut st = LfnState::new();
        let mut out: Vec<Found> = Vec::new();
        let mut clus = start;
        let mut k: u64 = 0;
        let mut fuel: u64 = self.geom.total_clusters as u64;
        let epc: u64 = self.geom.secs_per_clus as u64 * 16;
        let mut sec = [0u8; 512];
        let mut done = false;
        assert(founds_view(out@) =~= Seq::<DirEntry>::empty());
        assert(opt_cat(founds_view(out@), total) == total);
        while !done
            invariant
                self.wf(),
                epc == self.epc(),
                tv == opt_bytes(target),
                lfn_ok(st@),
                k <= epc,
                !done && k % 16 != 0 && k < epc && Self::in_chain(clus) ==> sec@ == self.sector(
                    self.clus_lba(clus) + k / 16,
                ),
                forall|i: int| 0 <= i < out@.len() ==> out@[i].info.name_len <= 256,
                !done ==> total == opt_cat(founds_view(out@), self.walk32(clus, k as int, st@, fuel as nat, tv)),
                done ==> total == Some(founds_view(out@)),
            decreases (if done { 0int } else { 1int }), fuel, epc - k,
        {
            if clus < 2 || clus >= FAT_EOC_MIN {
                done = true;
                assert(founds_view(out@) + Seq::<DirEntry>::empty() =~= founds_view(out@));
            } else if k >= epc {
                if fuel == 0 {
                    return Err(FsError::BadFormat);
                }
                clus = self.fat_next(clus)?;
                k = 0;
                fuel = fuel - 1;
            } else {
                let base = self.geom.cluster_lba(clus);
                proof {
                    assert(k / 16 < self.spec_geom().secs_per_clus);
                    assert((clus - 2) * self.spec_geom().secs_per_clus <= 0xFFFF_FFFF * 0x8000_0000) by (nonlinear_arith)
                        requires
                            clus - 2 <= 0xFFFF_FFFF,
                            self.spec_geom().secs_per_clus <= 0x8000_0000,
                            clus >= 2,
                    ;
                }
                if k % 16 == 0 {
                    self.read_sec(base + k / 16, &mut sec)?;
                }
                let off = ((k % 16) * 32) as usize;
                let e = copy_entry(&sec, off);
                assert(e@ == self.dir_entry(clus, k as int));
                let cur = EntryPos { clus, sec: (k / 16) as usize, slot: (k % 16) as usize };
                let ghost st0 = st@;
                let ghost outv = founds_view(out@);
                match st.step(&e, cur) {
                    StepOut::End => {
                        done = true;
                        assert(outv + Seq::<DirEntry>::empty() =~= outv);
                    },
                    StepOut::Skip => {
                        k = k + 1;
                    },
                    StepOut::Emit(f) => {
                        let hit = match target {
                            Some(t) => {
                                let (nm, _) = f.info.name.as_slice().split_at(f.info.name_len);
                                name_eq_ci(nm, t)
                            },
                            None => false,
                        };
                        let ghost d = f@;
                        out.push(f);
                        assert(founds_view(out@) =~= outv.push(d));
                        if hit {
                            done = true;
                            assert(outv + seq![d] =~= founds_view(out@));
                        } else {
                            proof {
                                match self.walk32(clus, k + 1, st@, fuel as nat, tv) {
                                    Some(rest) => {
                                        assert(outv + (seq![d] + rest) =~= founds_view(out@) + rest);
                                    },
                                    None => {},
                                }
                            }
                            k = k + 1;
                        }
                    },
                }
            }
        }
        Ok(out)
    }

    /// Cluster `i` of the chain starting at `start` (`start` itself for 0).
    pub open spec fn chain_nth(&self, start: u32, i: nat) -> u32
        decreases i,
    {
        if i == 0 { start } else { self.next_of(self.chain_nth(start, (i - 1) as nat)) }
    }

    /// The first `i + 1` clusters of the chain are all clusters.
    pub open spec fn chain_ok(&self, start: u32, i: nat) -> bool
        decreases i,
    {
        Self::in_chain(self.chain_nth(start, i)) && (i == 0 || self.chain_ok(start, (i - 1) as nat))
    }

    /// Where raw entry `n` of the directory at `start` lies.
    pub open spec fn pos_at(&self, start: u32, n: int) -> EntryPos {
        EntryPos {
            clus: self.chain_nth(start, (n / self.epc()) as nat),
            sec: ((n % self.epc()) / 16) as usize,
            slot: (n % 16) as usize,
        }
    }

    /// Reading raw entry `n` of the ExFAT directory at `start`, allowing
    /// `fuel` links of the chain.
    pub open spec fn xread(&self, start: u32, fuel: nat, n: int) -> RawRead {
        let ci = (n / self.epc()) as nat;
        if !Self::in_chain(self.chain_nth(start, ci)) {
            RawRead::EndChain
        } else if ci > fuel {
            RawRead::Cyclic
        } else {
            RawRead::Entry(self.dir_entry(self.chain_nth(start, ci), n % self.epc()))
        }
    }

    /// Fold the `cnt` secondary entries from index `n` on into `a`; `None`
    /// when the directory ends first.
    pub open spec fn xgather(&self, start: u32, fuel: nat, n: int, cnt: nat, a: XAcc) -> Option<XAcc>
        decreases cnt,
    {
        if cnt == 0 {
            Some(a)
        } else {
            match self.xread(start, fuel, n) {
                RawRead::Entry(se) => self.xgather(start, fuel, n + 1, (cnt - 1) as nat, x_secondary(a, se)),
                _ => None,
            }
        }
    }

    /// The entries an ExFAT directory read yields from raw entry `n` on,
    /// stopping after the first entry named `target` when one is given.
    /// `None` when the directory is malformed: an entry set cut short, or a
    /// chain with more links than `fuel` allows.
    #[verifier::opaque]
    pub open spec fn walkx(&self, start: u32, fuel: nat, n: int, target: Option<Seq<u8>>) -> Option<Seq<DirEntry>>
        decreases (fuel + 1) * self.epc() - n,
    {
        if n < 0 || self.epc() <= 0 || n >= (fuel + 1) * self.epc() {
            match self.xread(start, fuel, n) {
                RawRead::EndChain => Some(Seq::empty()),
                _ => None,
            }
        } else {
            match self.xread(start, fuel, n) {
                RawRead::EndChain => Some(Seq::empty()),
                RawRead::Cyclic => None,
                RawRead::Entry(e) => {
                    if e[0] & 0x80 == 0 {
                        Some(Seq::empty())
                    } else if e[0] != 0x85 {
                        self.walkx(start, fuel, n + 1, target)
                    } else {
                        let cnt = e[1] as nat;
                        let a0 = XAcc { cluster: 0, size: 0, name: Seq::empty() };
                        match self.xgather(start, fuel, n + 1, cnt, a0) {
                            None => None,
                            Some(a) => {
                                let d = x_entry(a, e, self.pos_at(start, n));
                                if target matches Some(t) && eq_ci(d.name, t) {
                                    Some(seq![d])
                                } else if n + 1 + cnt > (fuel + 1) * self.epc() {
                                    None
                                } else {
                                    opt_cat(seq![d], self.walkx(start, fuel, n + 1 + cnt, target))
                                }
                            },
                        }
                    }
                },
            }
        }
    }

    /// The position state `(clus, k, ci)` is that of raw entry `n`.
    pub open spec fn xpos(&self, start: u32, n: int, clus: u32, k: u64, ci: u64) -> bool {
        &&& n >= 0
        &&& ci == n / self.epc()
        &&& k == n % self.epc()
        &&& clus == self.chain_nth(start, ci as nat)
    }

    proof fn lemma_xgather_bound(&self, start: u32, fuel: nat, n: int, cnt: nat, a: XAcc)
        requires
            self.epc() > 0,
            n >= 0,
            n <= (fuel + 1) * self.epc(),
            self.xgather(start, fuel, n, cnt, a) is Some,
        ensures
            n + cnt <= (fuel + 1) * self.epc(),
        decreases cnt,
    {
        if cnt > 0 {
            match self.xread(start, fuel, n) {
                RawRead::Entry(se) => {
                    assert(n / self.epc() <= fuel);
                    lemma_div_lt(n, self.epc(), fuel as int);
                    self.lemma_xgather_bound(start, fuel, n + 1, (cnt - 1) as nat, x_secondary(a, se));
                },
                _ => {},
            }
        }
    }

    /// Read raw entry `n` of an ExFAT directory and move to entry `n + 1`.
    fn read_raw(
        &self,
        start: u32,
        fuel: u64,
        clus: &mut u32,
        k: &mut u64,
        ci: &mut u64,
        sec: &mut [u8; 512],
        Ghost(n): Ghost<int>,
    ) -> (r: Result<Option<([u8; 32], EntryPos)>>)
        requires
            self.wf(),
            fuel <= u32::MAX,
            self.xpos(start, n, *old(clus), *old(k), *old(ci)),
            *old(k) % 16 != 0 && Self::in_chain(*old(clus)) ==> old(sec)@ == self.sector(
                self.clus_lba(*old(clus)) + *old(k) / 16,
            ),
        ensures
            match self.xread(start, fuel as nat, n) {
                RawRead::EndChain => r == Ok::<Option<([u8; 32], EntryPos)>, FsError>(None) && *final(clus) == *old(clus)
                    && *final(k) == *old(k) && *final(ci) == *old(ci) && final(sec)@ == old(sec)@,
                RawRead::Cyclic => r is Err,
                RawRead::Entry(e) => r is Ok ==> (r matches Ok(Some((e2, p))) && e2@ == e && p == self.pos_at(
                    start,
                    n,
                ) && self.xpos(start, n + 1, *final(clus), *final(k), *final(ci)) && (*final(k) % 16 != 0
                    && Self::in_chain(*final(clus)) ==> final(sec)@ == self.sector(
                    self.clus_lba(*final(clus)) + *final(k) / 16,
                ))),
            },
    {
        if *clus < 2 || *clus >= FAT_EOC_MIN {
            return Ok(None);
        }
        if *ci > fuel {
            return Err(FsError::BadFormat);
        }
        let epc: u64 = self.geom.secs_per_clus as u64 * 16;
        let base = self.geom.cluster_lba(*clus);
        proof {
            assert(*k / 16 < self.spec_geom().secs_per_clus);
            assert((*clus - 2) * self.spec_geom().secs_per_clus <= 0xFFFF_FFFF * 0x8000_0000) by (nonlinear_arith)
                requires
                    *clus - 2 <= 0xFFFF_FFFF,
                    self.spec_geom().secs_per_clus <= 0x8000_0000,
                    *clus >= 2,
            ;
        }
        if *k % 16 == 0 {
            self.read_sec(base + *k / 16, sec)?;
        }
        let e = copy_entry(sec, ((*k % 16) * 32) as usize);
        let p = EntryPos { clus: *clus, sec: (*k / 16) as usize, slot: (*k % 16) as usize };
        proof {
            lemma_mod_mod(n, 16, self.spec_geom().secs_per_clus as int);
        }
        let ghost old_ci = *ci;
        if *k + 1 < epc {
            *k = *k + 1;
            proof {
                lemma_step_same(n, self.epc());
            }
        } else {
            *clus = self.fat_next(*clus)?;
            *k = 0;
            *ci = *ci + 1;
            proof {
                lemma_step_next(n, self.epc());
            }
        }
        Ok(Some((e, p)))
    }

    /// Read an ExFAT directory starting at cluster `start`, stopping after
    /// the first entry named `target` (ignoring case) when one is given.
    fn walk_exfat(&self, start: u32, target: Option<&[u8]>) -> (r: Result<Vec<Found>>)
        requires
            self.wf(),
        ensures
            ({
                let sp = self.walkx(start, self.spec_geom().total_clusters as nat, 0, opt_bytes(target));
                &&& r matches Ok(v) ==> sp == Some(founds_view(v@))
                &&& sp is None ==> r is Err
            }),
            r matches Ok(v) ==> forall|i: int| 0 <= i < v@.len() ==> v@[i].info.name_len <= 256,
    {
        let ghost tv = opt_bytes(target);
        let fuel: u64 = self.geom.total_clusters as u64;
        let ghost total = self.walkx(start, fuel as nat, 0, tv);
        let ghost bound = (fuel + 1) * self.epc();
        let mut out: Vec<Found> = Vec::new();
        let mut clus = start;
        let mut k: u64 = 0;
        let mut ci: u64 = 0;
        let mut sec = [0u8; 512];
        let ghost mut n: int = 0;
        let mut done = false;
        assert(founds_view(out@) =~= Seq::<DirEntry>::empty());
        assert(opt_cat(founds_view(out@), total) == total);
        proof {
            assert(bound >= self.epc()) by (nonlinear_arith)
                requires
                    bound == (fuel + 1) * self.epc(),
                    self.epc() > 0,
            ;
        }
        while !done
            invariant
                self.wf(),
                fuel == self.spec_geom().total_clusters,
                bound == (fuel + 1) * self.epc(),
                tv == opt_bytes(target),
                0 <= n <= bound,
                self.xpos(start, n, clus, k, ci),
                k % 16 != 0 && Self::in_chain(clus) ==> sec@ == self.sector(self.clus_lba(clus) + k / 16),
                forall|i: int| 0 <= i < out@.len() ==> out@[i].info.name_len <= 256,
                !done ==> total == opt_cat(founds_view(out@), self.walkx(start, fuel as nat, n, tv)),
                done ==> total == Some(founds_view(out@)),
            decreases (if done { 0int } else { 1int }), bound - n,
        {
            let ghost n0 = n;
            let ghost outv = founds_view(out@);
            proof {
                if n0 < bound {
                    self.lemma_walkx_step(start, fuel as nat, n0, tv);
                } else {
                    self.lemma_walkx_past(start, fuel as nat, n0, tv);
                }
            }
            match self.read_raw(start, fuel, &mut clus, &mut k, &mut ci, &mut sec, Ghost(n))? {
                None => {
                    done = true;
                    assert(outv + Seq::<DirEntry>::empty() =~= outv);
                },
                Some((e, p)) => {
                    proof {
                        lemma_div_lt(n0, self.epc(), fuel as int);
                        self.lemma_walkx_step(start, fuel as nat, n0, tv);
                        n = n0 + 1;
                    }
                    if e[0] & 0x80 == 0 {
                        done = true;
                        assert(outv + Seq::<DirEntry>::empty() =~= outv);
                    } else if e[0] == 0x85 {
                        let cnt = e[1];
                        let f = self.read_set(start, fuel, &e, p, &mut clus, &mut k, &mut ci, &mut sec, Ghost(n))?;
                        proof {
                            n = n + cnt;
                        }
                        let hit = match target {
                            Some(t) => {
                                let (nm, _) = f.info.name.as_slice().split_at(f.info.name_len);
                                name_eq_ci(nm, t)
                            },
                            None => false,
                        };
                        let ghost d = f@;
                        out.push(f);
                        assert(founds_view(out@) =~= outv.push(d));
                        if hit {
                            done = true;
                            assert(outv + seq![d] =~= founds_view(out@));
                        } else {
                            proof {
                                match self.walkx(start, fuel as nat, n, tv) {
                                    Some(rest) => {
                                        assert(outv + (seq![d] + rest) =~= founds_view(out@) + rest);
                                    },
                                    None => {},
                                }
                            }
                        }
                    }
                },
            }
        }
        Ok(out)
    }

    /// Read the `e[1]` secondary entries of the ExFAT file entry `e`, found
    /// at `p` just before raw entry `n`, and decode the set.
    fn read_set(
        &self,
        start: u32,
        fuel: u64,
        e: &[u8; 32],
        p: EntryPos,
        clus: &mut u32,
        k: &mut u64,
        ci: &mut u64,
        sec: &mut [u8; 512],
        Ghost(n): Ghost<int>,
    ) -> (r: Result<Found>)
        requires
            self.wf(),
            fuel <= u32::MAX,
            1 <= n <= (fuel + 1) * self.epc(),
            self.xpos(start, n, *old(clus), *old(k), *old(ci)),
            *old(k) % 16 != 0 && Self::in_chain(*old(clus)) ==> old(sec)@ == self.sector(
                self.clus_lba(*old(clus)) + *old(k) / 16,
            ),
        ensures
            ({
                let cnt = e@[1] as nat;
                let a0 = XAcc { cluster: 0, size: 0, name: Seq::empty() };
                match self.xgather(start, fuel as nat, n, cnt, a0) {
                    None => r is Err,
                    Some(a) => r matches Ok(f) ==> {
                        &&& f@ == x_entry(a, e@, p)
                        &&& f.info.name_len <= 256
                        &&& n + cnt <= (fuel + 1) * self.epc()
                        &&& self.xpos(start, n + cnt, *final(clus), *final(k), *final(ci))
                        &&& (*final(k) % 16 != 0 && Self::in_chain(*final(clus)) ==> final(sec)@ == self.sector(
                            self.clus_lba(*final(clus)) + *final(k) / 16,
                        ))
                    },
                }
            }),
    {
        let cnt = e[1];
        let sl = e.as_slice();
        let attr = rd_le16(sl, 4);
        let (_, tail) = sl.split_at(8);
        let (ts, _) = tail.split_at(8);
        assert(le32(ts@, 0) == le32(e@, 8));
        let mtime = exfat_timestamp(ts);
        let mut acc = XAccum { cluster: 0, size: 0, name: [0u16; 256], len: 0 };
        let ghost a0 = XAcc { cluster: 0, size: 0, name: Seq::empty() };
        assert(acc.view_acc().name =~= a0.name);
        let ghost mut m: int = n;
        let mut j: u8 = 0;
        while j < cnt
            invariant
                self.wf(),
                fuel <= u32::MAX,
                n <= m <= (fuel + 1) * self.epc(),
                m == n + j,
                j <= cnt,
                cnt == e@[1],
                acc.len <= 255,
                self.xpos(start, m, *clus, *k, *ci),
                *k % 16 != 0 && Self::in_chain(*clus) ==> sec@ == self.sector(self.clus_lba(*clus) + *k / 16),
                self.xgather(start, fuel as nat, n, cnt as nat, a0) == self.xgather(
                    start,
                    fuel as nat,
                    m,
                    (cnt - j) as nat,
                    acc.view_acc(),
                ),
            decreases cnt - j,
        {
            let ghost m0 = m;
            match self.read_raw(start, fuel, clus, k, ci, sec, Ghost(m))? {
                None => {
                    return Err(FsError::BadFormat);
                },
                Some((se, _)) => {
                    proof {
                        lemma_div_lt(m0, self.epc(), fuel as int);
                        m = m0 + 1;
                    }
                    acc.add(&se);
                    j = j + 1;
                },
            }
        }
        proof {
            self.lemma_xgather_bound(start, fuel as nat, n, cnt as nat, a0);
        }
        let mut name = [0u8; 256];
        let name_len = acc.to_utf8(&mut name);
        let info = EntryInfo {
            cluster: acc.cluster,
            size: acc.size,
            is_dir: attr & 0x10 != 0,
            readonly: attr & 0x01 != 0,
            hidden: attr & 0x02 != 0,
            mtime,
            name,
            name_len,
        };
        Ok(Found { info, first: p, pos: p })
    }

    /// One step of `walkx` at an index below its bound.
    pub proof fn lemma_walkx_step(&self, start: u32, fuel: nat, n: int, tv: Option<Seq<u8>>)
        requires
            self.epc() > 0,
            0 <= n < (fuel + 1) * self.epc(),
        ensures
            self.xread(start, fuel, n) is EndChain ==> self.walkx(start, fuel, n, tv) == Some(Seq::<DirEntry>::empty()),
            self.xread(start, fuel, n) is Cyclic ==> self.walkx(start, fuel, n, tv) is None,
            self.xread(start, fuel, n) matches RawRead::Entry(e) ==> {
                &&& e[0] & 0x80 == 0 ==> self.walkx(start, fuel, n, tv) == Some(Seq::<DirEntry>::empty())
                &&& (e[0] & 0x80 != 0 && e[0] != 0x85) ==> self.walkx(start, fuel, n, tv) == self.walkx(start, fuel, n + 1, tv)
                &&& (e[0] & 0x80 != 0 && e[0] == 0x85) ==> match self.xgather(
                    start,
                    fuel,
                    n + 1,
                    e[1] as nat,
                    XAcc { cluster: 0, size: 0, name: Seq::empty() },
                ) {
                    None => self.walkx(start, fuel, n, tv) is None,
                    Some(a) => {
                        let d = x_entry(a, e, self.pos_at(start, n));
                        if tv matches Some(t) && eq_ci(d.name, t) {
                            self.walkx(start, fuel, n, tv) == Some(seq![d])
                        } else {
                            n + 1 + e[1] <= (fuel + 1) * self.epc() && self.walkx(start, fuel, n, tv) == opt_cat(
                                seq![d],
                                self.walkx(start, fuel, n + 1 + e[1], tv),
                            )
                        }
                    },
                }
            },
    {
        reveal(FatVolume::walkx);
        if let RawRead::Entry(e) = self.xread(start, fuel, n) {
            if e[0] & 0x80 != 0 && e[0] == 0x85 {
                let a0 = XAcc { cluster: 0, size: 0, name: Seq::empty() };
                if self.xgather(start, fuel, n + 1, e[1] as nat, a0) is Some {
                    self.lemma_xgather_bound(start, fuel, n + 1, e[1] as nat, a0);
                }
            }
        }
    }

    /// `walkx` at or past its bound.
    pub proof fn lemma_walkx_past(&self, start: u32, fuel: nat, n: int, tv: Option<Seq<u8>>)
        requires
            self.epc() > 0,
            n >= (fuel + 1) * self.epc(),
        ensures
            self.xread(start, fuel, n) is EndChain ==> self.walkx(start, fuel, n, tv) == Some(Seq::<DirEntry>::empty()),
            !(self.xread(start, fuel, n) is EndChain) ==> self.walkx(start, fuel, n, tv) is None,
            !(self.xread(start, fuel, n) is Entry),
    {
        reveal(FatVolume::walkx);
        lemma_div_ge(n, self.epc(), fuel as int);
    }

    /// The entries a directory read yields: FAT32 or ExFAT layout.
    pub open spec fn walk_spec(&self, start: u32, target: Option<Seq<u8>>) -> Option<Seq<DirEntry>> {
        let fuel = self.spec_geom().total_clusters as nat;
        if self.spec_geom().kind == FatKind::ExFat {
            self.walkx(start, fuel, 0, target)
        } else {
            self.walk32(start, 0, lfn_start(), fuel, target)
        }
    }

    /// The entry named `name` (ignoring case) in the directory at `dir`;
    /// `None` when the directory is malformed.
    pub open spec fn find_spec(&self, dir: u32, name: Seq<u8>) -> Option<Result<DirEntry>> {
        match self.walk_spec(dir, Some(name)) {
            None => None,
            Some(v) => if v.len() > 0 && eq_ci(v.last().name, name) {
                Some(Ok(v.last()))
            } else {
                Some(Err(FsError::NotFound))
            },
        }
    }

    /// What the root directory resolves to.
    pub open spec fn root_entry(&self) -> DirEntry {
        DirEntry {
            cluster: self.spec_geom().root_cluster,
            size: 0,
            is_dir: true,
            readonly: false,
            hidden: false,
            mtime: 0,
            name: Seq::empty(),
            first: EntryPos { clus: 0, sec: 0, slot: 0 },
            pos: EntryPos { clus: 0, sec: 0, slot: 0 },
        }
    }

    /// Follow the components of `rest` from the directory at `clus`, whose
    /// entry is `info`. Intermediate components need not be directories:
    /// their data is read as one.
    pub open spec fn resolve_from(&self, clus: u32, rest: Seq<u8>, info: DirEntry) -> Option<Result<DirEntry>>
        decreases rest.len(),
    {
        let (first, tail) = spec_path_split(rest);
        if rest.len() == 0 || first.len() == 0 {
            Some(Ok(info))
        } else {
            proof {
                lemma_path_split_shorter(rest);
            }
            match self.find_spec(clus, first) {
                None => None,
                Some(Err(e)) => Some(Err(e)),
                Some(Ok(d)) => self.resolve_from(d.cluster, tail, d),
            }
        }
    }

    /// What `path` resolves to from the root.
    pub open spec fn resolve_spec(&self, path: Seq<u8>) -> Option<Result<DirEntry>> {
        self.resolve_from(self.spec_geom().root_cluster, trim_start(path, 0x2F), self.root_entry())
    }

    fn walk_entries(&self, start: u32, target: Option<&[u8]>) -> (r: Result<Vec<Found>>)
        requires
            self.wf(),
        ensures
            r matches Ok(v) ==> self.walk_spec(start, opt_bytes(target)) == Some(founds_view(v@)),
            self.walk_spec(start, opt_bytes(target)) is None ==> r is Err,
            r matches Ok(v) ==> forall|i: int| 0 <= i < v@.len() ==> v@[i].info.name_len <= 256,
    {
        if self.geom.kind == FatKind::ExFat {
            self.walk_exfat(start, target)
        } else {
            self.walk_fat32(start, target)
        }
    }

    /// The entry named `component` in the directory at `dir_clus`.
    fn find_in(&self, dir_clus: u32, component: &str) -> (r: Result<Found>)
        requires
            self.wf(),
        ensures
            r matches Ok(f) ==> self.find_spec(dir_clus, component.spec_bytes()) == Some(Ok::<DirEntry, FsError>(f@))
                && f.info.name_len <= 256,
            !(self.find_spec(dir_clus, component.spec_bytes()) matches Some(Ok(_))) ==> r is Err,
    {
        let target = str_bytes(component);
        let mut v = self.walk_entries(dir_clus, Some(target))?;
        if v.len() == 0 {
            return Err(FsError::NotFound);
        }
        let ghost vv = founds_view(v@);
        let f = v.pop().unwrap();
        assert(f@ == vv.last());
        let (nm, _) = f.info.name.as_slice().split_at(f.info.name_len);
        if name_eq_ci(nm, target) {
            Ok(f)
        } else {
            Err(FsError::NotFound)
        }
    }

    fn root_found(&self) -> (f: Found)
        ensures
            f@ == self.root_entry(),
            f.info.name_len == 0,
    {
        let p = EntryPos { clus: 0, sec: 0, slot: 0 };
        let f = Found {
            info: EntryInfo {
                cluster: self.geom.root_cluster,
                size: 0,
                is_dir: true,
                readonly: false,
                hidden: false,
                mtime: 0,
                name: [0u8; 256],
                name_len: 0,
            },
            first: p,
            pos: p,
        };
        assert(f@.name =~= Seq::<u8>::empty());
        f
    }

    /// The entry `path` names, from the root.
    fn resolve(&self, path: &str) -> (r: Result<Found>)
        requires
            self.wf(),
        ensures
            r matches Ok(f) ==> self.resolve_spec(path.spec_bytes()) == Some(Ok::<DirEntry, FsError>(f@))
                && f.info.name_len <= 256,
            !(self.resolve_spec(path.spec_bytes()) matches Some(Ok(_))) ==> r is Err,
    {
        let pb = str_bytes(path);
        let lead = count_leading(pb, 0x2F);
        let (_, mut rest) = split_str(path, lead);
        let mut info = self.root_found();
        let mut clus = self.geom.root_cluster;
        let mut going = true;
        while going
            invariant
                self.wf(),
                clus == info@.cluster,
                info.info.name_len <= 256,
                going ==> self.resolve_spec(path.spec_bytes()) == self.resolve_from(clus, rest.spec_bytes(), info@),
                !going ==> self.resolve_spec(path.spec_bytes()) == Some(Ok::<DirEntry, FsError>(info@)),
            decreases rest.spec_bytes().len(), (if going { 1int } else { 0int }),
        {
            let rb = str_bytes(rest);
            if rb.len() == 0 {
                going = false;
            } else {
                let (first, tail) = path_split(rest);
                if str_bytes(first).len() == 0 {
                    going = false;
                } else {
                    proof {
                        lemma_path_split_shorter(rest.spec_bytes());
                    }
                    let found = self.find_in(clus, first)?;
                    clus = found.info.cluster;
                    info = found;
                    rest = tail;
                }
            }
        }
        Ok(info)
    }

    /// List the directory at `path`.
    pub fn read_dir(&self, path: &str) -> (r: Result<Vec<Metadata>>)
        requires
            self.wf(),
        ensures
            r matches Ok(v) ==> match self.resolve_spec(path.spec_bytes()) {
                Some(Ok(d)) => d.is_dir && match self.walk_spec(d.cluster, None) {
                    Some(es) => v@.len() == es.len() && forall|i: int| 0 <= i < v@.len() ==> meta_is(#[trigger] v@[i], es[i]),
                    None => false,
                },
                _ => false,
            },
            self.resolve_spec(path.spec_bytes()) matches Some(Ok(d)) && !d.is_dir ==> r == Err::<Vec<Metadata>, FsError>(FsError::WrongType) || r is Err,
            !(self.resolve_spec(path.spec_bytes()) matches Some(Ok(_))) ==> r is Err,
    {
        let info = self.resolve(path)?;
        if !info.info.is_dir {
            return Err(FsError::WrongType);
        }
        let es = self.walk_entries(info.info.cluster, None)?;
        let ghost ev = founds_view(es@);
        let mut out: Vec<Metadata> = Vec::new();
        let mut i: usize = 0;
        while i < es.len()
            invariant
                i <= es@.len(),
                out@.len() == i,
                ev == founds_view(es@),
                forall|k: int| 0 <= k < es@.len() ==> es@[k].info.name_len <= 256,
                forall|k: int| 0 <= k < i ==> meta_is(#[trigger] out@[k], ev[k]),
            decreases es@.len() - i,
        {
            let m = meta_from(&es[i]);
            out.push(m);
            i = i + 1;
        }
        Ok(out)
    }

    /// Metadata of the entry at `path`, named by its last component.
    pub fn stat(&self, path: &str) -> (r: Result<Metadata>)
        requires
            self.wf(),
        ensures
            r matches Ok(m) ==> match self.resolve_spec(path.spec_bytes()) {
                Some(Ok(d)) => m.size == d.size && m.is_dir == d.is_dir && m.readonly == d.readonly && m.hidden
                    == d.hidden && m.mtime == d.mtime && m.name@ == name_after_set(
                    Seq::new(256, |i: int| 0u8),
                    last_component(path.spec_bytes()),
                ),
                _ => false,
            },
            !(self.resolve_spec(path.spec_bytes()) matches Some(Ok(_))) ==> r is Err,
    {
        let info = self.resolve(path)?;
        let mut meta = Metadata::zeroed();
        meta.is_dir = info.info.is_dir;
        meta.size = info.info.size;
        meta.readonly = info.info.readonly;
        meta.hidden = info.info.hidden;
        meta.mtime = info.info.mtime;
        let name = last_comp(path);
        meta.set_name(name);
        Ok(meta)
    }

    /// Bytes per cluster.
    pub open spec fn bpc(&self) -> int {
        512 * self.spec_geom().secs_per_clus
    }

    /// Byte `x` of the data of the chain starting at `start`.
    pub open spec fn file_byte(&self, start: u32, x: int) -> u8 {
        let c = self.chain_nth(start, (x / self.bpc()) as nat);
        self.sector(self.clus_lba(c) + (x % self.bpc()) / 512)[(x % self.bpc()) % 512]
    }

    /// Byte `x` of the chain at `start` lies in a cluster of the chain.
    pub open spec fn byte_in_chain(&self, start: u32, x: int) -> bool {
        Self::in_chain(self.chain_nth(start, (x / self.bpc()) as nat))
    }

    /// Clusters `a..=b` of the chain at `start` are all clusters.
    pub open spec fn chain_run_ok(&self, start: u32, a: int, b: int) -> bool {
        forall|ci: nat| a <= ci <= b ==> Self::in_chain(#[trigger] self.chain_nth(start, ci))
    }

    /// The position state of a file (`cur`, `clus_pos`) is that of byte
    /// offset `pos` of the chain at `start`.
    pub open spec fn file_pos(&self, start: u32, pos: u64, cur: u32, clus_pos: u64) -> bool {
        &&& cur == self.chain_nth(start, (pos as int / self.bpc()) as nat)
        &&& clus_pos == pos as int % self.bpc()
    }

    /// Read from byte `*pos` of the chain at `start` into `buf`: as many
    /// bytes as both the file (of `size` bytes) and `buf` hold, stopping
    /// early where the chain ends. Returns the number read.
    fn raw_read(
        &self,
        cur: &mut u32,
        pos: &mut u64,
        clus_pos: &mut u64,
        size: u64,
        buf: &mut [u8],
        Ghost(start): Ghost<u32>,
    ) -> (r: Result<usize>)
        requires
            self.wf(),
            self.file_pos(start, *old(pos), *old(cur), *old(clus_pos)),
        ensures
            final(buf)@.len() == old(buf)@.len(),
            r matches Ok(n) ==> {
                let want = if *old(pos) >= size { 0 } else if size - *old(pos) < old(buf)@.len() {
                    size - *old(pos)
                } else {
                    old(buf)@.len() as int
                };
                &&& n <= want
                &&& n > 0 ==> self.chain_run_ok(start, *old(pos) as int / self.bpc(), (*old(pos) + n - 1) / self.bpc())
                &&& forall|i: int| 0 <= i < n ==> #[trigger] final(buf)@[i] == self.file_byte(start, *old(pos) + i)
                &&& n < want ==> !self.byte_in_chain(start, *old(pos) + n)
                &&& forall|i: int| n <= i < old(buf)@.len() ==> final(buf)@[i] == old(buf)@[i]
                &&& *final(pos) == *old(pos) + n
            },
            self.file_pos(start, *final(pos), *final(cur), *final(clus_pos)),
    {
        if *pos >= size {
            return Ok(0);
        }
        let want: usize = if size - *pos < buf.len() as u64 { (size - *pos) as usize } else { buf.len() };
        let bpc: u64 = self.geom.secs_per_clus as u64 * 512;
        let ghost pos0 = *pos;
        let mut done: usize = 0;
        let mut tmp = [0u8; 512];
        while done < want && 2 <= *cur && *cur < FAT_EOC_MIN
            invariant
                self.wf(),
                bpc == self.bpc(),
                want <= buf@.len(),
                buf@.len() == old(buf)@.len(),
                done <= want,
                want as int == (if size - pos0 < old(buf)@.len() { size - pos0 } else { old(buf)@.len() as int }),
                *pos == pos0 + done,
                pos0 < size,
                self.file_pos(start, *pos, *cur, *clus_pos),
                done > 0 ==> self.chain_run_ok(start, pos0 as int / bpc as int, (pos0 + done - 1) / bpc as int),
                forall|i: int| 0 <= i < done ==> #[trigger] buf@[i] == self.file_byte(start, pos0 + i),
                forall|i: int| done <= i < buf@.len() ==> buf@[i] == old(buf)@[i],
            decreases want - done,
        {
            let base = self.geom.cluster_lba(*cur);
            proof {
                assert(*clus_pos < bpc);
                lemma_fundamental_div_mod(*clus_pos as int, 512);
                assert(*clus_pos / 512 < self.spec_geom().secs_per_clus) by (nonlinear_arith)
                    requires
                        *clus_pos < 512 * self.spec_geom().secs_per_clus,
                ;
                assert((*cur - 2) * self.spec_geom().secs_per_clus <= 0xFFFF_FFFF * 0x8000_0000) by (nonlinear_arith)
                    requires
                        *cur - 2 <= 0xFFFF_FFFF,
                        self.spec_geom().secs_per_clus <= 0x8000_0000,
                        *cur >= 2,
                ;
            }
            self.read_sec(base + *clus_pos / 512, &mut tmp)?;
            let o = (*clus_pos % 512) as usize;
            let take: usize = if want - done < 512 - o { want - done } else { 512 - o };
            let ghost cpos = *pos;
            let ghost bbefore = buf@;
            let mut j: usize = 0;
            while j < take
                invariant
                    j <= take,
                    o + take <= 512,
                    done + take <= want,
                    want <= buf@.len(),
                    buf@.len() == bbefore.len(),
                    forall|i: int| 0 <= i < done ==> buf@[i] == bbefore[i],
                    forall|i: int| done <= i < done + j ==> buf@[i] == tmp@[o + (i - done)],
                    forall|i: int| done + j <= i < buf@.len() ==> buf@[i] == bbefore[i],
                decreases take - j,
            {
                buf[done + j] = tmp[o + j];
                j = j + 1;
            }
            proof {
                assert forall|i: int| 0 <= i < done + take implies #[trigger] buf@[i] == self.file_byte(start, pos0 + i) by {
                    if i < done {
                        assert(bbefore[i] == self.file_byte(start, pos0 + i));
                    } else {
                        lemma_in_sector(cpos as int, self.spec_geom().secs_per_clus as int, i - done);
                    }
                }
                lemma_in_sector(cpos as int, self.spec_geom().secs_per_clus as int, (take - 1) as int);
                if done > 0 {
                    lemma_div_mono(pos0 + done - 1, cpos as int, bpc as int);
                }
                assert(self.chain_run_ok(start, pos0 as int / bpc as int, (pos0 + done + take - 1) / bpc as int)) by {
                    lemma_div_mono(pos0 as int, cpos as int, bpc as int);
                    let a = pos0 as int / bpc as int;
                    let c = cpos as int / bpc as int;
                    assert((pos0 + done + take - 1) / bpc as int == c);
                    if done > 0 {
                        lemma_div_pred(cpos as int, bpc as int);
                    }
                    assert forall|ci: nat| a <= ci <= c implies Self::in_chain(#[trigger] self.chain_nth(start, ci)) by {
                        if ci < c {
                            assert(done > 0);
                        }
                    }
                }
            }
            let ghost cp0 = *clus_pos;
            proof {
                if *clus_pos + take < bpc {
                    lemma_within(cpos as int, bpc as int, take as int);
                } else {
                    lemma_fundamental_div_mod(*clus_pos as int, 512);
                    assert(*clus_pos + take == bpc) by (nonlinear_arith)
                        requires
                            *clus_pos == 512 * (*clus_pos / 512) + o,
                            o + take <= 512,
                            *clus_pos < bpc,
                            *clus_pos + take >= bpc,
                            bpc == 512 * self.spec_geom().secs_per_clus,
                    ;
                    lemma_to_boundary(cpos as int, bpc as int, take as int);
                }
            }
            if *clus_pos + take as u64 >= bpc {
                let next = self.fat_next(*cur)?;
                *cur = next;
                *clus_pos = 0;
            } else {
                *clus_pos = *clus_pos + take as u64;
            }
            done = done + take;
            *pos = *pos + take as u64;
        }
        Ok(done)
    }

    /// Move to byte `target` of the chain at `start` (of a file of `size`
    /// bytes), following the chain from the current position or, when
    /// moving back, from `start`.
    fn raw_seek(
        &self,
        start: u32,
        cur: &mut u32,
        pos: &mut u64,
        clus_pos: &mut u64,
        size: u64,
        target: u64,
    ) -> (r: Result<()>)
        requires
            self.wf(),
            self.file_pos(start, *old(pos), *old(cur), *old(clus_pos)),
        ensures
            target > size ==> r == Err::<(), FsError>(FsError::InvalidArg),
            r is Ok ==> target <= size && *final(pos) == target && self.file_pos(start, *final(pos), *final(cur), *final(clus_pos)),
            r is Err ==> self.file_pos(start, *final(pos), *final(cur), *final(clus_pos)),
    {
        if target > size {
            return Err(FsError::InvalidArg);
        }
        if target < *pos {
            *cur = start;
            *pos = 0;
            *clus_pos = 0;
            proof {
                assert(0int / self.bpc() == 0) by (nonlinear_arith)
                    requires
                        self.bpc() > 0,
                ;
            }
        }
        let bpc = self.geom.bytes_per_cluster();
        while *pos < target
            invariant
                self.wf(),
                target <= size,
                bpc == self.bpc(),
                *pos <= target,
                self.file_pos(start, *pos, *cur, *clus_pos),
            decreases target - *pos,
        {
            let rem = bpc - *clus_pos;
            let need = target - *pos;
            let ghost p0 = *pos;
            if need < rem {
                proof {
                    lemma_within(p0 as int, bpc as int, need as int);
                }
                *clus_pos = *clus_pos + need;
                *pos = *pos + need;
            } else {
                let nx = self.fat_next(*cur);
                match nx {
                    Ok(c) => {
                        proof {
                            lemma_to_boundary(p0 as int, bpc as int, rem as int);
                        }
                        *pos = *pos + rem;
                        *clus_pos = 0;
                        *cur = c;
                    },
                    Err(e) => return Err(e),
                }
            }
        }
        Ok(())
    }

    /// Open the file at `path` for reading, positioned at byte 0.
    pub fn open(&self, path: &str) -> (r: Result<FatFile<'_, D>>)
        requires
            self.wf(),
        ensures
            r matches Ok(f) ==> match self.resolve_spec(path.spec_bytes()) {
                Some(Ok(d)) => !d.is_dir && f.spec_start() == d.cluster && f.spec_size() == d.size && f.spec_pos() == 0 && f.wf()
                    && f.spec_vol() == self,
                _ => false,
            },
            self.resolve_spec(path.spec_bytes()) matches Some(Ok(d)) && d.is_dir ==> r is Err,
            !(self.resolve_spec(path.spec_bytes()) matches Some(Ok(_))) ==> r is Err,
    {
        let info = self.resolve(path)?;
        if info.info.is_dir {
            return Err(FsError::WrongType);
        }
        proof {
            assert(0int / self.bpc() == 0 && 0int % self.bpc() == 0) by (nonlinear_arith)
                requires
                    self.bpc() > 0,
            ;
        }
        Ok(FatFile { vol: self, start: info.info.cluster, cur: info.info.cluster, size: info.info.size, pos: 0, clus_pos: 0 })
    }

    /// The allocation-bitmap cluster an ExFAT root directory names, scanning
    /// raw entries from `n` on with `cur` found so far: the last bitmap
    /// entry before the end of the directory. `None` when the chain is
    /// longer than `fuel` allows.
    pub open spec fn scan_bitmap(&self, start: u32, fuel: nat, n: int, cur: u32) -> Option<u32>
        decreases (fuel + 1) * self.epc() - n,
    {
        if n < 0 || self.epc() <= 0 || n >= (fuel + 1) * self.epc() {
            match self.xread(start, fuel, n) {
                RawRead::EndChain => Some(cur),
                _ => None,
            }
        } else {
            match self.xread(start, fuel, n) {
                RawRead::EndChain => Some(cur),
                RawRead::Cyclic => None,
                RawRead::Entry(e) => if e[0] & 0x80 == 0 {
                    Some(cur)
                } else if e[0] == 0x81 {
                    self.scan_bitmap(start, fuel, n + 1, le32(e, 20) as u32)
                } else {
                    self.scan_bitmap(start, fuel, n + 1, cur)
                },
            }
        }
    }

    /// Locate the ExFAT allocation bitmap from the root directory.
    fn scan_exfat_metadata(&mut self) -> (r: Result<()>)
        requires
            old(self).wf(),
        ensures
            final(self).wf(),
            final(self).spec_dev() == old(self).spec_dev(),
            final(self).spec_geom() == (FatGeom { bitmap_cluster: final(self).spec_geom().bitmap_cluster, ..old(self).spec_geom() }),
            r is Ok ==> Some(final(self).spec_geom().bitmap_cluster) == old(self).scan_bitmap(
                old(self).spec_geom().root_cluster,
                old(self).spec_geom().total_clusters as nat,
                0,
                old(self).spec_geom().bitmap_cluster,
            ),
            old(self).scan_bitmap(
                old(self).spec_geom().root_cluster,
                old(self).spec_geom().total_clusters as nat,
                0,
                old(self).spec_geom().bitmap_cluster,
            ) is None ==> r is Err,
    {
        let start = self.geom.root_cluster;
        let fuel: u64 = self.geom.total_clusters as u64;
        let ghost bound = (fuel + 1) * self.epc();
        let ghost total = self.scan_bitmap(start, fuel as nat, 0, self.geom.bitmap_cluster);
        let mut clus = start;
        let mut k: u64 = 0;
        let mut ci: u64 = 0;
        let mut sec = [0u8; 512];
        let mut bitmap = self.geom.bitmap_cluster;
        let ghost mut n: int = 0;
        let mut done = false;
        proof {
            assert(bound >= self.epc()) by (nonlinear_arith)
                requires
                    bound == (fuel + 1) * self.epc(),
                    self.epc() > 0,
            ;
        }
        while !done
            invariant
                self.wf(),
                fuel == self.spec_geom().total_clusters,
                start == self.spec_geom().root_cluster,
                bound == (fuel + 1) * self.epc(),
                0 <= n <= bound,
                self.xpos(start, n, clus, k, ci),
                k % 16 != 0 && Self::in_chain(clus) ==> sec@ == self.sector(self.clus_lba(clus) + k / 16),
                !done ==> total == self.scan_bitmap(start, fuel as nat, n, bitmap),
                done ==> total == Some(bitmap),
            decreases (if done { 0int } else { 1int }), bound - n,
        {
            let ghost n0 = n;
            match self.read_raw(start, fuel, &mut clus, &mut k, &mut ci, &mut sec, Ghost(n))? {
                None => {
                    done = true;
                },
                Some((e, _)) => {
                    proof {
                        lemma_div_lt(n0, self.epc(), fuel as int);
                        n = n0 + 1;
                    }
                    if e[0] & 0x80 == 0 {
                        done = true;
                    } else if e[0] == 0x81 {
                        bitmap = rd_le32(e.as_slice(), 20);
                    }
                },
            }
        }
        self.geom.bitmap_cluster = bitmap;
        Ok(())
    }
}

/// An open file on a FAT volume.
pub struct FatFile<'a, D: BlockDev> {
    vol: &'a FatVolume<D>,
    pub start: u32,
    cur: u32,
    pub size: u64,
    pos: u64,
    clus_pos: u64,
}

impl<'a, D: BlockDev> FatFile<'a, D> {
    pub closed spec fn spec_vol(&self) -> &'a FatVolume<D> {
        self.vol
    }

    /// First cluster of the file.
    pub closed spec fn spec_start(&self) -> u32 {
        self.start
    }

    /// File size in bytes.
    pub closed spec fn spec_size(&self) -> u64 {
        self.size
    }

    /// Current byte offset.
    pub closed spec fn spec_pos(&self) -> u64 {
        self.pos
    }

    /// The handle's position state agrees with its offset.
    pub closed spec fn wf(&self) -> bool {
        &&& self.vol.wf()
        &&& self.vol.file_pos(self.start, self.pos, self.cur, self.clus_pos)
    }

    /// File size in bytes.
    pub fn size(&self) -> (r: u64)
        ensures
            r == self.spec_size(),
    {
        self.size
    }

    /// Current byte offset.
    pub fn pos(&self) -> (r: u64)
        ensures
            r == self.spec_pos(),
    {
        self.pos
    }

    /// Move to byte `target`; past the end is refused.
    pub fn seek(&mut self, target: u64) -> (r: Result<()>)
        requires
            old(self).wf(),
        ensures
            final(self).wf(),
            final(self).spec_start() == old(self).spec_start(),
            final(self).spec_size() == old(self).spec_size(),
            final(self).spec_vol() == old(self).spec_vol(),
            target > old(self).spec_size() ==> r == Err::<(), FsError>(FsError::InvalidArg),
            r is Ok ==> final(self).spec_pos() == target,
    {
        self.vol.raw_seek(self.start, &mut self.cur, &mut self.pos, &mut self.clus_pos, self.size, target)
    }

    /// Read from the current offset into `buf`: as many bytes as both the
    /// rest of the file and `buf` hold, fewer only where the cluster chain
    /// ends early. Returns the number read.
    pub fn read(&mut self, buf: &mut [u8]) -> (r: Result<usize>)
        requires
            old(self).wf(),
        ensures
            final(self).wf(),
            final(self).spec_start() == old(self).spec_start(),
            final(self).spec_size() == old(self).spec_size(),
            final(self).spec_vol() == old(self).spec_vol(),
            final(buf)@.len() == old(buf)@.len(),
            r matches Ok(n) ==> {
                let p0 = old(self).spec_pos();
                let v = old(self).spec_vol();
                let want = if p0 >= old(self).spec_size() { 0 } else if old(self).spec_size() - p0 < old(buf)@.len() {
                    old(self).spec_size() - p0
                } else {
                    old(buf)@.len() as int
                };
                &&& n <= want
                &&& n > 0 ==> v.chain_run_ok(old(self).spec_start(), p0 as int / v.bpc(), (p0 + n - 1) / v.bpc())
                &&& forall|i: int| 0 <= i < n ==> #[trigger] final(buf)@[i] == v.file_byte(old(self).spec_start(), p0 + i)
                &&& n < want ==> !v.byte_in_chain(old(self).spec_start(), p0 + n)
                &&& forall|i: int| n <= i < old(buf)@.len() ==> final(buf)@[i] == old(buf)@[i]
                &&& final(self).spec_pos() == p0 + n
            },
    {
        self.vol.raw_read(&mut self.cur, &mut self.pos, &mut self.clus_pos, self.size, buf, Ghost(self.start))
    }
}


impl<D: BlockDev> FatVolume<D> {
    /// Mount the volume on `dev`: check the boot-sector signature, decode
    /// the geometry and, for ExFAT, locate the allocation bitmap. Only
    /// 512-byte sectors are supported.
    pub fn mount(dev: D) -> (r: Result<Self>)
        ensures
            dev.sector_len() != 512 ==> r == Err::<Self, FsError>(FsError::BadFormat),
            r matches Ok(v) ==> {
                let s0 = dev.sector(0);
                &&& v.wf()
                &&& v.spec_dev() == dev
                &&& s0[510] == 0x55 && s0[511] == 0xAA
                &&& spec_parse_geom(s0) matches Ok(g) && v.spec_geom() == (FatGeom {
                    bitmap_cluster: v.spec_geom().bitmap_cluster,
                    ..g
                }) && g.bytes_per_sec == 512 && (g.kind == FatKind::Fat32 ==> v.spec_geom().bitmap_cluster == 0)
            },
    {
        if dev.sector_size() != 512 {
            return Err(FsError::BadFormat);
        }
        let mut sec = [0u8; 512];
        dev.read_sector(0, &mut sec)?;
        proof {
            assert(sec@ =~= sec@.subrange(0, 512));
        }
        if sec[510] != 0x55 || sec[511] != 0xAA {
            return Err(FsError::BadFormat);
        }
        let geom = FatGeom::parse(&sec)?;
        if geom.bytes_per_sec != 512 {
            return Err(FsError::BadFormat);
        }
        let mut vol = FatVolume { dev, geom };
        if vol.geom.kind == FatKind::ExFat {
            vol.scan_exfat_metadata()?;
        }
        Ok(vol)
    }
}

} // verus!

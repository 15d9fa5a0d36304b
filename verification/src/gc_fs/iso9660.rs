//! ISO 9660 (read-only) over a device of 2048-byte sectors.
//!
//! The volume descriptors start at sector 16; the first Primary Volume
//! Descriptor gives the root directory. Directory records are parsed
//! from each directory sector until a zero-length record; names lose
//! their `;version` suffix and a trailing dot, and are compared without
//! regard to ASCII case.

use vstd::prelude::*;
use vstd::string::StringSliceAdditionalSpecFns;
use vstd::arithmetic::div_mod::{lemma_fundamental_div_mod, lemma_fundamental_div_mod_converse};
use crate::bytes::{le16, le32, rd_le16, rd_le32};
use crate::text::{eq_ci, last_index, rfind, str_bytes, split_str, utf8_str};
use super::{
    BlockDev, FsError, Metadata, Result, dev_byte, lemma_path_split_shorter, name_after_set, name_eq_ci, path_split,
    read_run, sectors_bytes, spec_path_split,
};

verus! {

/// Sector size the driver works with.
pub const SECTOR: usize = 2048;
/// First volume-descriptor sector.
pub const PVD_LBA: u64 = 16;
/// Most volume descriptors scanned.
pub const MAX_DESCRIPTORS: u64 = 32;

/// What the Primary Volume Descriptor gives.
#[derive(Clone, Copy, Debug, PartialEq, Eq, Structural)]
pub struct Pvd {
    pub root_lba: u32,
    pub root_size: u32,
    /// Logical block size (2048 when the descriptor says 0).
    pub sec_size: u16,
}

/// The descriptor carries the standard identifier `CD001`.
pub open spec fn is_cd001(b: Seq<u8>) -> bool {
    b[1] == 0x43 && b[2] == 0x44 && b[3] == 0x30 && b[4] == 0x30 && b[5] == 0x31
}

/// A Primary Volume Descriptor: type 1 with the standard identifier;
/// the root directory record at byte 156.
pub open spec fn spec_parse_pvd(b: Seq<u8>) -> Result<Pvd> {
    if !is_cd001(b) || b[0] != 1 {
        Err(FsError::BadFormat)
    } else {
        Ok(
            Pvd {
                root_lba: le32(b, 158) as u32,
                root_size: le32(b, 166) as u32,
                sec_size: if le16(b, 128) == 0 { 2048 } else { le16(b, 128) as u16 },
            },
        )
    }
}

/// A primary volume descriptor is type 1 with the "CD001" identifier; its
/// root directory record starts at byte 156, so the root's extent is the
/// little-endian word at 158 and its length the one at 166, and the logical
/// block size is the little-endian half-word at 128 (2048 when zero).
pub proof fn pvd_fields_law(b: Seq<u8>)
    requires
        b.len() >= 170,
    ensures
        spec_parse_pvd(b) is Ok <==> (b[0] == 1 && b[1] == 0x43 && b[2] == 0x44 && b[3] == 0x30 && b[4] == 0x30 && b[5]
            == 0x31),
        spec_parse_pvd(b) matches Ok(p) ==> {
            &&& p.root_lba == b[158] + b[159] * 0x100 + b[160] * 0x1_0000 + b[161] * 0x100_0000
            &&& p.root_size == b[166] + b[167] * 0x100 + b[168] * 0x1_0000 + b[169] * 0x100_0000
            &&& p.sec_size == (if b[128] == 0 && b[129] == 0 { 2048 } else { b[128] + b[129] * 0x100 })
        },
{
    let w = le32(b, 158);
    assert(0 <= w < 0x1_0000_0000);
    let w2 = le32(b, 166);
    assert(0 <= w2 < 0x1_0000_0000);
}

fn is_cd001_exec(b: &[u8]) -> (r: bool)
    requires
        b@.len() >= 6,
    ensures
        r == is_cd001(b@),
{
    b[1] == 0x43 && b[2] == 0x44 && b[3] == 0x30 && b[4] == 0x30 && b[5] == 0x31
}

/// Parse a Primary Volume Descriptor.
pub fn parse_pvd(buf: &[u8]) -> (r: Result<Pvd>)
    requires
        buf@.len() >= 190,
    ensures
        r == spec_parse_pvd(buf@),
{
    if !is_cd001_exec(buf) || buf[0] != 1 {
        return Err(FsError::BadFormat);
    }
    let sec_size = rd_le16(buf, 128);
    Ok(Pvd { root_lba: rd_le32(buf, 158), root_size: rd_le32(buf, 166), sec_size: if sec_size == 0 { 2048 } else { sec_size } })
}

/// The first Primary Volume Descriptor from descriptor `i` on, the scan
/// ending at a sector without the identifier, at the set terminator, or
/// after 32 descriptors.
pub open spec fn scan_pvd<D: BlockDev>(dev: &D, i: int) -> Option<Pvd>
    decreases MAX_DESCRIPTORS - i,
{
    if i < 0 || i >= MAX_DESCRIPTORS {
        None
    } else {
        let s = dev.sector(PVD_LBA + i);
        if !is_cd001(s) || s[0] == 0xFF {
            None
        } else if s[0] == 1 {
            match spec_parse_pvd(s) {
                Ok(p) => Some(p),
                Err(_) => None,
            }
        } else {
            scan_pvd(dev, i + 1)
        }
    }
}

/// A directory entry: name, extent, size, directory flag.
pub struct IsoEnt {
    pub name: Vec<u8>,
    pub lba: u32,
    pub size: u32,
    pub is_dir: bool,
}

pub type EntView = (Seq<u8>, u32, u32, bool);

pub open spec fn ents_view(v: Seq<IsoEnt>) -> Seq<EntView> {
    Seq::new(v.len(), |i: int| (v[i].name@, v[i].lba, v[i].size, v[i].is_dir))
}

/// A record name as listed: without its `;version` suffix and one
/// trailing dot, or `?` when that is not UTF-8.
pub open spec fn ent_name(nb: Seq<u8>) -> Seq<u8> {
    let a = match last_index(nb, 0x3B) {
        Some(p) => nb.subrange(0, p),
        None => nb,
    };
    let c = if a.len() > 0 && a.last() == 0x2E { a.drop_last() } else { a };
    if vstd::utf8::valid_utf8(c) { c } else { "?".spec_bytes() }
}

/// The last `c` in `x + [c] + v` is the one after `x` when `v` holds none.
proof fn lemma_last_index_suffix(x: Seq<u8>, c: u8, v: Seq<u8>)
    requires
        !v.contains(c),
    ensures
        last_index(x + seq![c] + v, c) == Some(x.len() as int),
    decreases v.len(),
{
    let s = x + seq![c] + v;
    if v.len() == 0 {
        assert(s.last() == c);
    } else {
        assert(s.last() == v.last());
        assert(v.last() != c) by {
            assert(v.contains(v.last()) || v.len() == 0);
        }
        assert(s.drop_last() =~= x + seq![c] + v.drop_last());
        assert(!v.drop_last().contains(c)) by {
            if v.drop_last().contains(c) {
                let k = choose|k: int| 0 <= k < v.drop_last().len() && v.drop_last()[k] == c;
                assert(v[k] == c);
            }
        }
        lemma_last_index_suffix(x, c, v.drop_last());
    }
}

/// A sequence without `c` has no last `c`.
proof fn lemma_last_index_none(x: Seq<u8>, c: u8)
    requires
        !x.contains(c),
    ensures
        last_index(x, c) is None,
    decreases x.len(),
{
    if x.len() > 0 {
        assert(x.contains(x.last()));
        assert(!x.drop_last().contains(c)) by {
            if x.drop_last().contains(c) {
                let k = choose|k: int| 0 <= k < x.drop_last().len() && x.drop_last()[k] == c;
                assert(x[k] == c);
            }
        }
        lemma_last_index_none(x.drop_last(), c);
    }
}

/// How a record name lists: a `;version` suffix is dropped whatever the
/// version, and a name with no `;`, no trailing dot and valid UTF-8 lists
/// as it is.
pub proof fn ent_name_law(x: Seq<u8>, v: Seq<u8>)
    requires
        !x.contains(0x3Bu8),
        !v.contains(0x3Bu8),
    ensures
        ent_name(x + seq![0x3Bu8] + v) == ent_name(x),
        (vstd::utf8::valid_utf8(x) && (x.len() == 0 || x.last() != 0x2E)) ==> ent_name(x) == x,
{
    lemma_last_index_suffix(x, 0x3Bu8, v);
    lemma_last_index_none(x, 0x3Bu8);
    assert((x + seq![0x3Bu8] + v).subrange(0, x.len() as int) =~= x);
}

/// The directory record at `off` of sector `b`: name (empty for the `.`
/// and `..` records), extent, size, directory flag and record length;
/// `None` for a record shorter than its fixed part or its name, or one
/// running past the sector.
pub open spec fn spec_dirent(b: Seq<u8>, off: int) -> Option<(EntView, int)> {
    let len = b[off] as int;
    if len < 33 || off + 33 > b.len() {
        None
    } else {
        let nl = b[off + 32] as int;
        if len < 33 + nl || off + 33 + nl > b.len() {
            None
        } else {
            let nb = b.subrange(off + 33, off + 33 + nl);
            let name = if nl == 1 && (nb[0] == 0 || nb[0] == 1) { Seq::empty() } else { ent_name(nb) };
            Some(((name, le32(b, off + 2) as u32, le32(b, off + 10) as u32, b[off + 25] & 2 != 0), len))
        }
    }
}

/// A directory record's fields sit where ECMA-119 puts them: the record
/// length in byte 0, the extent's first sector in the little-endian word
/// at bytes 2..6 (the big-endian copy at 6..10 agrees on a well-formed
/// disc), the data length in the little-endian word at bytes 10..14, and
/// the directory flag in bit 1 of byte 25.
pub proof fn dirent_fields_law(b: Seq<u8>, off: int)
    requires
        0 <= off,
    ensures
        spec_dirent(b, off) matches Some((e, len)) ==> {
            &&& len == b[off]
            &&& e.1 == b[off + 2] + b[off + 3] * 0x100 + b[off + 4] * 0x1_0000 + b[off + 5] * 0x100_0000
            &&& e.2 == b[off + 10] + b[off + 11] * 0x100 + b[off + 12] * 0x1_0000 + b[off + 13] * 0x100_0000
            &&& e.3 == (b[off + 25] & 2 != 0)
            &&& (b[off + 6] == b[off + 5] && b[off + 7] == b[off + 4] && b[off + 8] == b[off + 3] && b[off + 9] == b[off
                + 2]) ==> e.1 == b[off + 6] * 0x100_0000 + b[off + 7] * 0x1_0000 + b[off + 8] * 0x100 + b[off + 9]
        },
{
    if spec_dirent(b, off) is Some {
        let w = le32(b, off + 2);
        assert(0 <= w < 0x1_0000_0000);
        let w2 = le32(b, off + 10);
        assert(0 <= w2 < 0x1_0000_0000);
    }
}

/// The named entries of sector `b` from offset `off`: records follow one
/// another until a zero length byte or the end of the sector.
pub open spec fn recs(b: Seq<u8>, off: int) -> Seq<EntView>
    decreases b.len() - off,
{
    if off < 0 || off >= b.len() || b[off] == 0 {
        Seq::empty()
    } else {
        let rest = if off + b[off] < b.len() { recs(b, off + b[off] as int) } else { Seq::empty() };
        match spec_dirent(b, off) {
            Some((e, _)) => if e.0.len() > 0 { seq![e] + rest } else { rest },
            None => rest,
        }
    }
}

/// The entries of the first `n` sectors of the directory at `lba`.
pub open spec fn dir_ents<D: BlockDev>(dev: &D, lba: int, n: int) -> Seq<EntView>
    decreases n,
{
    if n <= 0 {
        Seq::empty()
    } else {
        dir_ents(dev, lba, n - 1) + recs(dev.sector(lba + n - 1), 0)
    }
}

/// Sectors of a directory of `size` bytes.
pub open spec fn dir_sectors(size: u32) -> int {
    (size as int + SECTOR - 1) / SECTOR as int
}

/// A directory of `size` bytes spans the fewest sectors that hold it.
pub proof fn dir_sectors_law(size: u32)
    ensures
        dir_sectors(size) * 2048 >= size,
        size > 0 ==> (dir_sectors(size) - 1) * 2048 < size,
        size == 0 ==> dir_sectors(size) == 0,
{
    vstd::arithmetic::div_mod::lemma_fundamental_div_mod(size as int + 2047, 2048);
}

/// The first entry named `name` (ignoring case).
pub open spec fn find_ent(es: Seq<EntView>, name: Seq<u8>, i: int) -> Option<EntView>
    decreases es.len() - i,
{
    if i < 0 || i >= es.len() {
        None
    } else if eq_ci(es[i].0, name) {
        Some(es[i])
    } else {
        find_ent(es, name, i + 1)
    }
}

/// What `path` names below the directory of `size` bytes at `lba`:
/// (extent, size, directory flag); the directory itself for an empty
/// path.
pub open spec fn resolve<D: BlockDev>(dev: &D, lba: u32, size: u32, path: Seq<u8>) -> Option<(u32, u32, bool)>
    decreases path.len(),
{
    let (first, rest) = spec_path_split(path);
    if first.len() == 0 {
        Some((lba, size, true))
    } else {
        proof {
            lemma_path_split_shorter(path);
        }
        match find_ent(dir_ents(dev, lba as int, dir_sectors(size)), first, 0) {
            None => None,
            Some(e) => if e.3 && rest.len() > 0 {
                resolve(dev, e.1, e.2, rest)
            } else {
                Some((e.1, e.2, e.3))
            },
        }
    }
}

/// Byte `k` of the file whose data starts at sector `lba`.
pub open spec fn file_byte<D: BlockDev>(dev: &D, lba: int, k: int) -> u8 {
    dev_byte(dev, lba * SECTOR as int + k)
}

/// On a device of 2048-byte sectors, byte `k` of a file whose extent
/// starts at sector `lba` is byte `k % 2048` of sector `lba + k / 2048`.
pub proof fn file_byte_law<D: BlockDev>(dev: &D, lba: int, k: int)
    requires
        dev.sector_len() == 2048,
        0 <= k,
    ensures
        file_byte(dev, lba, k) == dev.sector(lba + k / 2048)[k % 2048],
{
    lemma_fundamental_div_mod(k, 2048);
    lemma_fundamental_div_mod_converse(lba * 2048 + k, 2048, lba + k / 2048, k % 2048);
}

fn sector_bytes_one<D: BlockDev>(dev: &D, lba: u64, buf: &mut Vec<u8>) -> (r: Result<()>)
    requires
        dev.sector_len() == SECTOR,
        old(buf)@.len() == SECTOR,
        lba < u64::MAX,
    ensures
        final(buf)@.len() == SECTOR,
        r is Ok ==> final(buf)@ == dev.sector(lba as int),
{
    let r = read_run(dev, lba, 1, buf);
    proof {
        assert(sectors_bytes(dev, lba as int, 0) =~= Seq::<u8>::empty());
        if r is Ok {
            assert(sectors_bytes(dev, lba as int, 1) == sectors_bytes(dev, lba as int, 0) + dev.sector(lba as int));
            assert(buf@ =~= dev.sector(lba as int));
        }
    }
    r
}

/// Parse the record at `off` of sector `b`.
fn parse_dirent(b: &[u8], off: usize) -> (r: Option<(IsoEnt, usize)>)
    requires
        off < b@.len(),
        b@.len() <= SECTOR,
    ensures
        match spec_dirent(b@, off as int) {
            None => r is None,
            Some((e, len)) => r matches Some((x, l)) && (x.name@, x.lba, x.size, x.is_dir) == e && l == len,
        },
{
    let len = b[off] as usize;
    if len < 33 || off + 33 > b.len() {
        return None;
    }
    let nl = b[off + 32] as usize;
    if len < 33 + nl || off + 33 + nl > b.len() {
        return None;
    }
    let lba = rd_le32(b, off + 2);
    let size = rd_le32(b, off + 10);
    let is_dir = b[off + 25] & 2 != 0;
    let nb = vstd::slice::slice_subrange(b, off + 33, off + 33 + nl);
    if nl == 1 && (nb[0] == 0 || nb[0] == 1) {
        return Some((IsoEnt { name: Vec::new(), lba, size, is_dir }, len));
    }
    proof {
        crate::text::lemma_last_index(nb@, 0x3B);
    }
    let a = match rfind(nb, 0x3B) {
        Some(p) => vstd::slice::slice_subrange(nb, 0, p),
        None => nb,
    };
    let c = if a.len() > 0 && a[a.len() - 1] == 0x2E { vstd::slice::slice_subrange(a, 0, a.len() - 1) } else { a };
    assert(a.len() > 0 && a@.last() == 0x2E ==> c@ =~= a@.drop_last());
    let name = match utf8_str(c) {
        Some(s) => {
            proof {
                vstd::utf8::encode_utf8_valid_utf8(s@);
            }
            vstd::slice::slice_to_vec(c)
        },
        None => {
            proof {
                reveal_strlit("?");
            }
            vstd::slice::slice_to_vec(str_bytes("?"))
        },
    };
    Some((IsoEnt { name, lba, size, is_dir }, len))
}

/// The named entries of one directory sector.
fn sector_recs(b: &[u8], out: &mut Vec<IsoEnt>)
    requires
        b@.len() == SECTOR,
    ensures
        ents_view(final(out)@) == ents_view(old(out)@) + recs(b@, 0),
{
    let mut off: usize = 0;
    let ghost start = ents_view(old(out)@);
    while off < SECTOR
        invariant
            b@.len() == SECTOR,
            off <= SECTOR + 255,
            ents_view(out@) + recs(b@, off as int) == start + recs(b@, 0),
        ensures
            recs(b@, off as int) == Seq::<EntView>::empty(),
        decreases SECTOR + 256 - off,
    {
        let rl = b[off] as usize;
        if rl == 0 {
            assert(recs(b@, off as int) =~= Seq::<EntView>::empty());
            break;
        }
        let ghost before = ents_view(out@);
        match parse_dirent(b, off) {
            Some((e, _)) => {
                if e.name.len() > 0 {
                    let ghost ev = (e.name@, e.lba, e.size, e.is_dir);
                    out.push(e);
                    assert(ents_view(out@) =~= before.push(ev));
                    assert(before + recs(b@, off as int) =~= ents_view(out@) + recs(b@, off + rl));
                }
            },
            None => {},
        }
        off = off + rl;
    }
    assert(ents_view(out@) =~= start + recs(b@, 0));
}

/// `v` describes the entries `es`, in order: their sizes and directory
/// flags, read-only, under their names.
pub open spec fn lists(v: Seq<Metadata>, es: Seq<EntView>) -> bool {
    &&& v.len() == es.len()
    &&& forall|k: int| 0 <= k < v.len() ==> {
        &&& (#[trigger] v[k]).is_dir == es[k].3
        &&& v[k].size == es[k].2
        &&& v[k].readonly
        &&& v[k].name@ == name_after_set(Seq::new(256, |i: int| 0u8), es[k].0)
    }
}

/// A mounted ISO 9660 volume.
pub struct Iso9660<D: BlockDev> {
    dev: D,
    root_lba: u32,
    root_size: u32,
    sec_size: u16,
}

impl<D: BlockDev> Iso9660<D> {
    pub closed spec fn spec_dev(&self) -> D {
        self.dev
    }

    pub closed spec fn spec_pvd(&self) -> Pvd {
        Pvd { root_lba: self.root_lba, root_size: self.root_size, sec_size: self.sec_size }
    }

    pub closed spec fn wf(&self) -> bool {
        self.dev.sector_len() == SECTOR
    }

    /// What `path` names, from the root directory.
    pub open spec fn resolves(&self, path: Seq<u8>) -> Option<(u32, u32, bool)> {
        resolve(&self.spec_dev(), self.spec_pvd().root_lba, self.spec_pvd().root_size, path)
    }

    /// Mount: the first Primary Volume Descriptor among the descriptors
    /// at sector 16 on gives the root directory. A device whose sectors
    /// are not 2048 bytes, or without such a descriptor, is `BadFormat`.
    pub fn mount(dev: D) -> (r: Result<Self>)
        ensures
            dev.sector_len() != SECTOR ==> r == Err::<Self, FsError>(FsError::BadFormat),
            scan_pvd(&dev, 0) is None ==> r is Err,
            r matches Ok(v) ==> v.wf() && v.spec_dev() == dev && scan_pvd(&dev, 0) == Some(v.spec_pvd()),
    {
        if dev.sector_size() != SECTOR {
            return Err(FsError::BadFormat);
        }
        let mut buf: Vec<u8> = vec![0u8; SECTOR];
        let mut pvd: Option<Pvd> = None;
        let mut i: u64 = 0;
        while i < MAX_DESCRIPTORS
            invariant
                dev.sector_len() == SECTOR,
                buf@.len() == SECTOR,
                i <= MAX_DESCRIPTORS,
                pvd is None ==> scan_pvd(&dev, 0) == scan_pvd(&dev, i as int),
                pvd matches Some(p) ==> scan_pvd(&dev, 0) == Some(p),
            decreases MAX_DESCRIPTORS - i,
        {
            sector_bytes_one(&dev, PVD_LBA + i, &mut buf)?;
            if !is_cd001_exec(buf.as_slice()) || buf[0] == 0xFF {
                break;
            }
            if buf[0] == 1 && pvd.is_none() {
                let p = parse_pvd(buf.as_slice())?;
                pvd = Some(p);
            }
            i = i + 1;
        }
        match pvd {
            Some(p) => Ok(Iso9660 { dev, root_lba: p.root_lba, root_size: p.root_size, sec_size: p.sec_size }),
            None => Err(FsError::BadFormat),
        }
    }

    pub fn kind_str(&self) -> (r: &'static str)
        ensures
            r == "ISO9660",
    {
        "ISO9660"
    }

    /// The entries of the directory of `size` bytes at `lba`. Logical
    /// blocks other than 2048 bytes cannot be read from the device:
    /// shorter ones are `BufferTooSmall`, longer ones `Unsupported`.
    pub fn walk_dir(&self, lba: u32, size: u32) -> (r: Result<Vec<IsoEnt>>)
        requires
            self.wf(),
        ensures
            self.spec_pvd().sec_size < SECTOR ==> r == Err::<Vec<IsoEnt>, FsError>(FsError::BufferTooSmall),
            self.spec_pvd().sec_size > SECTOR ==> r == Err::<Vec<IsoEnt>, FsError>(FsError::Unsupported),
            r matches Ok(v) ==> ents_view(v@) == dir_ents(&self.spec_dev(), lba as int, dir_sectors(size)),
    {
        if (self.sec_size as usize) < SECTOR {
            return Err(FsError::BufferTooSmall);
        }
        if (self.sec_size as usize) > SECTOR {
            return Err(FsError::Unsupported);
        }
        let sectors: u64 = (size as u64 + SECTOR as u64 - 1) / SECTOR as u64;
        let mut out: Vec<IsoEnt> = Vec::new();
        let mut buf: Vec<u8> = vec![0u8; SECTOR];
        let mut s: u64 = 0;
        while s < sectors
            invariant
                self.wf(),
                self.sec_size == SECTOR,
                sectors == dir_sectors(size),
                sectors <= 0x20_0000,
                buf@.len() == SECTOR,
                s <= sectors,
                ents_view(out@) == dir_ents(&self.dev, lba as int, s as int),
            decreases sectors - s,
        {
            sector_bytes_one(&self.dev, lba as u64 + s, &mut buf)?;
            sector_recs(buf.as_slice(), &mut out);
            s = s + 1;
        }
        Ok(out)
    }

    /// Resolve `path` from the directory of `size` bytes at `lba`: an
    /// empty path is that directory; otherwise its first component is
    /// looked up, and the rest resolved inside it when it is a directory.
    pub fn find_in(&self, lba: u32, size: u32, path: &str) -> (r: Result<(u32, u32, bool)>)
        requires
            self.wf(),
        ensures
            r matches Ok(v) ==> resolve(&self.spec_dev(), lba, size, path.spec_bytes()) == Some(v),
            resolve(&self.spec_dev(), lba, size, path.spec_bytes()) is None ==> r is Err,
            spec_path_split(path.spec_bytes()).0.len() == 0 ==> r == Ok::<(u32, u32, bool), FsError>((lba, size, true)),
        decreases path.spec_bytes().len(),
    {
        let (first, rest) = path_split(path);
        proof {
            lemma_path_split_shorter(path.spec_bytes());
        }
        if str_bytes(first).len() == 0 {
            return Ok((lba, size, true));
        }
        let es = self.walk_dir(lba, size)?;
        let fb = str_bytes(first);
        let ghost ev = ents_view(es@);
        let mut i: usize = 0;
        while i < es.len()
            invariant
                i <= es@.len(),
                self.wf(),
                spec_path_split(path.spec_bytes()).0.len() > 0,
                rest.spec_bytes().len() < path.spec_bytes().len(),
                ev == ents_view(es@),
                ev == dir_ents(&self.dev, lba as int, dir_sectors(size)),
                fb@ == first.spec_bytes(),
                (first.spec_bytes(), rest.spec_bytes()) == spec_path_split(path.spec_bytes()),
                find_ent(ev, fb@, 0) == find_ent(ev, fb@, i as int),
            decreases es@.len() - i,
        {
            assert(ev[i as int] == (es@[i as int].name@, es@[i as int].lba, es@[i as int].size, es@[i as int].is_dir));
            if name_eq_ci(es[i].name.as_slice(), fb) {
                let (l, sz, d) = (es[i].lba, es[i].size, es[i].is_dir);
                if d && str_bytes(rest).len() > 0 {
                    return self.find_in(l, sz, rest);
                }
                return Ok((l, sz, d));
            }
            i = i + 1;
        }
        Err(FsError::NotFound)
    }

    /// Resolve `path` from the root.
    pub fn find_path(&self, path: &str) -> (r: Result<(u32, u32, bool)>)
        requires
            self.wf(),
        ensures
            r matches Ok(v) ==> self.resolves(path.spec_bytes()) == Some(v),
            self.resolves(path.spec_bytes()) is None ==> r is Err,
            spec_path_split(path.spec_bytes()).0.len() == 0 ==> r == Ok::<(u32, u32, bool), FsError>(
                (self.spec_pvd().root_lba, self.spec_pvd().root_size, true),
            ),
    {
        self.find_in(self.root_lba, self.root_size, path)
    }

    /// The entries of the directory `path`: each with its size and
    /// directory flag, read-only. A file is `WrongType`.
    pub fn read_dir(&self, path: &str) -> (r: Result<Vec<Metadata>>)
        requires
            self.wf(),
        ensures
            r matches Ok(v) ==> exists|lba: u32, size: u32| self.resolves(path.spec_bytes()) == Some((lba, size, true))
                && lists(v@, #[trigger] dir_ents(&self.spec_dev(), lba as int, dir_sectors(size))),
            self.resolves(path.spec_bytes()) matches Some((_, _, d)) && !d ==> r is Err,
    {
        let (lba, size, is_dir) = self.find_path(path)?;
        if !is_dir {
            return Err(FsError::WrongType);
        }
        let es = self.walk_dir(lba, size)?;
        let ghost ev = dir_ents(&self.dev, lba as int, dir_sectors(size));
        let mut out: Vec<Metadata> = Vec::new();
        let mut k: usize = 0;
        while k < es.len()
            invariant
                k <= es@.len(),
                ents_view(es@) == ev,
                out@.len() == k,
                forall|j: int| 0 <= j < k ==> {
                    &&& (#[trigger] out@[j]).is_dir == ev[j].3
                    &&& out@[j].size == ev[j].2
                    &&& out@[j].readonly
                    &&& out@[j].name@ == name_after_set(Seq::new(256, |i: int| 0u8), ev[j].0)
                },
            decreases es@.len() - k,
        {
            let mut m = Metadata::zeroed();
            m.is_dir = es[k].is_dir;
            m.size = es[k].size as u64;
            m.readonly = true;
            m.set_name_bytes(es[k].name.as_slice());
            assert(ents_view(es@)[k as int] == (es@[k as int].name@, es@[k as int].lba, es@[k as int].size, es@[k as int].is_dir));
            out.push(m);
            k = k + 1;
        }
        assert(lists(out@, dir_ents(&self.dev, lba as int, dir_sectors(size))));
        Ok(out)
    }

    /// The entry at `path`: its size and directory flag, read-only, named
    /// after the path's last component.
    pub fn stat(&self, path: &str) -> (r: Result<Metadata>)
        requires
            self.wf(),
        ensures
            r matches Ok(m) ==> m.readonly && m.name@ == name_after_set(
                Seq::new(256, |i: int| 0u8),
                match last_index(path.spec_bytes(), 0x2F) {
                    Some(p) => path.spec_bytes().subrange(p + 1, path.spec_bytes().len() as int),
                    None => path.spec_bytes(),
                },
            ),
            r matches Ok(m) ==> (self.resolves(path.spec_bytes()) matches Some((l, sz, d)) && sz as u64 == m.size && d
                == m.is_dir),
            spec_path_split(path.spec_bytes()).0.len() == 0 ==> (r matches Ok(m) && m.is_dir && m.size
                == self.spec_pvd().root_size),
    {
        proof {
            crate::text::lemma_last_index(path.spec_bytes(), 0x2F);
        }
        let (_, size, is_dir) = self.find_path(path)?;
        let mut m = Metadata::zeroed();
        m.is_dir = is_dir;
        m.size = size as u64;
        m.readonly = true;
        let pb = str_bytes(path);
        proof {
            crate::text::lemma_last_index(pb@, 0x2F);
        }
        let found = rfind(pb, 0x2F);
        assert(found == match last_index(pb@, 0x2F) {
            Some(i) => Some(i as usize),
            None => None::<usize>,
        });
        match found {
            Some(p) => {
                assert(last_index(pb@, 0x2F) is Some);
                let n = pb.len();
                assert(p < n);
                let (_, tail) = pb.split_at(p + 1);
                m.set_name_bytes(tail);
            },
            None => m.set_name_bytes(pb),
        }
        Ok(m)
    }

    /// Open the file at `path` for reading; a directory is `WrongType`.
    pub fn open(&self, path: &str) -> (r: Result<IsoFile<'_, D>>)
        requires
            self.wf(),
        ensures
            r matches Ok(f) ==> f.wf() && f.spec_vol() == self && f.spec_pos() == 0 && self.resolves(path.spec_bytes())
                == Some((f.spec_lba(), f.spec_size() as u32, false)),
            self.resolves(path.spec_bytes()) matches Some((_, _, d)) && d ==> r is Err,
            spec_path_split(path.spec_bytes()).0.len() == 0 ==> r == Err::<IsoFile<'_, D>, FsError>(FsError::WrongType),
    {
        let (lba, size, is_dir) = self.find_path(path)?;
        if is_dir {
            return Err(FsError::WrongType);
        }
        Ok(IsoFile { vol: self, lba, size: size as u64, pos: 0 })
    }
}

/// An open file of an ISO 9660 volume.
pub struct IsoFile<'a, D: BlockDev> {
    vol: &'a Iso9660<D>,
    lba: u32,
    size: u64,
    pos: u64,
}

impl<'a, D: BlockDev> IsoFile<'a, D> {
    pub closed spec fn spec_vol(&self) -> &'a Iso9660<D> {
        self.vol
    }

    pub closed spec fn spec_lba(&self) -> u32 {
        self.lba
    }

    pub closed spec fn spec_size(&self) -> u64 {
        self.size
    }

    pub closed spec fn spec_pos(&self) -> u64 {
        self.pos
    }

    pub closed spec fn wf(&self) -> bool {
        self.vol.wf() && self.size <= u32::MAX
    }

    pub fn size(&self) -> (r: u64)
        ensures
            r == self.spec_size(),
    {
        self.size
    }

    pub fn pos(&self) -> (r: u64)
        ensures
            r == self.spec_pos(),
    {
        self.pos
    }

    /// Move to byte `p`; past the end is `InvalidArg`.
    pub fn seek(&mut self, p: u64) -> (r: Result<()>)
        ensures
            p > old(self).spec_size() ==> r == Err::<(), FsError>(FsError::InvalidArg) && final(self).spec_pos()
                == old(self).spec_pos(),
            p <= old(self).spec_size() ==> r == Ok::<(), FsError>(()) && final(self).spec_pos() == p,
            final(self).spec_size() == old(self).spec_size(),
            final(self).spec_lba() == old(self).spec_lba(),
            final(self).spec_vol() == old(self).spec_vol(),
            old(self).wf() ==> final(self).wf(),
    {
        if p > self.size {
            return Err(FsError::InvalidArg);
        }
        self.pos = p;
        Ok(())
    }

    /// Read from the current position: as many bytes as `buf` holds or
    /// the file has left, advancing the position. At the end: 0 bytes.
    pub fn read(&mut self, buf: &mut [u8]) -> (r: Result<usize>)
        requires
            old(self).wf(),
        ensures
            final(self).wf(),
            final(self).spec_size() == old(self).spec_size(),
            final(self).spec_lba() == old(self).spec_lba(),
            final(self).spec_vol() == old(self).spec_vol(),
            final(buf)@.len() == old(buf)@.len(),
            final(self).spec_pos() >= old(self).spec_pos(),
            r matches Ok(n) ==> {
                let left = if old(self).spec_pos() >= old(self).spec_size() {
                    0
                } else {
                    old(self).spec_size() - old(self).spec_pos()
                };
                &&& n == (if left < old(buf)@.len() { left } else { old(buf)@.len() as int })
                &&& final(self).spec_pos() == old(self).spec_pos() + n
                &&& forall|i: int| 0 <= i < n ==> #[trigger] final(buf)@[i] == file_byte(
                    &old(self).spec_vol().spec_dev(),
                    old(self).spec_lba() as int,
                    old(self).spec_pos() + i,
                )
                &&& forall|i: int| n <= i < old(buf)@.len() ==> final(buf)@[i] == old(buf)@[i]
            },
            (old(self).spec_pos() < old(self).spec_size() && old(self).spec_vol().spec_pvd().sec_size != SECTOR) ==> r is Err,
    {
        if self.pos >= self.size {
            return Ok(0);
        }
        if self.vol.sec_size as usize != SECTOR {
            return Err(if (self.vol.sec_size as usize) < SECTOR { FsError::BufferTooSmall } else { FsError::Unsupported });
        }
        let left = self.size - self.pos;
        let want: usize = if left < buf.len() as u64 { left as usize } else { buf.len() };
        let mut tmp: Vec<u8> = vec![0u8; SECTOR];
        let mut done: usize = 0;
        let ghost pos0 = self.pos;
        let ghost dev = self.vol.dev;
        while done < want
            invariant
                self.wf(),
                self.vol == old(self).vol,
                self.lba == old(self).lba,
                self.size == old(self).size,
                dev == self.vol.dev,
                dev.sector_len() == SECTOR,
                tmp@.len() == SECTOR,
                want <= buf@.len(),
                buf@.len() == old(buf)@.len(),
                pos0 == old(self).pos,
                done <= want,
                want as int + pos0 <= self.size,
                self.pos == pos0 + done,
                forall|i: int| 0 <= i < done ==> #[trigger] buf@[i] == file_byte(&dev, self.lba as int, pos0 + i),
                forall|i: int| want <= i < buf@.len() ==> buf@[i] == old(buf)@[i],
            decreases want - done,
        {
            let abs = self.pos;
            let sec = self.lba as u64 + abs / SECTOR as u64;
            let off = (abs % SECTOR as u64) as usize;
            sector_bytes_one(&self.vol.dev, sec, &mut tmp)?;
            let room = SECTOR - off;
            let take = if room < want - done { room } else { want - done };
            let mut t: usize = 0;
            while t < take
                invariant
                    dev.sector_len() == SECTOR,
                    tmp@ == dev.sector(sec as int),
                    tmp@.len() == SECTOR,
                    off + take <= SECTOR,
                    done + take <= want,
                    want <= buf@.len(),
                    buf@.len() == old(buf)@.len(),
                    t <= take,
                    sec == self.lba + (abs as int) / (SECTOR as int),
                    off == (abs as int) % (SECTOR as int),
                    abs == pos0 + done,
                    forall|i: int| 0 <= i < done + t ==> #[trigger] buf@[i] == file_byte(&dev, self.lba as int, pos0 + i),
                    forall|i: int| want <= i < buf@.len() ==> buf@[i] == old(buf)@[i],
                decreases take - t,
            {
                proof {
                    let x = self.lba as int * SECTOR as int + abs + t;
                    lemma_fundamental_div_mod(abs as int, SECTOR as int);
                    assert(x == (sec as int) * (SECTOR as int) + (off + t)) by (nonlinear_arith)
                        requires
                            x == self.lba as int * SECTOR as int + abs + t,
                            abs == (SECTOR as int) * ((abs as int) / (SECTOR as int)) + (abs as int) % (SECTOR as int),
                            sec == self.lba + (abs as int) / (SECTOR as int),
                            off == (abs as int) % (SECTOR as int),
                    ;
                    lemma_fundamental_div_mod_converse(x, SECTOR as int, sec as int, (off + t) as int);
                }
                buf[done + t] = tmp[off + t];
                t = t + 1;
            }
            done = done + take;
            self.pos = self.pos + take as u64;
        }
        Ok(done)
    }
}

} // verus!

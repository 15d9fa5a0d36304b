//! GameCube disc filesystem (FST — File System Table).
//!
//! ```text
//! 0x0000  Game code (4), maker code (2), disc number, version
//! 0x001C  DVD magic 0xC2339F3D
//! 0x0020  Game title
//! 0x0420  DOL offset, 0x0424 FST offset, 0x0428 FST size
//! ```
//!
//! The FST is a flat array of 12-byte entries followed by a string table.
//! Each entry: flags (bit 0 = directory), 24-bit BE name offset, then
//! (file) disc offset and size or (directory) parent index and the index
//! one past its last descendant. Entry 0 is the root; its third word is the
//! entry count.

use vstd::prelude::*;
use vstd::string::StringSliceAdditionalSpecFns;
use crate::bytes::{be24, be32, rd_be24, rd_be32};
use crate::text::{eq_ci, first_index, find_from, bytes_eq_ci, lemma_first_index_unique, utf8_str, str_bytes};
use crate::gc_fs::{
    BlockDev, FsError, Metadata, Result, path_split, spec_path_split, lemma_path_split_shorter,
    name_after_set, sectors_bytes, zeros, read_run, dev_byte,
};

verus! {

pub const DISC_HEADER_SIZE: usize = 0x440;
pub const GC_MAGIC: u32 = 0xC233_9F3D;
pub const MAX_FST_ENTRIES: usize = 4096;
pub const MAX_STRTAB_SIZE: usize = 65536;
/// Size of the buffer the FST is read into: the entry table and string
/// table at their largest.
pub const FST_RAW_SIZE: usize = 114688;
/// Size of the buffer the disc header is read into.
pub const HDR_BUF_SIZE: usize = 4096;

/// Parsed disc header.
#[derive(Clone, Copy)]
pub struct DiscHeader {
    pub game_code: [u8; 4],
    pub maker_code: [u8; 2],
    pub disc_num: u8,
    pub version: u8,
    /// First 64 bytes of the title.
    pub title: [u8; 64],
    pub dol_offset: u32,
    pub fst_offset: u32,
    pub fst_size: u32,
}

/// `d` holds the fields of the header image `h`.
pub open spec fn header_matches(d: DiscHeader, h: Seq<u8>) -> bool {
    &&& d.game_code@ == h.subrange(0, 4)
    &&& d.maker_code@ == h.subrange(4, 6)
    &&& d.disc_num == h[6]
    &&& d.version == h[7]
    &&& d.title@ == h.subrange(0x20, 0x60)
    &&& d.dol_offset == be32(h, 0x420)
    &&& d.fst_offset == be32(h, 0x424)
    &&& d.fst_size == be32(h, 0x428)
}

fn copy_bytes<const N: usize>(dst: &mut [u8; N], src: &[u8], from: usize)
    requires
        from + N <= src@.len(),
    ensures
        final(dst)@ == src@.subrange(from as int, from + N),
{
    let mut i: usize = 0;
    let n = src.len();
    while i < N
        invariant
            n == src@.len(),
            from + N <= src@.len(),
            i <= N,
            dst@.len() == N,
            forall|k: int| 0 <= k < i ==> dst@[k] == src@[from + k],
        decreases N - i,
    {
        dst[i] = src[from + i];
        i = i + 1;
    }
    assert(dst@ =~= src@.subrange(from as int, from + N));
}

/// Decode the disc header from its first 0x440 bytes; a wrong magic word
/// is a bad format.
pub fn parse_header(h: &[u8]) -> (r: Result<DiscHeader>)
    requires
        h@.len() >= DISC_HEADER_SIZE,
    ensures
        match r {
            Ok(d) => be32(h@, 0x1C) == GC_MAGIC && header_matches(d, h@),
            Err(e) => be32(h@, 0x1C) != GC_MAGIC && e == FsError::BadFormat,
        },
{
    if rd_be32(h, 0x1C) != GC_MAGIC {
        return Err(FsError::BadFormat);
    }
    let mut d = DiscHeader {
        game_code: [0u8; 4],
        maker_code: [0u8; 2],
        disc_num: h[6],
        version: h[7],
        title: [0u8; 64],
        dol_offset: rd_be32(h, 0x420),
        fst_offset: rd_be32(h, 0x424),
        fst_size: rd_be32(h, 0x428),
    };
    copy_bytes(&mut d.game_code, h, 0);
    copy_bytes(&mut d.maker_code, h, 4);
    copy_bytes(&mut d.title, h, 0x20);
    Ok(d)
}

/// A mounted GameCube disc filesystem.
pub struct GcDvd<D: BlockDev> {
    dev: D,
    header: DiscHeader,
    /// FST entries, 12 bytes each.
    fst_data: Vec<u8>,
    fst_count: u32,
    /// String table.
    strtab: Vec<u8>,
    strtab_size: u32,
}

/// One decoded FST entry.
pub struct FstEntry<'a> {
    pub idx: u32,
    pub is_dir: bool,
    pub name: &'a str,
    /// File: disc offset. Directory: parent index.
    pub param1: u32,
    /// File: size. Directory: index one past its last descendant.
    pub param2: u32,
}

/// Number of sectors the header occupies, as many as four.
pub open spec fn hdr_sectors(ss: nat) -> nat {
    let n = (DISC_HEADER_SIZE + ss - 1) / ss as int;
    if n < 4 { n as nat } else { 4 }
}

/// The header buffer after mounting: the header sectors, then zeros.
pub open spec fn hdr_image<D: BlockDev>(dev: &D) -> Seq<u8> {
    let n = hdr_sectors(dev.sector_len());
    sectors_bytes(dev, 0, n) + zeros(HDR_BUF_SIZE - n * dev.sector_len())
}

/// Number of FST sectors read for an FST of `size` bytes.
pub open spec fn fst_sectors(ss: nat, size: int) -> nat {
    let n = (size + ss - 1) / ss as int;
    let cap = FST_RAW_SIZE as int / ss as int;
    if n < cap { n as nat } else { cap as nat }
}

/// The FST buffer after mounting: the FST sectors, then zeros.
pub open spec fn fst_image<D: BlockDev>(dev: &D, off: int, size: int) -> Seq<u8> {
    let ss = dev.sector_len();
    let n = fst_sectors(ss, size);
    sectors_bytes(dev, off / ss as int, n) + zeros(FST_RAW_SIZE - n * ss)
}

impl<D: BlockDev> GcDvd<D> {
    /// Internal consistency of the tables.
    pub open spec fn wf(&self) -> bool {
        &&& self.spec_fst_data().len() == MAX_FST_ENTRIES * 12
        &&& self.spec_fst_count() <= MAX_FST_ENTRIES
        &&& self.spec_strtab().len() == MAX_STRTAB_SIZE
        &&& self.spec_strtab_size() <= MAX_STRTAB_SIZE
    }

    pub closed spec fn spec_dev(&self) -> D {
        self.dev
    }

    pub closed spec fn spec_header(&self) -> DiscHeader {
        self.header
    }

    pub closed spec fn spec_fst_data(&self) -> Seq<u8> {
        self.fst_data@
    }

    pub closed spec fn spec_fst_count(&self) -> u32 {
        self.fst_count
    }

    pub closed spec fn spec_strtab(&self) -> Seq<u8> {
        self.strtab@
    }

    pub closed spec fn spec_strtab_size(&self) -> u32 {
        self.strtab_size
    }

    /// The tables as `mount` builds them from a header image `h` and an FST
    /// image `f`.
    pub open spec fn built_from(&self, h: Seq<u8>, f: Seq<u8>) -> bool {
        header_matches(self.spec_header(), h) && self.tables_from(f)
    }

    /// The entry and string tables as `mount` builds them from the FST
    /// image `f`.
    pub open spec fn tables_from(&self, f: Seq<u8>) -> bool {
        let fc = if be32(f, 8) < MAX_FST_ENTRIES { be32(f, 8) } else { MAX_FST_ENTRIES as int };
        let soff = fc * 12;
        let slen = if self.spec_header().fst_size >= soff { self.spec_header().fst_size - soff } else { 0 };
        let copy = if slen < MAX_STRTAB_SIZE { slen } else { MAX_STRTAB_SIZE as int };
        &&& self.spec_fst_count() == fc
        &&& self.spec_fst_data() == f.subrange(0, soff) + zeros(MAX_FST_ENTRIES * 12 - soff)
        &&& self.spec_strtab_size() == copy
        &&& self.spec_strtab() == if soff + copy <= FST_RAW_SIZE {
            f.subrange(soff, soff + copy) + zeros(MAX_STRTAB_SIZE - copy)
        } else {
            zeros(MAX_STRTAB_SIZE as int)
        }
    }

    /// Where a 12-byte FST entry keeps its fields: the type byte first (bit
    /// 0 set for a directory), the name's string-table offset in the next
    /// three bytes, then two big-endian words (a file's disc offset and
    /// length; a directory's parent and the index past its last entry).
    pub proof fn fst_entry_law(&self, i: int)
        ensures
            ({
                let f = self.spec_fst_data();
                let o = i * 12;
                &&& self.entry_is_dir(i) == (f[o] & 1 != 0)
                &&& self.entry_name_off(i) == f[o + 1] * 0x1_0000 + f[o + 2] * 0x100 + f[o + 3]
                &&& self.entry_p1(i) == f[o + 4] * 0x100_0000 + f[o + 5] * 0x1_0000 + f[o + 6] * 0x100 + f[o + 7]
                &&& self.entry_p2(i) == f[o + 8] * 0x100_0000 + f[o + 9] * 0x1_0000 + f[o + 10] * 0x100 + f[o + 11]
            }),
    {
        let b = self.spec_fst_data()[i * 12];
        assert((b % 2 == 1) == (b & 1 != 0)) by (bit_vector);
    }

    pub open spec fn entry_is_dir(&self, i: int) -> bool {
        self.spec_fst_data()[i * 12] % 2 == 1
    }

    pub open spec fn entry_name_off(&self, i: int) -> int {
        be24(self.spec_fst_data(), i * 12 + 1)
    }

    pub open spec fn entry_p1(&self, i: int) -> int {
        be32(self.spec_fst_data(), i * 12 + 4)
    }

    pub open spec fn entry_p2(&self, i: int) -> int {
        be32(self.spec_fst_data(), i * 12 + 8)
    }

    /// Bytes of the string-table name at `off`: up to its NUL; empty when
    /// `off` is past the table or no NUL follows; `"?"` when not UTF-8.
    pub open spec fn name_bytes(&self, off: int) -> Seq<u8> {
        let size = self.spec_strtab_size() as int;
        if off >= size {
            Seq::empty()
        } else {
            let tail = self.spec_strtab().subrange(off, size);
            let e = match first_index(tail, 0) {
                Some(i) => i,
                None => 0,
            };
            let raw = tail.subrange(0, e);
            if vstd::utf8::valid_utf8(raw) { raw } else { seq![0x3Fu8] }
        }
    }

    pub open spec fn entry_name(&self, i: int) -> Seq<u8> {
        self.name_bytes(self.entry_name_off(i))
    }

    /// Index of the entry after `i` among its siblings.
    pub open spec fn next_sibling(&self, i: int) -> int {
        if self.entry_is_dir(i) { self.entry_p2(i) } else { i + 1 }
    }

    /// Result of resolving `path` below directory `dir`.
    pub open spec fn find(&self, dir: int, path: Seq<u8>) -> Result<u32>
        decreases path.len(), 0x2_0000_0000int,
    {
        let (first, rest) = spec_path_split(path);
        if first.len() == 0 {
            Ok(dir as u32)
        } else if dir >= self.spec_fst_count() || dir < 0 {
            Err(FsError::NotFound)
        } else {
            let end = if dir == 0 { self.spec_fst_count() as int } else { self.entry_p2(dir) };
            if end <= dir + 1 || end > 0x1_0000_0000int {
                Err(FsError::NotFound)
            } else {
                self.scan(path, dir + 1, end)
            }
        }
    }

    /// Result of searching the siblings from `i` (before `end`) for the
    /// first component of `path`, then resolving the rest below it.
    pub open spec fn scan(&self, path: Seq<u8>, i: int, end: int) -> Result<u32>
        decreases path.len(), end - i,
    {
        let (first, rest) = spec_path_split(path);
        if i >= end || i >= self.spec_fst_count() || i < 0 || end > 0x1_0000_0000int {
            Err(FsError::NotFound)
        } else if eq_ci(self.entry_name(i), first) {
            if rest.len() == 0 {
                Ok(i as u32)
            } else if self.entry_is_dir(i) {
                proof {
                    lemma_path_split_shorter(path);
                }
                if first.len() > 0 { self.find(i, rest) } else { Err(FsError::NotFound) }
            } else {
                Err(FsError::WrongType)
            }
        } else if self.next_sibling(i) <= i || self.next_sibling(i) >= end {
            Err(FsError::NotFound)
        } else {
            self.scan(path, self.next_sibling(i), end)
        }
    }

    /// Indices of the siblings from `i` before `end`, in table order.
    pub open spec fn listing(&self, i: int, end: int) -> Seq<int>
        decreases end - i,
    {
        if i >= end || i >= self.spec_fst_count() || i < 0 {
            Seq::empty()
        } else if self.next_sibling(i) <= i || self.next_sibling(i) >= end {
            seq![i]
        } else {
            seq![i] + self.listing(self.next_sibling(i), end)
        }
    }

    /// `m` is the metadata reported for entry `i`.
    pub open spec fn meta_of(&self, m: Metadata, i: int) -> bool {
        &&& m.is_dir == self.entry_is_dir(i)
        &&& m.size == (if self.entry_is_dir(i) { 0 } else { self.entry_p2(i) })
        &&& !m.readonly
        &&& !m.hidden
        &&& m.mtime == 0
        &&& m.name@ == name_after_set(Seq::new(256, |k: int| 0u8), self.entry_name(i))
    }

    /// The children of directory `dir`.
    pub open spec fn children(&self, dir: int) -> Seq<int> {
        let end = if dir == 0 { self.spec_fst_count() as int } else { self.entry_p2(dir) };
        self.listing(dir + 1, end)
    }

    /// Mount the disc on `dev`: read and check the header, then read the FST.
    pub fn mount(dev: D) -> (r: Result<Self>)
        requires
            0 < dev.sector_len() <= HDR_BUF_SIZE,
        ensures
            match r {
                Ok(v) => {
                    &&& v.wf()
                    &&& v.spec_dev() == dev
                    &&& be32(hdr_image(&dev), 0x1C) == GC_MAGIC
                    &&& v.built_from(
                        hdr_image(&dev),
                        fst_image(&dev, v.spec_header().fst_offset as int, v.spec_header().fst_size as int),
                    )
                },
                Err(_) => true,
            },
            be32(hdr_image(&dev), 0x1C) != GC_MAGIC ==> r is Err,
    {
        let ss = dev.sector_size();
        let hs0 = (DISC_HEADER_SIZE + ss - 1) / ss;
        let hs = if hs0 < 4 { hs0 } else { 4 };
        proof {
            assert(hs * ss <= HDR_BUF_SIZE) by (nonlinear_arith)
                requires
                    hs <= 4,
                    ss <= HDR_BUF_SIZE,
                    hs <= hs0,
                    hs0 == (DISC_HEADER_SIZE + ss - 1) / ss as int,
                    ss > 0,
            ;
        }
        let mut hdr_buf: Vec<u8> = vec![0u8; HDR_BUF_SIZE];
        let ghost z = hdr_buf@;
        read_run(&dev, 0, hs, &mut hdr_buf)?;
        proof {
            assert(z.subrange(hs * ss, HDR_BUF_SIZE as int) =~= zeros(HDR_BUF_SIZE - hs * ss));
            assert(hdr_buf@ =~= hdr_image(&dev));
        }
        let header = parse_header(hdr_buf.as_slice())?;

        let fst_lba = header.fst_offset as u64 / ss as u64;
        let fs0 = (header.fst_size as u64 + ss as u64 - 1) / ss as u64;
        let cap = FST_RAW_SIZE / ss;
        let fs = if fs0 < cap as u64 { fs0 as usize } else { cap };
        proof {
            assert(fs * ss <= FST_RAW_SIZE) by (nonlinear_arith)
                requires
                    fs <= cap,
                    cap == FST_RAW_SIZE as int / ss as int,
                    ss > 0,
            ;
        }
        let mut fst_raw: Vec<u8> = vec![0u8; FST_RAW_SIZE];
        let ghost zf = fst_raw@;
        read_run(&dev, fst_lba, fs, &mut fst_raw)?;
        proof {
            assert(zf.subrange(fs * ss, FST_RAW_SIZE as int) =~= zeros(FST_RAW_SIZE - fs * ss));
            assert(fst_raw@ =~= fst_image(&dev, header.fst_offset as int, header.fst_size as int));
        }

        let v = Self::from_tables(dev, header, &fst_raw);
        Ok(v)
    }

    /// Build the entry and string tables from the raw FST bytes.
    fn from_tables(dev: D, header: DiscHeader, fst_raw: &Vec<u8>) -> (v: Self)
        requires
            fst_raw@.len() == FST_RAW_SIZE,
        ensures
            v.wf(),
            v.spec_dev() == dev,
            v.spec_header() == header,
            v.tables_from(fst_raw@),
    {
        let root_count = rd_be32(fst_raw.as_slice(), 8);
        let fst_count = if root_count < MAX_FST_ENTRIES as u32 { root_count } else { MAX_FST_ENTRIES as u32 };
        let strtab_off = (fst_count as usize) * 12;
        let strtab_len = if header.fst_size as usize >= strtab_off { header.fst_size as usize - strtab_off } else { 0 };
        let copy_str = if strtab_len < MAX_STRTAB_SIZE { strtab_len } else { MAX_STRTAB_SIZE };

        let mut fst_data: Vec<u8> = vec![0u8; MAX_FST_ENTRIES * 12];
        let mut i: usize = 0;
        while i < strtab_off
            invariant
                strtab_off <= MAX_FST_ENTRIES * 12,
                fst_raw@.len() == FST_RAW_SIZE,
                fst_data@.len() == MAX_FST_ENTRIES * 12,
                i <= strtab_off,
                forall|k: int| 0 <= k < i ==> fst_data@[k] == fst_raw@[k],
                forall|k: int| i <= k < MAX_FST_ENTRIES * 12 ==> fst_data@[k] == 0,
            decreases strtab_off - i,
        {
            fst_data.set(i, fst_raw[i]);
            i = i + 1;
        }
        let mut strtab: Vec<u8> = vec![0u8; MAX_STRTAB_SIZE];
        if strtab_off + copy_str <= FST_RAW_SIZE {
            let mut j: usize = 0;
            while j < copy_str
                invariant
                    copy_str <= MAX_STRTAB_SIZE,
                    strtab_off + copy_str <= FST_RAW_SIZE,
                    fst_raw@.len() == FST_RAW_SIZE,
                    strtab@.len() == MAX_STRTAB_SIZE,
                    j <= copy_str,
                    forall|k: int| 0 <= k < j ==> strtab@[k] == fst_raw@[strtab_off + k],
                    forall|k: int| j <= k < MAX_STRTAB_SIZE ==> strtab@[k] == 0,
                decreases copy_str - j,
            {
                strtab.set(j, fst_raw[strtab_off + j]);
                j = j + 1;
            }
        }
        let v = GcDvd {
            dev,
            header,
            fst_data,
            fst_count,
            strtab,
            strtab_size: copy_str as u32,
        };
        proof {
            let f = fst_raw@;
            assert(v.spec_fst_data() =~= f.subrange(0, strtab_off as int) + zeros(
                MAX_FST_ENTRIES * 12 - strtab_off,
            ));
            if strtab_off + copy_str <= FST_RAW_SIZE {
                assert(v.spec_strtab() =~= f.subrange(strtab_off as int, strtab_off + copy_str)
                    + zeros(MAX_STRTAB_SIZE - copy_str));
            } else {
                assert(v.spec_strtab() =~= zeros(MAX_STRTAB_SIZE as int));
            }
        }
        v
    }


    /// The string-table name at `off`.
    pub fn strtab_str(&self, off: usize) -> (r: &str)
        requires
            self.wf(),
        ensures
            r.spec_bytes() == self.name_bytes(off as int),
    {
        let size = self.strtab_size as usize;
        if off >= size {
            proof {
                reveal_strlit("");
            }
            return "";
        }
        let (_, tail0) = self.strtab.as_slice().split_at(off);
        let (tail, _) = tail0.split_at(size - off);
        assert(tail@ =~= self.spec_strtab().subrange(off as int, size as int));
        let p = find_from(tail, 0, 0);
        proof {
            lemma_first_index_unique(tail@, 0, p as int);
        }
        let e = if p < tail.len() { p } else { 0 };
        let (raw, _) = tail.split_at(e);
        assert(raw@ == tail@.subrange(0, e as int));
        assert(e as int == match first_index(tail@, 0) {
            Some(i) => i,
            None => 0,
        });
        match utf8_str(raw) {
            Some(s) => {
                proof {
                    vstd::utf8::encode_utf8_valid_utf8(s@);
                }
                s
            },
            None => {
                proof {
                    reveal_strlit("?");
                    vstd::string::is_ascii_spec_bytes("?");
                    assert("?".spec_bytes() =~= seq![0x3Fu8]);
                }
                "?"
            },
        }
    }

    /// Decode entry `idx`, or `None` past the end of the table.
    pub fn entry(&self, idx: u32) -> (r: Option<FstEntry<'_>>)
        requires
            self.wf(),
        ensures
            match r {
                Some(e) => {
                    &&& idx < self.spec_fst_count()
                    &&& e.idx == idx
                    &&& e.is_dir == self.entry_is_dir(idx as int)
                    &&& e.name.spec_bytes() == self.entry_name(idx as int)
                    &&& e.param1 == self.entry_p1(idx as int)
                    &&& e.param2 == self.entry_p2(idx as int)
                },
                None => idx >= self.spec_fst_count(),
            },
    {
        if idx >= self.fst_count {
            return None;
        }
        let off = (idx as usize) * 12;
        let d = self.fst_data.as_slice();
        let is_dir = d[off] % 2 == 1;
        let name_off = rd_be24(d, off + 1);
        let param1 = rd_be32(d, off + 4);
        let param2 = rd_be32(d, off + 8);
        let name = self.strtab_str(name_off as usize);
        Some(FstEntry { idx, is_dir, name, param1, param2 })
    }

    /// Resolve `path` below directory `dir_idx` to an entry index.
    pub fn find_in_dir(&self, dir_idx: u32, path: &str) -> (r: Result<u32>)
        requires
            self.wf(),
        ensures
            r == self.find(dir_idx as int, path.spec_bytes()),
        decreases path.spec_bytes().len(),
    {
        let (first, rest) = path_split(path);
        proof {
            lemma_path_split_shorter(path.spec_bytes());
        }
        if str_bytes(first).len() == 0 {
            assert(spec_path_split(path.spec_bytes()).0.len() == 0);
            assert(self.find(dir_idx as int, path.spec_bytes()) == Ok::<u32, FsError>(dir_idx));
            return Ok(dir_idx);
        }
        let root = match self.entry(dir_idx) {
            Some(e) => e,
            None => return Err(FsError::NotFound),
        };
        let end = if dir_idx == 0 { self.fst_count } else { root.param2 };
        let mut i = dir_idx + 1;
        let ghost p = path.spec_bytes();
        while i < end
            invariant
                self.wf(),
                dir_idx < self.spec_fst_count(),
                end as int == (if dir_idx == 0 { self.spec_fst_count() as int } else { self.entry_p2(dir_idx as int) }),
                (first.spec_bytes(), rest.spec_bytes()) == spec_path_split(p),
                p == path.spec_bytes(),
                first.spec_bytes().len() > 0,
                rest.spec_bytes().len() < p.len(),
                self.scan(p, i as int, end as int) == self.find(dir_idx as int, p),
            decreases end - i,
        {
            let e = match self.entry(i) {
                Some(e) => e,
                None => return Err(FsError::NotFound),
            };
            if bytes_eq_ci(str_bytes(e.name), str_bytes(first)) {
                proof {
                    assert(eq_ci(self.entry_name(i as int), first.spec_bytes())) by {
                        assert forall|k: int| 0 <= k < first.spec_bytes().len() implies crate::text::upper(
                            #[trigger] self.entry_name(i as int)[k],
                        ) == crate::text::upper(first.spec_bytes()[k]) by {
                            assert(crate::text::upper(e.name.spec_bytes()[k]) == crate::text::upper(first.spec_bytes()[k]));
                        }
                    }
                }
                if str_bytes(rest).len() == 0 {
                    return Ok(i);
                } else if e.is_dir {
                    return self.find_in_dir(i, rest);
                } else {
                    return Err(FsError::WrongType);
                }
            }
            proof {
                if eq_ci(self.entry_name(i as int), first.spec_bytes()) {
                    assert(eq_ci(e.name.spec_bytes(), first.spec_bytes()));
                }
            }
            let nx = if e.is_dir { e.param2 } else { i + 1 };
            if nx <= i || nx >= end {
                return Err(FsError::NotFound);
            }
            i = nx;
        }
        Err(FsError::NotFound)
    }

    /// Resolve an absolute path to an entry index.
    pub fn find_path(&self, path: &str) -> (r: Result<u32>)
        requires
            self.wf(),
        ensures
            r == self.find(0, path.spec_bytes()),
    {
        self.find_in_dir(0, path)
    }

    pub fn header(&self) -> (r: &DiscHeader)
        ensures
            *r == self.spec_header(),
    {
        &self.header
    }

    /// A mounted disc carries the disc magic at 0x1C of its first bytes,
    /// and its header holds the game code, maker code, disc number,
    /// version and title from those bytes, and the DOL offset, FST offset
    /// and FST size stored big-endian at 0x420, 0x424 and 0x428.
    pub proof fn header_law(&self, f: Seq<u8>)
        requires
            be32(hdr_image(&self.spec_dev()), 0x1C) == GC_MAGIC,
            self.built_from(hdr_image(&self.spec_dev()), f),
        ensures
            ({
                let d = hdr_image(&self.spec_dev());
                let h = self.spec_header();
                &&& be32(d, 0x1C) == 0xC233_9F3D
                &&& h.game_code@ == d.subrange(0, 4)
                &&& h.maker_code@ == d.subrange(4, 6)
                &&& h.disc_num == d[6]
                &&& h.version == d[7]
                &&& h.title@ == d.subrange(0x20, 0x60)
                &&& h.dol_offset == be32(d, 0x420)
                &&& h.fst_offset == be32(d, 0x424)
                &&& h.fst_size == be32(d, 0x428)
            }),
    {
    }

    /// The metadata of entry `i`.
    fn entry_meta(&self, e: &FstEntry) -> (m: Metadata)
        requires
            self.wf(),
            e.idx < self.spec_fst_count(),
            e.is_dir == self.entry_is_dir(e.idx as int),
            e.name.spec_bytes() == self.entry_name(e.idx as int),
            e.param2 == self.entry_p2(e.idx as int),
        ensures
            self.meta_of(m, e.idx as int),
    {
        let mut meta = Metadata::zeroed();
        meta.is_dir = e.is_dir;
        meta.size = if e.is_dir { 0 } else { e.param2 as u64 };
        meta.set_name(e.name);
        meta
    }

    /// List the directory at `path`: one entry per child, in table order.
    pub fn read_dir(&self, path: &str) -> (r: Result<Vec<Metadata>>)
        requires
            self.wf(),
        ensures
            match self.find(0, path.spec_bytes()) {
                Err(e) => r == Err::<Vec<Metadata>, FsError>(e),
                Ok(d) => if d >= self.spec_fst_count() {
                    r == Err::<Vec<Metadata>, FsError>(FsError::NotFound)
                } else if !self.entry_is_dir(d as int) && d != 0 {
                    r == Err::<Vec<Metadata>, FsError>(FsError::WrongType)
                } else {
                    r matches Ok(v) && v@.len() == self.children(d as int).len() && forall|k: int|
                        0 <= k < v@.len() ==> self.meta_of(#[trigger] v@[k], self.children(d as int)[k])
                },
            },
    {
        let dir_idx = self.find_path(path)?;
        let e = match self.entry(dir_idx) {
            Some(e) => e,
            None => return Err(FsError::NotFound),
        };
        if !e.is_dir && dir_idx != 0 {
            return Err(FsError::WrongType);
        }
        let end = if dir_idx == 0 { self.fst_count } else { e.param2 };
        let mut out: Vec<Metadata> = Vec::new();
        let mut i = dir_idx + 1;
        let ghost all = self.children(dir_idx as int);
        while i < end
            invariant
                self.wf(),
                dir_idx < self.spec_fst_count(),
                end as int == (if dir_idx == 0 { self.spec_fst_count() as int } else { self.entry_p2(dir_idx as int) }),
                all == self.children(dir_idx as int),
                out@.len() + self.listing(i as int, end as int).len() == all.len(),
                self.listing(i as int, end as int) =~= all.subrange(out@.len() as int, all.len() as int),
                forall|k: int| 0 <= k < out@.len() ==> self.meta_of(#[trigger] out@[k], all[k]),
            decreases end - i,
        {
            let c = match self.entry(i) {
                Some(c) => c,
                None => {
                    proof {
                        assert(self.listing(i as int, end as int) =~= Seq::<int>::empty());
                        assert(self.listing(end as int, end as int) =~= Seq::<int>::empty());
                    }
                    i = end;
                    continue;
                },
            };
            let m = self.entry_meta(&c);
            let ghost before = out@;
            out.push(m);
            let nx = if c.is_dir { c.param2 } else { i + 1 };
            proof {
                assert(self.listing(i as int, end as int)[0] == i);
                assert(all[before.len() as int] == i);
            }
            if nx <= i || nx >= end {
                proof {
                    assert(self.listing(i as int, end as int) =~= seq![i as int]);
                    assert(self.listing(end as int, end as int) =~= Seq::<int>::empty());
                    assert(out@.len() == all.len());
                    assert(all.subrange(out@.len() as int, all.len() as int) =~= Seq::<int>::empty());
                }
                i = end;
            } else {
                proof {
                    let li = self.listing(i as int, end as int);
                    let ln = self.listing(nx as int, end as int);
                    assert(li =~= seq![i as int] + ln);
                    assert(li =~= all.subrange(before.len() as int, all.len() as int));
                    assert forall|k: int| 0 <= k < ln.len() implies ln[k] == all[out@.len() + k] by {
                        assert(ln[k] == li[k + 1]);
                    }
                    assert(ln =~= all.subrange(out@.len() as int, all.len() as int));
                }
                i = nx;
            }
        }
        Ok(out)
    }

    /// Read the start of the file at `path` into `buf`: as many bytes as
    /// both hold. Returns the number of bytes read.
    pub fn read_file(&self, path: &str, buf: &mut [u8]) -> (r: Result<usize>)
        requires
            self.wf(),
            0 < self.spec_dev().sector_len() <= HDR_BUF_SIZE,
        ensures
            final(buf)@.len() == old(buf)@.len(),
            match self.find(0, path.spec_bytes()) {
                Err(e) => r == Err::<usize, FsError>(e),
                Ok(d) => if d >= self.spec_fst_count() {
                    r == Err::<usize, FsError>(FsError::NotFound)
                } else if self.entry_is_dir(d as int) {
                    r == Err::<usize, FsError>(FsError::WrongType)
                } else {
                    r matches Ok(n) ==> {
                        &&& n as int == if old(buf)@.len() < self.entry_p2(d as int) {
                            old(buf)@.len() as int
                        } else {
                            self.entry_p2(d as int)
                        }
                        &&& forall|k: int| 0 <= k < n ==> final(buf)@[k] == dev_byte(
                            &self.spec_dev(),
                            self.entry_p1(d as int) + k,
                        )
                        &&& forall|k: int| n <= k < old(buf)@.len() ==> final(buf)@[k] == old(buf)@[k]
                    }
                },
            },
    {
        let idx = self.find_path(path)?;
        let e = match self.entry(idx) {
            Some(e) => e,
            None => return Err(FsError::NotFound),
        };
        if e.is_dir {
            return Err(FsError::WrongType);
        }
        let disc_offset = e.param1 as u64;
        let file_size = e.param2 as usize;
        let to_read = if buf.len() < file_size { buf.len() } else { file_size };
        let ss = self.dev.sector_size();
        let lba = disc_offset / ss as u64;
        let off = (disc_offset % ss as u64) as usize;
        let mut tmp: Vec<u8> = vec![0u8; ss];
        let mut written: usize = 0;
        let mut s: u64 = 0;
        let ghost p1 = self.entry_p1(idx as int);
        proof {
            vstd::arithmetic::div_mod::lemma_fundamental_div_mod(p1, ss as int);
        }
        while written < to_read
            invariant
                self.find(0, path.spec_bytes()) == Ok::<u32, FsError>(idx),
                idx < self.spec_fst_count(),
                !self.entry_is_dir(idx as int),
                p1 == self.entry_p1(idx as int),
                file_size == self.entry_p2(idx as int),
                to_read == if old(buf)@.len() < file_size { old(buf)@.len() as int } else { file_size as int },
                ss == self.spec_dev().sector_len(),
                0 < ss <= HDR_BUF_SIZE,
                tmp@.len() == ss,
                disc_offset == p1,
                p1 == ss * lba + off,
                off < ss,
                lba <= 0xFFFF_FFFF,
                written <= to_read,
                to_read <= file_size,
                file_size <= 0xFFFF_FFFF,
                to_read <= buf@.len(),
                buf@.len() == old(buf)@.len(),
                s <= written + 1,
                (s == 0 && written == 0) || (s > 0 && (written < to_read ==> written + off == s * ss)),
                forall|k: int| 0 <= k < written ==> buf@[k] == dev_byte(&self.spec_dev(), p1 + k),
                forall|k: int| written <= k < buf@.len() ==> buf@[k] == old(buf)@[k],
            decreases to_read - written,
        {
            match self.dev.read_sector(lba + s, tmp.as_mut_slice()) {
                Ok(()) => {},
                Err(e) => return Err(e),
            }
            assert(tmp@ =~= tmp@.subrange(0, ss as int));
            let src_off = if s == 0 { off } else { 0 };
            let avail = ss - src_off;
            let take = if avail < to_read - written { avail } else { to_read - written };
            let mut j: usize = 0;
            while j < take
                invariant
                    ss == tmp@.len(),
                    src_off + take <= ss,
                    written + take <= to_read,
                    to_read <= buf@.len(),
                    buf@.len() == old(buf)@.len(),
                    j <= take,
                    forall|k: int| 0 <= k < written ==> buf@[k] == dev_byte(&self.spec_dev(), p1 + k),
                    forall|k: int| written <= k < written + j ==> buf@[k] == tmp@[src_off + k - written],
                    forall|k: int| written + j <= k < buf@.len() ==> buf@[k] == old(buf)@[k],
                decreases take - j,
            {
                buf[written + j] = tmp[src_off + j];
                j = j + 1;
            }
            proof {
                assert forall|k: int| written <= k < written + take implies buf@[k] == dev_byte(
                    &self.spec_dev(),
                    p1 + k,
                ) by {
                    let pos = p1 + k;
                    let q = lba + s;
                    let rr = src_off + k - written;
                    if s == 0 {
                        assert(pos == ss * q + rr);
                    } else {
                        assert(ss * q == ss * lba + ss * s) by (nonlinear_arith)
                            requires q == lba + s;
                        assert(pos == ss * q + rr);
                    }
                    assert(pos == q * ss + rr) by (nonlinear_arith)
                        requires pos == ss * q + rr;
                    vstd::arithmetic::div_mod::lemma_fundamental_div_mod_converse(pos, ss as int, q as int, rr);
                }
                if s > 0 && written + take < to_read {
                    assert(take == ss);
                    assert((s + 1) * ss == s * ss + ss) by (nonlinear_arith);
                }
                if s == 0 && written + take < to_read {
                    assert(take == ss - off);
                }
            }
            written = written + take;
            s = s + 1;
        }
        Ok(written)
    }

    /// Metadata of the entry at `path`.
    pub fn stat(&self, path: &str) -> (r: Result<Metadata>)
        requires
            self.wf(),
        ensures
            match self.find(0, path.spec_bytes()) {
                Err(e) => r == Err::<Metadata, FsError>(e),
                Ok(d) => if d >= self.spec_fst_count() {
                    r == Err::<Metadata, FsError>(FsError::NotFound)
                } else {
                    r matches Ok(m) && self.meta_of(m, d as int)
                },
            },
    {
        let idx = self.find_path(path)?;
        let e = match self.entry(idx) {
            Some(e) => e,
            None => return Err(FsError::NotFound),
        };
        Ok(self.entry_meta(&e))
    }
}

} // verus!

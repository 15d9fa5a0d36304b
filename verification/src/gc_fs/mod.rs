//! Unified GameCube/Wii filesystem library: the error type, directory-entry
//! metadata, the block-device interface every driver is generic over, and
//! the path helpers shared by the drivers.
//!
//! | Module     | Filesystem              |
//! |------------|-------------------------|
//! | `fat`      | FAT32 + ExFAT           |
//! | `ext2`     | EXT2/3/4 (read-only)    |
//! | `memcard`  | Nintendo memory card    |
//! | `dvd`      | GameCube disc (FST)     |
//! | `iso9660`  | ISO 9660                |

use vstd::prelude::*;
use vstd::string::StringSliceAdditionalSpecFns;
use crate::text::{
    bytes_eq_ci, count_kept_before_trailing, count_leading, eq_ci, find_from, first_index,
    lemma_first_index, lemma_first_index_unique, lemma_trim_start, split_str, str_bytes, trim_end, trim_start, utf8_str,
};

pub mod dvd;
pub mod ext2;
pub mod fat;
pub mod iso9660;
pub mod memcard;
pub mod vfs;

verus! {

/// Errors returned by filesystem operations.
#[derive(Debug, Clone, Copy, PartialEq, Eq, Structural)]
pub enum FsError {
    /// Block device I/O failed.
    Io,
    /// Unrecognised or corrupt filesystem.
    BadFormat,
    /// Path not found.
    NotFound,
    /// Write on a read-only filesystem.
    ReadOnly,
    /// Read past the end of a file.
    Eof,
    /// Caller's buffer too small.
    BufferTooSmall,
    /// Bad path, bad offset, etc.
    InvalidArg,
    /// No free space.
    NoSpace,
    /// rmdir on a non-empty directory.
    NotEmpty,
    /// File vs. directory mismatch.
    WrongType,
    /// Operation not implemented for this filesystem.
    Unsupported,
    /// Volume table full.
    TooManyMounts,
    /// The volume still has open files.
    FilesOpen,
}

pub type Result<T> = core::result::Result<T, FsError>;

/// Filesystem kind hint.
#[derive(Clone, Copy, PartialEq, Eq, Debug, Structural)]
pub enum FsKind {
    /// Probe and detect.
    Auto,
    /// FAT32.
    Fat,
    /// ExFAT.
    ExFat,
    /// EXT2/3/4.
    Ext2,
    /// Nintendo memory card.
    MemCard,
    /// GameCube disc filesystem (FST).
    GcDvd,
    /// ISO 9660.
    Iso9660,
}

/// Directory entry metadata.
#[derive(Clone, Copy)]
pub struct Metadata {
    pub size: u64,
    pub is_dir: bool,
    pub readonly: bool,
    pub hidden: bool,
    /// Modification time as a Unix timestamp; 0 when unknown.
    pub mtime: u32,
    /// NUL-terminated name.
    pub name: [u8; 256],
}

/// Length of the name stored NUL-terminated in `name`: the index of the
/// first NUL, or the full width when there is none.
pub open spec fn name_len(name: Seq<u8>) -> int {
    match first_index(name, 0) {
        Some(i) => i,
        None => name.len() as int,
    }
}

/// The bytes `set_name` stores for `s`: at most 255 of them.
pub open spec fn stored_name(s: Seq<u8>) -> Seq<u8> {
    if s.len() <= 255 { s } else { s.subrange(0, 255) }
}

/// `name` after `set_name(s)`: the stored bytes, then a NUL, then the old tail.
pub open spec fn name_after_set(name: Seq<u8>, s: Seq<u8>) -> Seq<u8> {
    let b = stored_name(s);
    b + seq![0u8] + name.subrange(b.len() as int + 1, name.len() as int)
}

impl Metadata {
    /// An all-zero entry: size 0, a file, writable, empty name.
    pub fn zeroed() -> (m: Self)
        ensures
            m.size == 0,
            !m.is_dir,
            !m.readonly,
            !m.hidden,
            m.mtime == 0,
            m.name@ == Seq::new(256, |i: int| 0u8),
    {
        let m = Metadata { size: 0, is_dir: false, readonly: false, hidden: false, mtime: 0, name: [0u8; 256] };
        assert(m.name@ =~= Seq::new(256, |i: int| 0u8));
        m
    }

    /// The name up to its first NUL, or `"<invalid>"` when those bytes are
    /// not UTF-8.
    pub fn name_str(&self) -> (r: &str)
        ensures
            ({
                let n = self.name@.subrange(0, name_len(self.name@));
                if vstd::utf8::valid_utf8(n) { r.spec_bytes() == n } else { r@ == "<invalid>"@ }
            }),
    {
        let all = self.name.as_slice();
        let end = find_from(all, 0, 0);
        proof {
            lemma_first_index_unique(self.name@, 0, end as int);
        }
        let (head, _) = all.split_at(end);
        assert(head@ == self.name@.subrange(0, name_len(self.name@)));
        match utf8_str(head) {
            Some(s) => {
                proof {
                    vstd::utf8::encode_utf8_valid_utf8(s@);
                }
                s
            },
            None => "<invalid>",
        }
    }

    /// Store `s` as the name: at most 255 bytes, then a NUL.
    pub fn set_name(&mut self, s: &str)
        ensures
            final(self).name@ == name_after_set(old(self).name@, s.spec_bytes()),
            final(self).size == old(self).size,
            final(self).is_dir == old(self).is_dir,
            final(self).readonly == old(self).readonly,
            final(self).hidden == old(self).hidden,
            final(self).mtime == old(self).mtime,
    {
        self.set_name_bytes(str_bytes(s));
    }

    /// Store the bytes `b` as the name: at most 255 of them, then a NUL.
    pub fn set_name_bytes(&mut self, b: &[u8])
        ensures
            final(self).name@ == name_after_set(old(self).name@, b@),
            final(self).size == old(self).size,
            final(self).is_dir == old(self).is_dir,
            final(self).readonly == old(self).readonly,
            final(self).hidden == old(self).hidden,
            final(self).mtime == old(self).mtime,
    {
        let n = if b.len() < 255 { b.len() } else { 255 };
        let mut i: usize = 0;
        while i < n
            invariant
                n <= 255,
                n <= b@.len(),
                n == stored_name(b@).len(),
                i <= n,
                self.name@.len() == 256,
                forall|j: int| 0 <= j < i ==> self.name@[j] == b@[j],
                forall|j: int| i <= j < 256 ==> self.name@[j] == old(self).name@[j],
                self.size == old(self).size,
                self.is_dir == old(self).is_dir,
                self.readonly == old(self).readonly,
                self.hidden == old(self).hidden,
                self.mtime == old(self).mtime,
            decreases n - i,
        {
            self.name[i] = b[i];
            i = i + 1;
        }
        self.name[n] = 0;
        assert(self.name@ =~= name_after_set(old(self).name@, b@));
    }
}

/// Block-addressable storage that every filesystem driver is generic over.
///
/// Implementations describe their contents through `sector`; a read yields
/// the sector's bytes, and a write replaces them.
pub trait BlockDev {
    /// Bytes per sector.
    spec fn sector_len(&self) -> nat;

    /// Current contents of sector `lba`.
    spec fn sector(&self, lba: int) -> Seq<u8>;

    fn sector_size(&self) -> (r: usize)
        ensures
            r as nat == self.sector_len(),
    ;

    /// Number of sectors.
    spec fn sector_total(&self) -> nat;

    fn sector_count(&self) -> (r: u64)
        ensures
            r as nat == self.sector_total(),
    ;

    /// Read one sector into the front of `buf`.
    fn read_sector(&self, lba: u64, buf: &mut [u8]) -> (r: Result<()>)
        ensures
            final(buf)@.len() == old(buf)@.len(),
            r is Ok ==> self.sector_len() <= old(buf)@.len() && final(buf)@.subrange(
                0,
                self.sector_len() as int,
            ) == self.sector(lba as int) && final(buf)@.subrange(
                self.sector_len() as int,
                old(buf)@.len() as int,
            ) == old(buf)@.subrange(self.sector_len() as int, old(buf)@.len() as int),
    ;

    /// Write one sector from the front of `buf`; read-only devices refuse.
    /// A failed write may have changed the sector it was writing, and no
    /// other.
    fn write_sector(&mut self, lba: u64, buf: &[u8]) -> (r: Result<()>)
        ensures
            final(self).sector_len() == old(self).sector_len(),
            r is Err ==> forall|l: int| l != lba ==> #[trigger] final(self).sector(l) == old(self).sector(l),
            r is Ok ==> old(self).sector_len() <= buf@.len() && forall|l: int| #[trigger]
                final(self).sector(l) == if l == lba as int {
                    buf@.subrange(0, old(self).sector_len() as int)
                } else {
                    old(self).sector(l)
                },
    {
        Err(FsError::ReadOnly)
    }
}

/// The bytes of `n` consecutive sectors starting at `lba`.
pub open spec fn sectors_bytes<D: BlockDev>(dev: &D, lba: int, n: nat) -> Seq<u8>
    decreases n,
{
    if n == 0 {
        Seq::empty()
    } else {
        sectors_bytes(dev, lba, (n - 1) as nat) + dev.sector(lba + n - 1)
    }
}

/// Byte `pos` of the device, counted from the start of sector 0.
pub open spec fn dev_byte<D: BlockDev>(dev: &D, pos: int) -> u8 {
    dev.sector(pos / dev.sector_len() as int)[pos % dev.sector_len() as int]
}

/// `n` zero bytes.
pub open spec fn zeros(n: int) -> Seq<u8> {
    Seq::new(n as nat, |i: int| 0u8)
}

/// Read sectors `lba .. lba + n` into the front of `buf`, leaving the rest
/// of `buf` as it was.
pub fn read_run<D: BlockDev>(dev: &D, lba: u64, n: usize, buf: &mut Vec<u8>) -> (r: Result<()>)
    requires
        dev.sector_len() > 0,
        n * dev.sector_len() <= old(buf)@.len(),
        lba + n <= u64::MAX,
    ensures
        final(buf)@.len() == old(buf)@.len(),
        r is Ok ==> final(buf)@ =~= sectors_bytes(dev, lba as int, n as nat) + old(buf)@.subrange(
            n * dev.sector_len(),
            old(buf)@.len() as int,
        ),
{
    let ss = dev.sector_size();
    let mut tmp: Vec<u8> = vec![0u8; ss];
    let mut i: usize = 0;
    let mut off: usize = 0;
    let blen = buf.len();
    while i < n
        invariant
            blen == buf@.len(),
            sectors_bytes(dev, lba as int, i as nat).len() == off,
            ss == dev.sector_len(),
            ss > 0,
            tmp@.len() == ss,
            i <= n,
            off == i * ss,
            n * ss <= old(buf)@.len(),
            lba + n <= u64::MAX,
            buf@.len() == old(buf)@.len(),
            buf@ =~= sectors_bytes(dev, lba as int, i as nat) + old(buf)@.subrange(
                off as int,
                old(buf)@.len() as int,
            ),
        decreases n - i,
    {
        proof {
            assert((i + 1) * ss == i * ss + ss) by (nonlinear_arith);
            assert(i + 1 <= n);
            assert((i + 1) * ss <= n * ss) by (nonlinear_arith)
                requires
                    i + 1 <= n,
                    ss > 0,
            ;
        }
        dev.read_sector(lba + i as u64, tmp.as_mut_slice())?;
        assert(tmp@ =~= tmp@.subrange(0, ss as int));
        assert(tmp@ == dev.sector(lba + i));
        let ghost before = buf@;
        let mut j: usize = 0;
        while j < ss
            invariant
                ss == tmp@.len(),
                blen == buf@.len(),
                off + ss <= buf@.len(),
                off + ss <= n * ss,
                n * ss <= buf@.len(),
                j <= ss,
                buf@.len() == before.len(),
                forall|k: int| 0 <= k < off ==> buf@[k] == before[k],
                forall|k: int| off <= k < off + j ==> buf@[k] == tmp@[k - off],
                forall|k: int| off + ss <= k < buf@.len() ==> buf@[k] == before[k],
                forall|k: int| off + j <= k < off + ss ==> buf@[k] == before[k],
            decreases ss - j,
        {
            buf.set(off + j, tmp[j]);
            j = j + 1;
        }
        proof {
            let sb = sectors_bytes(dev, lba as int, i as nat);
            assert(sectors_bytes(dev, lba as int, (i + 1) as nat) == sb + dev.sector(lba + i));
            assert(sb.len() == off);
            let rhs = sectors_bytes(dev, lba as int, (i + 1) as nat) + old(buf)@.subrange(
                off + ss,
                old(buf)@.len() as int,
            );
            assert(rhs.len() == buf@.len());
            assert forall|k: int| 0 <= k < buf@.len() implies buf@[k] == rhs[k] by {
                if k < off {
                    assert(before[k] == sb[k]);
                } else if k < off + ss {
                    assert(buf@[k] == tmp@[k - off]);
                } else {
                    assert(before[k] == old(buf)@[k]);
                }
            }
            assert(buf@ =~= sectors_bytes(dev, lba as int, (i + 1) as nat) + old(buf)@.subrange(
                off + ss,
                old(buf)@.len() as int,
            ));
        }
        i = i + 1;
        off = off + ss;
    }
    Ok(())
}

/// `path` split at its first `/` after dropping leading `/`s; the remainder
/// loses its leading `/`s too.
pub open spec fn spec_path_split(path: Seq<u8>) -> (Seq<u8>, Seq<u8>) {
    let t = trim_start(path, 0x2F);
    match first_index(t, 0x2F) {
        Some(i) => (t.subrange(0, i), trim_start(t.subrange(i + 1, t.len() as int), 0x2F)),
        None => (t, Seq::empty()),
    }
}

/// A non-empty first component leaves a strictly shorter remainder.
pub proof fn lemma_path_split_shorter(path: Seq<u8>)
    ensures
        spec_path_split(path).0.len() > 0 ==> spec_path_split(path).1.len() < path.len(),
        spec_path_split(path).0.len() == 0 ==> spec_path_split(path).1.len() == 0,
{
    let t = trim_start(path, 0x2F);
    lemma_trim_start(path, 0x2F);
    lemma_first_index(t, 0x2F);
    match first_index(t, 0x2F) {
        Some(i) => {
            let u = t.subrange(i + 1, t.len() as int);
            lemma_trim_start(u, 0x2F);
            if i == 0 {
                assert(t[0] == 0x2F);
            }
        },
        None => {},
    }
}

/// Split `"prefix/rest"` at the first `/`.
pub fn path_split(path: &str) -> (r: (&str, &str))
    ensures
        (r.0.spec_bytes(), r.1.spec_bytes()) == spec_path_split(path.spec_bytes()),
{
    let b = str_bytes(path);
    let k = count_leading(b, 0x2F);
    let (_, p) = split_str(path, k);
    let pb = str_bytes(p);
    let i = find_from(pb, 0, 0x2F);
    proof {
        lemma_first_index_unique(pb@, 0x2F, i as int);
    }
    if i < pb.len() {
        let (first, rest0) = split_str(p, i);
        let (_, rest1) = split_str(rest0, 1);
        let rb = str_bytes(rest1);
        let k2 = count_leading(rb, 0x2F);
        let (_, rest) = split_str(rest1, k2);
        proof {
            assert(rest1.spec_bytes() =~= pb@.subrange(i + 1, pb@.len() as int));
        }
        (first, rest)
    } else {
        proof {
            assert(pb@ =~= pb@.subrange(0, i as int));
        }
        proof { reveal_strlit(""); }
        (p, "")
    }
}

/// Case-insensitive ASCII byte-slice comparison.
pub fn name_eq_ci(a: &[u8], b: &[u8]) -> (r: bool)
    ensures
        r == eq_ci(a@, b@),
{
    bytes_eq_ci(a, b)
}

/// Compare a space-padded fixed-width name against a plain string, ignoring
/// ASCII case.
pub fn padded_eq(padded: &[u8], name: &str) -> (r: bool)
    ensures
        r == eq_ci(trim_end(padded@, 0x20), name.spec_bytes()),
{
    let end = count_kept_before_trailing(padded, 0x20);
    let (head, _) = padded.split_at(end);
    bytes_eq_ci(head, str_bytes(name))
}

} // verus!

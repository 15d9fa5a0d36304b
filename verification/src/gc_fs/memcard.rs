//! GameCube memory-card filesystem: the directory and the block
//! allocation table (BAT) of a card, files found by game code and name,
//! and the block chains that hold them.
//!
//! The card is read and written in 8 KiB blocks by the caller; this module
//! parses the system blocks (two directory copies and two BAT copies, the
//! newer of each pair in use) and decides which blocks a file occupies.

use vstd::prelude::*;
use vstd::string::StringSliceAdditionalSpecFns;
use crate::bytes::{be16, rd_be16, rd_be32};
use crate::text::{eq_ci, first_index, find_from, lemma_first_index_unique, str_bytes, utf8_str};
use super::{FsError, Metadata, Result, name_after_set, name_eq_ci};

verus! {

/// Bytes per block.
pub const BLOCK_SIZE: usize = 8192;
/// Directory entries.
pub const MAX_FILES: usize = 127;
/// Blocks 0 to 4 are the system area.
pub const SYSAREA_BLKS: u32 = 5;
/// Entries of the BAT.
pub const BAT_LEN: usize = 0xFFB;
/// Offset of the directory's update counter.
pub const DIR_UPDATED: usize = 8074;
/// Offset of the BAT's entries.
pub const BAT_DATA: usize = 10;

/// One directory entry.
#[derive(Clone, Copy, Debug)]
pub struct DirEntry {
    pub gamecode: [u8; 4],
    pub company: [u8; 2],
    pub bannerfmt: u8,
    /// NUL-terminated file name.
    pub filename: [u8; 32],
    /// First data block.
    pub first_blk: u16,
    /// Length in blocks.
    pub blk_count: u16,
    pub file_len: u16,
    pub permission: u8,
    pub copy_times: u8,
    pub comment_addr: u32,
}

/// An entry is in use: its game code does not start with `0xFF` and its
/// name is not empty.
pub open spec fn entry_valid(e: DirEntry) -> bool {
    e.gamecode[0] != 0xFF && e.filename[0] != 0
}

/// The entry stored in the 64 bytes at `off` of a directory block.
pub open spec fn spec_entry(d: Seq<u8>, off: int) -> DirEntry {
    DirEntry {
        gamecode: [d[off], d[off + 1], d[off + 2], d[off + 3]],
        company: [d[off + 4], d[off + 5]],
        bannerfmt: d[off + 7],
        filename: [
            d[off + 8], d[off + 9], d[off + 10], d[off + 11], d[off + 12], d[off + 13], d[off + 14], d[off + 15],
            d[off + 16], d[off + 17], d[off + 18], d[off + 19], d[off + 20], d[off + 21], d[off + 22], d[off + 23],
            d[off + 24], d[off + 25], d[off + 26], d[off + 27], d[off + 28], d[off + 29], d[off + 30], d[off + 31],
            d[off + 32], d[off + 33], d[off + 34], d[off + 35], d[off + 36], d[off + 37], d[off + 38], d[off + 39],
        ],
        first_blk: be16(d, off + 42) as u16,
        blk_count: be16(d, off + 44) as u16,
        file_len: be16(d, off + 48) as u16,
        permission: d[off + 50],
        copy_times: d[off + 51],
        comment_addr: (d[off + 52] as int * 0x100_0000 + d[off + 53] as int * 0x1_0000 + d[off + 54] as int * 0x100
            + d[off + 55] as int) as u32,
    }
}

/// Where a 64-byte directory entry keeps its fields: game code in bytes
/// 0..4, maker in 4..6, banner format at 7, file name in 8..40, then the
/// first block at 42, the block count at 44 and the file length at 48 as
/// big-endian half-words, permissions at 50, copy count at 51 and the
/// comment address as a big-endian word at 52.
pub proof fn dir_entry_layout_law(d: Seq<u8>, off: int)
    ensures
        ({
            let e = spec_entry(d, off);
            &&& forall|i: int| 0 <= i < 4 ==> #[trigger] e.gamecode@[i] == d[off + i]
            &&& e.company@[0] == d[off + 4] && e.company@[1] == d[off + 5]
            &&& e.bannerfmt == d[off + 7]
            &&& forall|i: int| 0 <= i < 32 ==> #[trigger] e.filename@[i] == d[off + 8 + i]
            &&& e.first_blk == d[off + 42] * 0x100 + d[off + 43]
            &&& e.blk_count == d[off + 44] * 0x100 + d[off + 45]
            &&& e.file_len == d[off + 48] * 0x100 + d[off + 49]
            &&& e.permission == d[off + 50]
            &&& e.copy_times == d[off + 51]
            &&& e.comment_addr == d[off + 52] * 0x100_0000 + d[off + 53] * 0x1_0000 + d[off + 54] * 0x100 + d[off + 55]
        }),
{
    let e = spec_entry(d, off);
    assert forall|i: int| 0 <= i < 4 implies #[trigger] e.gamecode@[i] == d[off + i] by {
        assert(e.gamecode@[i] == e.gamecode[i]);
    }
    assert forall|i: int| 0 <= i < 32 implies #[trigger] e.filename@[i] == d[off + 8 + i] by {
        assert(e.filename@[i] == e.filename[i]);
    }
    assert(e.company@[0] == e.company[0] && e.company@[1] == e.company[1]);
}

/// Parse the directory entry at `off`.
pub fn parse_dir_entry(d: &[u8], off: usize) -> (r: DirEntry)
    requires
        off + 64 <= d@.len(),
    ensures
        r == spec_entry(d@, off as int),
{
    let n = d.len();
    let mut f = [0u8; 32];
    let mut i: usize = 0;
    while i < 32
        invariant
            n == d@.len(),
            off + 64 <= d@.len(),
            i <= 32,
            forall|k: int| 0 <= k < i ==> f@[k] == d@[off + 8 + k],
        decreases 32 - i,
    {
        f[i] = d[off + 8 + i];
        i = i + 1;
    }
    let r = DirEntry {
        gamecode: [d[off], d[off + 1], d[off + 2], d[off + 3]],
        company: [d[off + 4], d[off + 5]],
        bannerfmt: d[off + 7],
        filename: f,
        first_blk: rd_be16(d, off + 42),
        blk_count: rd_be16(d, off + 44),
        file_len: rd_be16(d, off + 48),
        permission: d[off + 50],
        copy_times: d[off + 51],
        comment_addr: rd_be32(d, off + 52),
    };
    let ghost want = spec_entry(d@, off as int);
    assert(r.filename =~= want.filename);
    assert(r.gamecode =~= want.gamecode);
    assert(r.company =~= want.company);
    r
}

/// The directory copy in use: `a` unless `b` was updated later.
pub open spec fn newer(a: Seq<u8>, b: Seq<u8>, at: int) -> Seq<u8> {
    if be16(a, at) >= be16(b, at) { a } else { b }
}

/// The name of an entry: up to its first NUL, or `???` when that is not
/// UTF-8.
pub open spec fn entry_name(e: DirEntry) -> Seq<u8> {
    let n = match first_index(e.filename@, 0) {
        Some(i) => e.filename@.subrange(0, i),
        None => e.filename@,
    };
    if vstd::utf8::valid_utf8(n) { n } else { "???".spec_bytes() }
}

fn entry_name_bytes(e: &DirEntry) -> (r: Vec<u8>)
    ensures
        r@ == entry_name(*e),
{
    let all = e.filename.as_slice();
    let end = find_from(all, 0, 0);
    proof {
        lemma_first_index_unique(e.filename@, 0, end as int);
    }
    let (head, _) = all.split_at(end);
    proof {
        if end == 32 {
            assert(e.filename@.subrange(0, 32) =~= e.filename@);
        }
    }
    assert(head@ == (match first_index(e.filename@, 0) {
        Some(i) => e.filename@.subrange(0, i),
        None => e.filename@,
    }));
    match utf8_str(head) {
        Some(s) => {
            proof {
                vstd::utf8::encode_utf8_valid_utf8(s@);
            }
            vstd::slice::slice_to_vec(head)
        },
        None => {
            proof {
                reveal_strlit("???");
            }
            vstd::slice::slice_to_vec(str_bytes("???"))
        },
    }
}

/// A mounted memory card.
pub struct MemCardFs {
    dir: Vec<DirEntry>,
    bat: Vec<u16>,
    total_blocks: u32,
}

impl MemCardFs {
    pub closed spec fn spec_dir(&self) -> Seq<DirEntry> {
        self.dir@
    }

    pub closed spec fn spec_bat(&self) -> Seq<u16> {
        self.bat@
    }

    pub closed spec fn spec_total(&self) -> u32 {
        self.total_blocks
    }

    pub closed spec fn wf(&self) -> bool {
        self.dir@.len() == MAX_FILES && self.bat@.len() == BAT_LEN
    }

    /// The filesystem of a card of `total_bytes` bytes whose directory
    /// copies (blocks 1 and 2) and BAT copies (blocks 3 and 4) hold
    /// `dir_a`, `dir_b`, `bat_a` and `bat_b`: the newer copy of each pair
    /// (by its update counter) is used.
    pub fn from_blocks(total_bytes: u32, dir_a: &[u8], dir_b: &[u8], bat_a: &[u8], bat_b: &[u8]) -> (r: Self)
        requires
            dir_a@.len() == BLOCK_SIZE,
            dir_b@.len() == BLOCK_SIZE,
            bat_a@.len() == BLOCK_SIZE,
            bat_b@.len() == BLOCK_SIZE,
        ensures
            r.wf(),
            r.spec_total() == total_bytes / BLOCK_SIZE as u32,
            forall|i: int| 0 <= i < MAX_FILES ==> #[trigger] r.spec_dir()[i] == spec_entry(
                newer(dir_a@, dir_b@, DIR_UPDATED as int),
                64 * i,
            ),
            forall|i: int| 0 <= i < BAT_LEN ==> #[trigger] r.spec_bat()[i] == be16(
                newer(bat_a@, bat_b@, 4),
                BAT_DATA + 2 * i,
            ),
    {
        let ua = rd_be16(dir_a, DIR_UPDATED);
        let ub = rd_be16(dir_b, DIR_UPDATED);
        let d = if ua >= ub { dir_a } else { dir_b };
        let mut dir: Vec<DirEntry> = Vec::new();
        let mut i: usize = 0;
        while i < MAX_FILES
            invariant
                d@ == newer(dir_a@, dir_b@, DIR_UPDATED as int),
                d@.len() == BLOCK_SIZE,
                i <= MAX_FILES,
                dir@.len() == i,
                forall|k: int| 0 <= k < i ==> #[trigger] dir@[k] == spec_entry(d@, 64 * k),
            decreases MAX_FILES - i,
        {
            dir.push(parse_dir_entry(d, i * 64));
            i = i + 1;
        }
        let va = rd_be16(bat_a, 4);
        let vb = rd_be16(bat_b, 4);
        let b = if va >= vb { bat_a } else { bat_b };
        let mut bat: Vec<u16> = Vec::new();
        let mut k: usize = 0;
        while k < BAT_LEN
            invariant
                b@ == newer(bat_a@, bat_b@, 4),
                b@.len() == BLOCK_SIZE,
                k <= BAT_LEN,
                bat@.len() == k,
                forall|j: int| 0 <= j < k ==> #[trigger] bat@[j] == be16(b@, BAT_DATA + 2 * j),
            decreases BAT_LEN - k,
        {
            bat.push(rd_be16(b, BAT_DATA + k * 2));
            k = k + 1;
        }
        MemCardFs { dir, bat, total_blocks: total_bytes / BLOCK_SIZE as u32 }
    }

    /// The block after `block` in its file's chain: `None` in the system
    /// area, past the BAT, or at an end-of-chain entry (`0xFFFC` and up).
    pub open spec fn spec_next(&self, block: u32) -> Option<u32> {
        if block < SYSAREA_BLKS || block - SYSAREA_BLKS >= BAT_LEN {
            None
        } else {
            let next = self.spec_bat()[block - SYSAREA_BLKS];
            if next >= 0xFFFC { None } else { Some(next as u32) }
        }
    }

    pub fn bat_next(&self, block: u32) -> (r: Option<u32>)
        requires
            self.wf(),
        ensures
            r == self.spec_next(block),
    {
        if block < SYSAREA_BLKS {
            return None;
        }
        let idx = (block - SYSAREA_BLKS) as usize;
        if idx >= BAT_LEN {
            return None;
        }
        let next = self.bat[idx];
        if next >= 0xFFFC { None } else { Some(next as u32) }
    }

    /// Every file on the card, in directory order: not a directory, its
    /// size the whole blocks it occupies, under its name.
    pub fn read_dir(&self) -> (r: Vec<(Metadata, DirEntry)>)
        requires
            self.wf(),
        ensures
            forall|k: int| 0 <= k < r@.len() ==> {
                &&& entry_valid((#[trigger] r@[k]).1)
                &&& !r@[k].0.is_dir
                &&& r@[k].0.size == r@[k].1.blk_count as int * BLOCK_SIZE as int
                &&& r@[k].0.name@ == name_after_set(Seq::new(256, |i: int| 0u8), entry_name(r@[k].1))
            },
            r@.len() == self.spec_dir().filter(|e: DirEntry| entry_valid(e)).len(),
            forall|k: int| 0 <= k < r@.len() ==> (#[trigger] r@[k]).1 == self.spec_dir().filter(
                |e: DirEntry| entry_valid(e),
            )[k],
    {
        let mut out: Vec<(Metadata, DirEntry)> = Vec::new();
        let mut i: usize = 0;
        while i < MAX_FILES
            invariant
                self.wf(),
                i <= MAX_FILES,
                out@.len() == self.dir@.subrange(0, i as int).filter(|e: DirEntry| entry_valid(e)).len(),
                forall|k: int| 0 <= k < out@.len() ==> (#[trigger] out@[k]).1 == self.dir@.subrange(0, i as int).filter(
                    |e: DirEntry| entry_valid(e),
                )[k],
                forall|k: int| 0 <= k < out@.len() ==> {
                    &&& entry_valid((#[trigger] out@[k]).1)
                    &&& !out@[k].0.is_dir
                    &&& out@[k].0.size == out@[k].1.blk_count as int * BLOCK_SIZE as int
                    &&& out@[k].0.name@ == name_after_set(Seq::new(256, |i: int| 0u8), entry_name(out@[k].1))
                },
            decreases MAX_FILES - i,
        {
            let e = self.dir[i];
            let ghost before = out@;
            if e.gamecode[0] != 0xFF && e.filename[0] != 0 {
                let mut m = Metadata::zeroed();
                m.is_dir = false;
                m.size = e.blk_count as u64 * BLOCK_SIZE as u64;
                let nb = entry_name_bytes(&e);
                m.set_name_bytes(nb.as_slice());
                out.push((m, e));
            }
            proof {
                assert(self.dir@.subrange(0, i + 1).filter(|e: DirEntry| entry_valid(e)) == (if entry_valid(e) {
                    self.dir@.subrange(0, i as int).filter(|e: DirEntry| entry_valid(e)).push(e)
                } else {
                    self.dir@.subrange(0, i as int).filter(|e: DirEntry| entry_valid(e))
                })) by {
                    self.dir@.subrange(0, i as int).lemma_filter_push(e, |e: DirEntry| entry_valid(e));
                    assert(self.dir@.subrange(0, i as int).push(e) =~= self.dir@.subrange(0, i + 1));
                }
            }
            i = i + 1;
        }
        assert(self.dir@.subrange(0, MAX_FILES as int) =~= self.dir@);
        out
    }

    /// The first file in use with game code `game` and name `filename`
    /// (ignoring ASCII case).
    pub fn find(&self, game: &[u8; 4], filename: &str) -> (r: Option<DirEntry>)
        requires
            self.wf(),
        ensures
            match r {
                Some(e) => exists|i: int| 0 <= i < MAX_FILES && self.spec_dir()[i] == e && self.matches(i, *game, filename.spec_bytes())
                    && forall|j: int| 0 <= j < i ==> !self.matches(j, *game, filename.spec_bytes()),
                None => forall|j: int| 0 <= j < MAX_FILES ==> !self.matches(j, *game, filename.spec_bytes()),
            },
    {
        let fb = str_bytes(filename);
        let mut i: usize = 0;
        while i < MAX_FILES
            invariant
                self.wf(),
                i <= MAX_FILES,
                fb@ == filename.spec_bytes(),
                forall|j: int| 0 <= j < i ==> !self.matches(j, *game, filename.spec_bytes()),
            decreases MAX_FILES - i,
        {
            let e = self.dir[i];
            if e.gamecode[0] != 0xFF && e.filename[0] != 0 && e.gamecode[0] == game[0] && e.gamecode[1] == game[1]
                && e.gamecode[2] == game[2] && e.gamecode[3] == game[3] {
                let nb = entry_name_bytes(&e);
                if name_eq_ci(nb.as_slice(), fb) {
                    assert(e.gamecode =~= *game);
                    assert(self.matches(i as int, *game, filename.spec_bytes()));
                    return Some(e);
                }
            }
            proof {
                if entry_valid(e) && e.gamecode == *game {
                    assert(e.gamecode@[0] == game@[0] && e.gamecode@[3] == game@[3]);
                }
            }
            i = i + 1;
        }
        None
    }

    /// Entry `i` is a file in use with game code `game` and name `name`.
    pub open spec fn matches(&self, i: int, game: [u8; 4], name: Seq<u8>) -> bool {
        let e = self.spec_dir()[i];
        entry_valid(e) && e.gamecode == game && eq_ci(entry_name(e), name)
    }

    /// The blocks of the chain from `block`, at most `n` of them.
    pub open spec fn chain(&self, block: u32, n: nat) -> Seq<u32>
        decreases n,
    {
        if n == 0 {
            Seq::empty()
        } else {
            seq![block] + match self.spec_next(block) {
                Some(next) => self.chain(next, (n - 1) as nat),
                None => Seq::empty(),
            }
        }
    }

    /// The chain from `block` ends within `n` blocks.
    pub open spec fn ends_within(&self, block: u32, n: nat) -> bool
        decreases n,
    {
        n > 0 && match self.spec_next(block) {
            Some(next) => self.ends_within(next, (n - 1) as nat),
            None => true,
        }
    }

    /// The blocks a read of `entry`'s file into a buffer of `len` bytes
    /// reads, in order: its chain from the first block to its end. A
    /// buffer shorter than the file's blocks is `BufferTooSmall`; a chain
    /// longer than the buffer holds is `BadFormat`.
    pub fn read_plan(&self, entry: &DirEntry, len: usize) -> (r: Result<Vec<u32>>)
        requires
            self.wf(),
        ensures
            len < entry.blk_count as int * BLOCK_SIZE as int ==> r == Err::<Vec<u32>, FsError>(FsError::BufferTooSmall),
            len >= entry.blk_count as int * BLOCK_SIZE as int ==> match r {
                Ok(v) => self.ends_within(entry.first_blk as u32, (len / BLOCK_SIZE) as nat) && v@ == self.chain(
                    entry.first_blk as u32,
                    (len / BLOCK_SIZE) as nat,
                ),
                Err(e) => e == FsError::BadFormat && !self.ends_within(entry.first_blk as u32, (len / BLOCK_SIZE) as nat),
            },
    {
        let needed = entry.blk_count as usize * BLOCK_SIZE;
        if len < needed {
            return Err(FsError::BufferTooSmall);
        }
        let cap = len / BLOCK_SIZE;
        self.chain_of(entry.first_blk as u32, cap)
    }

    fn chain_of(&self, block: u32, n: usize) -> (r: Result<Vec<u32>>)
        requires
            self.wf(),
        ensures
            match r {
                Ok(v) => self.ends_within(block, n as nat) && v@ == self.chain(block, n as nat),
                Err(e) => e == FsError::BadFormat && !self.ends_within(block, n as nat),
            },
        decreases n,
    {
        if n == 0 {
            return Err(FsError::BadFormat);
        }
        let mut v: Vec<u32> = Vec::new();
        v.push(block);
        match self.bat_next(block) {
            Some(next) => {
                let mut rest = self.chain_of(next, n - 1)?;
                v.append(&mut rest);
                assert(v@ =~= seq![block] + self.chain(next, (n - 1) as nat));
            },
            None => {
                assert(v@ =~= seq![block] + Seq::<u32>::empty());
            },
        }
        Ok(v)
    }

    /// The blocks a write of `entry`'s file from `len` bytes writes, in
    /// order: its first `blk_count` blocks along the chain. Data shorter
    /// than those blocks is `InvalidArg`; a chain shorter than the file is
    /// `BadFormat`.
    pub fn write_plan(&self, entry: &DirEntry, len: usize) -> (r: Result<Vec<u32>>)
        requires
            self.wf(),
        ensures
            len < entry.blk_count as int * BLOCK_SIZE as int ==> r == Err::<Vec<u32>, FsError>(FsError::InvalidArg),
            r matches Ok(v) ==> v@ == self.chain(entry.first_blk as u32, entry.blk_count as nat) && v@.len()
                == entry.blk_count,
    {
        let blocks = entry.blk_count as usize;
        if len < blocks * BLOCK_SIZE {
            return Err(FsError::InvalidArg);
        }
        let mut out: Vec<u32> = Vec::new();
        let mut block = entry.first_blk as u32;
        let mut i: usize = 0;
        let ghost first = entry.first_blk as u32;
        while i < blocks
            invariant
                self.wf(),
                i <= blocks,
                blocks == entry.blk_count,
                len >= entry.blk_count as int * BLOCK_SIZE as int,
                out@.len() == i,
                i < blocks ==> out@ + self.chain(block, (blocks - i) as nat) == self.chain(first, blocks as nat),
                i == blocks ==> out@ == self.chain(first, blocks as nat),
            decreases blocks - i,
        {
            out.push(block);
            match self.bat_next(block) {
                Some(next) => {
                    proof {
                        assert(self.chain(block, (blocks - i) as nat) == seq![block] + self.chain(next, (blocks - i - 1) as nat));
                        if i + 1 == blocks {
                            assert(self.chain(next, 0) =~= Seq::<u32>::empty());
                        }
                    }
                    assert(out@ + self.chain(next, (blocks - i - 1) as nat) =~= self.chain(first, blocks as nat));
                    block = next;
                },
                None => {
                    if i + 1 < blocks {
                        return Err(FsError::BadFormat);
                    }
                    assert(self.chain(block, 1) =~= seq![block]);
                    assert(out@ =~= self.chain(first, blocks as nat));
                },
            }
            i = i + 1;
        }
        Ok(out)
    }

    /// Data blocks on the card.
    pub fn total_blocks(&self) -> (r: u32)
        ensures
            r == self.spec_total(),
    {
        self.total_blocks
    }

    /// Free data blocks: BAT entries 0 among the card's data blocks.
    pub fn free_blocks(&self) -> (r: u32)
        requires
            self.wf(),
        ensures
            ({
                let data = if self.spec_total() > SYSAREA_BLKS { self.spec_total() - SYSAREA_BLKS } else { 0 };
                let n = if data < BAT_LEN { data as int } else { BAT_LEN as int };
                r == self.spec_bat().subrange(0, n).filter(|b: u16| b == 0).len()
            }),
    {
        let data = if self.total_blocks > SYSAREA_BLKS { self.total_blocks - SYSAREA_BLKS } else { 0 };
        let n = if (data as usize) < BAT_LEN { data as usize } else { BAT_LEN };
        let mut count: u32 = 0;
        let mut i: usize = 0;
        while i < n
            invariant
                self.wf(),
                n <= BAT_LEN,
                i <= n,
                count == self.bat@.subrange(0, i as int).filter(|b: u16| b == 0).len(),
                count <= i,
            decreases n - i,
        {
            proof {
                self.bat@.subrange(0, i as int).lemma_filter_push(self.bat@[i as int], |b: u16| b == 0);
                assert(self.bat@.subrange(0, i as int).push(self.bat@[i as int]) =~= self.bat@.subrange(0, i + 1));
            }
            if self.bat[i] == 0 {
                count = count + 1;
            }
            i = i + 1;
        }
        count
    }
}

} // verus!

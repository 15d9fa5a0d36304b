//! Directory blocks: a chain of records (inode, record length, name length,
//! file type, name), each padded to four bytes.

use vstd::prelude::*;
use crate::bytes::{le16, le32, rd_le16, rd_le32, wr_le16, wr_le32, splice, le16_bytes, le32_bytes};

verus! {

/// One directory entry: its name, inode and file type.
pub struct DirEnt {
    pub name: Vec<u8>,
    pub ino: u32,
    pub ftype: u8,
}

/// Whether `name` is `.` or `..`.
pub open spec fn is_dot(name: Seq<u8>) -> bool {
    name == seq![0x2Eu8] || name == seq![0x2Eu8, 0x2Eu8]
}

/// The entry at `off` is listed: it names an inode, its name fits the block
/// and is valid UTF-8, and it is not `.` or `..`.
pub open spec fn listed(b: Seq<u8>, off: int) -> bool {
    let nl = b[off + 6] as int;
    &&& le32(b, off) != 0
    &&& nl > 0
    &&& off + 8 + nl <= b.len()
    &&& vstd::utf8::valid_utf8(b.subrange(off + 8, off + 8 + nl))
    &&& !is_dot(b.subrange(off + 8, off + 8 + nl))
}

/// The listed entries of a directory block from byte `off`, in order, as
/// (name, inode, file type); the chain stops at a zero record length.
pub open spec fn dir_ents(b: Seq<u8>, off: int) -> Seq<(Seq<u8>, u32, u8)>
    decreases b.len() + 0x1_0000 - off,
{
    if off < 0 || off + 8 > b.len() || le16(b, off + 4) == 0 {
        Seq::empty()
    } else {
        let nl = b[off + 6] as int;
        let here = if listed(b, off) {
            seq![(b.subrange(off + 8, off + 8 + nl), le32(b, off) as u32, b[off + 7])]
        } else {
            Seq::empty()
        };
        here + dir_ents(b, off + le16(b, off + 4))
    }
}

/// How a directory block's records chain: a record at `off` holds its
/// inode (32 bits), its record length (16 bits, the distance to the next
/// record), its name length and file type (one byte each), then the name,
/// all little-endian. A zero record length ends the chain; a record of
/// inode 0 is a free slot and lists nothing; a live record with a
/// non-empty UTF-8 name other than `.` and `..` lists that name, inode and
/// type ahead of the records after it.
pub proof fn dir_record_law(b: Seq<u8>, off: int)
    requires
        0 <= off,
        off + 8 <= b.len(),
    ensures
        ({
            let ino = b[off] + b[off + 1] * 0x100 + b[off + 2] * 0x1_0000 + b[off + 3] * 0x100_0000;
            let rec = b[off + 4] + b[off + 5] * 0x100;
            let nl = b[off + 6] as int;
            &&& rec == 0 ==> dir_ents(b, off).len() == 0
            &&& (rec != 0 && ino == 0) ==> dir_ents(b, off) == dir_ents(b, off + rec)
            &&& (rec != 0 && ino != 0 && nl > 0 && off + 8 + nl <= b.len() && vstd::utf8::valid_utf8(
                b.subrange(off + 8, off + 8 + nl),
            ) && !is_dot(b.subrange(off + 8, off + 8 + nl))) ==> dir_ents(b, off) == seq![
                (b.subrange(off + 8, off + 8 + nl), ino as u32, b[off + 7]),
            ] + dir_ents(b, off + rec)
        }),
{
    let ino = le32(b, off);
    assert(0 <= ino < 0x1_0000_0000);
    if le16(b, off + 4) != 0 && !listed(b, off) {
        assert(Seq::<(Seq<u8>, u32, u8)>::empty() + dir_ents(b, off + le16(b, off + 4)) =~= dir_ents(b, off + le16(b, off + 4)));
    }
}

/// The entries as (name, inode, file type).
pub open spec fn ents_view(v: Seq<DirEnt>) -> Seq<(Seq<u8>, u32, u8)> {
    Seq::new(v.len(), |i: int| (v[i].name@, v[i].ino, v[i].ftype))
}

/// Whether `name` is `.` or `..`.
fn dot_name(name: &[u8]) -> (r: bool)
    ensures
        r == is_dot(name@),
{
    if name.len() == 1 {
        let r = name[0] == 0x2E;
        assert(r == (name@ =~= seq![0x2Eu8]));
        r
    } else if name.len() == 2 {
        let r = name[0] == 0x2E && name[1] == 0x2E;
        assert(r == (name@ =~= seq![0x2Eu8, 0x2Eu8]));
        r
    } else {
        false
    }
}

/// The listed entries of directory block `block`.
pub fn walk_dir_block(block: &[u8]) -> (r: Vec<DirEnt>)
    requires
        block@.len() <= 4096,
    ensures
        ents_view(r@) == dir_ents(block@, 0),
{
    let len = block.len();
    let mut out: Vec<DirEnt> = Vec::new();
    let mut off: usize = 0;
    while off + 8 <= len
        invariant
            len == block@.len(),
            len <= 4096,
            off <= len + 0x1_0000,
            dir_ents(block@, 0) == ents_view(out@) + dir_ents(block@, off as int),
        ensures
            dir_ents(block@, off as int) =~= Seq::<(Seq<u8>, u32, u8)>::empty(),
        decreases len + 0x1_0000 - off,
    {
        let ino = rd_le32(block, off);
        let reclen = rd_le16(block, off + 4) as usize;
        let nl = block[off + 6] as usize;
        let ft = block[off + 7];
        if reclen == 0 {
            break;
        }
        let ghost rest = dir_ents(block@, (off + reclen) as int);
        if ino != 0 && nl > 0 && off + 8 + nl <= len {
            let name = vstd::slice::slice_subrange(block, off + 8, off + 8 + nl);
            let ok = match crate::text::utf8_str(name) {
                Some(st) => {
                    proof {
                        vstd::utf8::encode_utf8_valid_utf8(st@);
                    }
                    true
                },
                None => false,
            };
            if ok && !dot_name(name) {
                let e = DirEnt { name: vstd::slice::slice_to_vec(name), ino, ftype: ft };
                proof {
                    assert(listed(block@, off as int));
                    let t = (name@, ino, ft);
                    assert(ents_view(out@.push(e)) =~= ents_view(out@).push(t));
                    assert(dir_ents(block@, off as int) == seq![t] + rest);
                    assert(ents_view(out@).push(t) + rest =~= ents_view(out@) + (seq![t] + rest));
                }
                out.push(e);
            } else {
                proof {
                    assert(!listed(block@, off as int));
                    assert(dir_ents(block@, off as int) =~= rest);
                }
            }
        } else {
            assert(dir_ents(block@, off as int) =~= rest);
        }
        off = off + reclen;
    }
    proof {
        assert(dir_ents(block@, off as int) =~= Seq::empty());
        assert(ents_view(out@) + Seq::<(Seq<u8>, u32, u8)>::empty() =~= ents_view(out@));
    }
    out
}

/// Bytes a record with a name of `nl` bytes takes (four-byte aligned).
pub open spec fn rec_size(nl: int) -> int {
    (8 + nl + 3) / 4 * 4
}

/// Bytes a record with a name of `nl` bytes takes (four-byte aligned).
pub fn rec_bytes(nl: usize) -> (r: usize)
    requires
        nl <= 0x1_0000,
    ensures
        r == rec_size(nl as int),
        8 + nl <= r,
{
    (8 + nl + 3) / 4 * 4
}

/// The bytes of a record: inode, record length, name length, type, name.
pub open spec fn record_bytes(child: u32, reclen: u16, name: Seq<u8>, ftype: u8) -> Seq<u8> {
    le32_bytes(child) + le16_bytes(reclen) + seq![name.len() as u8, ftype] + name
}

/// Bytes the record at `off` needs for itself: none when free, else its
/// name's record size.
pub open spec fn rec_used(b: Seq<u8>, off: int) -> int {
    if le32(b, off) == 0 {
        0
    } else {
        rec_size(b[off + 6] as int)
    }
}

/// The first record from `off` whose slack (its length less what it
/// needs) holds `need` bytes; the scan stops at a zero record length or a
/// record running past the block.
pub open spec fn fit_from(b: Seq<u8>, off: int, need: int) -> Option<int>
    decreases b.len() + 0x1_0000 - off,
{
    if off < 0 || off + 8 > b.len() {
        None
    } else {
        let rec = le16(b, off + 4);
        if rec == 0 || off + rec > b.len() {
            None
        } else if rec - rec_used(b, off) >= need {
            Some(off)
        } else {
            fit_from(b, off + rec, need)
        }
    }
}

/// The block after placing a record for `name` in the slack of the record
/// at `off`: a live record is trimmed to what it needs, and the new record
/// takes the rest of its length.
pub open spec fn placed(b: Seq<u8>, off: int, child: u32, name: Seq<u8>, ftype: u8) -> Seq<u8> {
    let used = rec_used(b, off);
    let rec = le16(b, off + 4);
    let b1 = if le32(b, off) != 0 {
        splice(b, off + 4, le16_bytes(used as u16))
    } else {
        b
    };
    splice(b1, off + used, record_bytes(child, (rec - used) as u16, name, ftype))
}

/// The live record named `name` from `off` on, with the record before it
/// (`prev`, equal to the record itself for the first one).
pub open spec fn drop_at(b: Seq<u8>, off: int, prev: int, name: Seq<u8>) -> Option<(int, int)>
    decreases b.len() + 0x1_0000 - off,
{
    if off < 0 || off + 8 > b.len() {
        None
    } else {
        let rec = le16(b, off + 4);
        if rec == 0 {
            None
        } else if le32(b, off) != 0 && b[off + 6] == name.len() && off + 8 + name.len() <= b.len() && b.subrange(
            off + 8,
            off + 8 + name.len(),
        ) == name {
            Some((off, prev))
        } else {
            drop_at(b, off + rec, off, name)
        }
    }
}

/// The block after dropping the record at `off` (its inode cleared) and
/// folding its length into the record at `prev` when that is an earlier
/// one.
pub open spec fn dropped(b: Seq<u8>, off: int, prev: int) -> Seq<u8> {
    let b1 = splice(b, off, le32_bytes(0));
    if prev < off {
        splice(b1, prev + 4, le16_bytes(((le16(b1, prev + 4) + le16(b, off + 4)) % 0x1_0000) as u16))
    } else {
        b1
    }
}

/// Store a record at `no`: inode, record length, name length, type, name.
fn put_record(buf: &mut [u8], no: usize, child: u32, reclen: u16, name: &[u8], ftype: u8)
    requires
        name@.len() <= 255,
        no + 8 + name@.len() <= old(buf)@.len(),
    ensures
        final(buf)@.len() == old(buf)@.len(),
        le32(final(buf)@, no as int) == child,
        le16(final(buf)@, no + 4) == reclen,
        final(buf)@[no + 6] == name@.len(),
        final(buf)@[no + 7] == ftype,
        final(buf)@.subrange(no + 8, no + 8 + name@.len()) == name@,
        forall|k: int| 0 <= k < old(buf)@.len() && !(no <= k < no + 8 + name@.len()) ==> #[trigger] final(buf)@[k] == old(buf)@[k],
        final(buf)@ == splice(old(buf)@, no as int, record_bytes(child, reclen, name@, ftype)),
{
    let n = buf.len();
    let nl = name.len();
    wr_le32(buf, no, child);
    wr_le16(buf, no + 4, reclen);
    buf[no + 6] = nl as u8;
    buf[no + 7] = ftype;
    let ghost mid = buf@;
    let mut i: usize = 0;
    while i < nl
        invariant
            nl == name@.len(),
            n == buf@.len(),
            mid.len() == n,
            no + 8 + nl <= n,
            i <= nl,
            forall|k: int| 0 <= k < n ==> #[trigger] buf@[k] == if no + 8 <= k < no + 8 + i {
                name@[k - no - 8]
            } else {
                mid[k]
            },
        decreases nl - i,
    {
        buf[no + 8 + i] = name[i];
        i = i + 1;
    }
    assert(buf@.subrange(no + 8, no + 8 + nl as int) =~= name@);
    assert(buf@[no as int] == mid[no as int] && buf@[no + 1] == mid[no + 1] && buf@[no + 2] == mid[no + 2] && buf@[no + 3] == mid[no + 3]);
    assert(buf@[no + 4] == mid[no + 4] && buf@[no + 5] == mid[no + 5]);
    assert(buf@ =~= splice(old(buf)@, no as int, record_bytes(child, reclen, name@, ftype)));
}

/// Place a record for `name` in the first record's slack that fits it (a
/// live record is trimmed to its own size first; a free record is reused
/// whole). False, and the block unchanged, when none fits; the scan stops
/// at a zero record length or a record running past the block.
pub fn place_entry(buf: &mut [u8], child: u32, name: &[u8], ftype: u8) -> (r: bool)
    requires
        1 <= name@.len() <= 255,
        old(buf)@.len() <= 4096,
    ensures
        final(buf)@.len() == old(buf)@.len(),
        !r ==> final(buf)@ == old(buf)@,
        r ==> exists|no: int| {
            &&& 0 <= no && no + 8 + name@.len() <= final(buf)@.len()
            &&& le32(final(buf)@, no) == child
            &&& final(buf)@[no + 6] == name@.len()
            &&& final(buf)@[no + 7] == ftype
            &&& final(buf)@.subrange(no + 8, no + 8 + name@.len()) == name@
        },
        r == fit_from(old(buf)@, 0, rec_size(name@.len() as int)) is Some,
        r ==> final(buf)@ == placed(
            old(buf)@,
            fit_from(old(buf)@, 0, rec_size(name@.len() as int))->0,
            child,
            name@,
            ftype,
        ),
{
    let bs = buf.len();
    let nl = name.len();
    let need = rec_bytes(nl);
    let mut off: usize = 0;
    while off + 8 <= bs
        invariant
            bs == buf@.len(),
            buf@ == old(buf)@,
            bs <= 4096,
            nl == name@.len(),
            1 <= nl <= 255,
            need == rec_size(nl as int),
            8 + nl <= need,
            off <= bs + 0x1_0000,
            fit_from(old(buf)@, 0, need as int) == fit_from(old(buf)@, off as int, need as int),
        ensures
            buf@ == old(buf)@,
            fit_from(old(buf)@, 0, need as int) is None,
        decreases bs + 0x1_0000 - off,
    {
        let ei = rd_le32(buf, off);
        let rec = rd_le16(buf, off + 4) as usize;
        if rec == 0 || off + rec > bs {
            break;
        }
        let used: usize = if ei == 0 {
            0
        } else {
            rec_bytes(buf[off + 6] as usize)
        };
        let slack: usize = if rec > used {
            rec - used
        } else {
            0
        };
        if slack >= need {
            if ei != 0 {
                wr_le16(buf, off + 4, used as u16);
            }
            let no = off + used;
            put_record(buf, no, child, (rec - used) as u16, name, ftype);
            return true;
        }
        off = off + rec;
    }
    false
}

/// Drop the live record named `name`: clear its inode and fold its length
/// into the record before it. False, and the block unchanged, when no live
/// record has that name.
pub fn drop_entry(buf: &mut [u8], name: &[u8]) -> (r: bool)
    requires
        old(buf)@.len() <= 4096,
    ensures
        final(buf)@.len() == old(buf)@.len(),
        !r ==> final(buf)@ == old(buf)@,
        r == drop_at(old(buf)@, 0, 0, name@) is Some,
        drop_at(old(buf)@, 0, 0, name@) matches Some((o, p)) ==> final(buf)@ == dropped(old(buf)@, o, p),
{
    let bs = buf.len();
    let nl = name.len();
    let mut off: usize = 0;
    let mut prev: usize = 0;
    while off + 8 <= bs
        invariant
            bs == buf@.len(),
            buf@ == old(buf)@,
            bs <= 4096,
            nl == name@.len(),
            prev <= off,
            prev + 8 <= bs || prev == 0,
            off <= bs + 0x1_0000,
            drop_at(old(buf)@, 0, 0, name@) == drop_at(old(buf)@, off as int, prev as int, name@),
        ensures
            buf@ == old(buf)@,
            drop_at(old(buf)@, 0, 0, name@) is None,
        decreases bs + 0x1_0000 - off,
    {
        let ino = rd_le32(buf, off);
        let rec = rd_le16(buf, off + 4) as usize;
        let l = buf[off + 6] as usize;
        if rec == 0 {
            break;
        }
        if ino != 0 && l == nl && off + 8 + nl <= bs {
            let here = vstd::slice::slice_subrange(buf, off + 8, off + 8 + nl);
            if crate::text::bytes_eq(here, name) {
                wr_le32(buf, off, 0);
                if prev < off {
                    let pr = rd_le16(buf, prev + 4) as usize;
                    wr_le16(buf, prev + 4, ((pr + rec) % 0x1_0000) as u16);
                }
                return true;
            }
        }
        prev = off;
        off = off + rec;
    }
    false
}

} // verus!

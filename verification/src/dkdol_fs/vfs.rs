//! Volume manager: named mount points and `"mount:/path"` routing.
//!
//! A path `"sd:/boot.dol"` names file `/boot.dol` on the volume mounted
//! as `sd`; a path with no `:` goes to the first mounted volume. The
//! filesystem objects themselves are held by the caller, indexed like
//! this table; the table records the names, kinds and open-file counts.

use vstd::prelude::*;
use vstd::string::StringSliceAdditionalSpecFns;
use crate::gc_fs::{FsError, FsKind, Result};
use crate::text::{find_from, first_index, lemma_first_index_unique, split_str, str_bytes, bytes_eq, utf8_str};

verus! {

/// Most volumes mounted at once.
pub const MAX_VOLUMES: usize = 8;
/// Bytes of a stored mount-point name, NUL included.
pub const MP_LEN: usize = 16;

/// The mount point and path of `path`: split at its first `:`, or the
/// empty mount point and the whole path.
pub open spec fn spec_split_mount(path: Seq<u8>) -> (Seq<u8>, Seq<u8>) {
    match first_index(path, 0x3A) {
        Some(i) => (path.subrange(0, i), path.subrange(i + 1, path.len() as int)),
        None => (Seq::empty(), path),
    }
}

/// Split `"sd:/boot.dol"` into `("sd", "/boot.dol")`.
pub fn split_mount(path: &str) -> (r: (&str, &str))
    ensures
        r.0.spec_bytes() == spec_split_mount(path.spec_bytes()).0,
        r.1.spec_bytes() == spec_split_mount(path.spec_bytes()).1,
{
    let b = str_bytes(path);
    let i = find_from(b, 0, 0x3A);
    proof {
        lemma_first_index_unique(b@, 0x3A, i as int);
    }
    if i == b.len() {
        proof {
            reveal_strlit("");
        }
        return ("", path);
    }
    let (head, rest) = split_str(path, i);
    assert(rest.spec_bytes()[0] == 0x3A);
    let (_, tail) = split_str(rest, 1);
    assert(tail.spec_bytes() =~= b@.subrange(i + 1, b@.len() as int));
    (head, tail)
}

/// The name stored NUL-terminated in a mount-point slot.
pub open spec fn stored_name(m: Seq<u8>) -> Seq<u8> {
    match first_index(m, 0) {
        Some(i) => m.subrange(0, i),
        None => m,
    }
}

/// The name a slot answers to: its stored name when that is UTF-8, else
/// the empty name.
pub open spec fn mount_name(m: Seq<u8>) -> Seq<u8> {
    if vstd::utf8::valid_utf8(stored_name(m)) { stored_name(m) } else { Seq::empty() }
}

/// One mounted volume.
#[derive(Clone, Copy)]
pub struct Volume {
    /// NUL-terminated mount-point name.
    pub mount: [u8; MP_LEN],
    pub kind: FsKind,
    pub in_use: bool,
    pub open_count: u8,
}

/// Volume `v` is what `mount` names: any volume in use for the empty
/// name, else the one of that name.
pub open spec fn answers(v: Volume, mount: Seq<u8>) -> bool {
    v.in_use && (mount.len() == 0 || mount_name(v.mount@) == mount)
}

/// The first volume from `i` on that `mount` names.
pub open spec fn first_named(vs: Seq<Volume>, mount: Seq<u8>, i: int) -> Option<int>
    decreases vs.len() - i,
{
    if i < 0 || i >= vs.len() {
        None
    } else if answers(vs[i], mount) {
        Some(i)
    } else {
        first_named(vs, mount, i + 1)
    }
}

/// The first free slot from `i` on.
pub open spec fn first_free_slot(vs: Seq<Volume>, i: int) -> Option<int>
    decreases vs.len() - i,
{
    if i < 0 || i >= vs.len() {
        None
    } else if !vs[i].in_use {
        Some(i)
    } else {
        first_free_slot(vs, i + 1)
    }
}

proof fn lemma_first_named(vs: Seq<Volume>, mount: Seq<u8>, i: int)
    requires
        0 <= i,
    ensures
        first_named(vs, mount, i) matches Some(j) ==> i <= j < vs.len() && answers(vs[j], mount),
    decreases vs.len() - i,
{
    if i < vs.len() && !answers(vs[i], mount) {
        lemma_first_named(vs, mount, i + 1);
    }
}

proof fn lemma_first_free_slot(vs: Seq<Volume>, i: int)
    requires
        0 <= i,
    ensures
        first_free_slot(vs, i) matches Some(j) ==> i <= j < vs.len() && !vs[j].in_use,
    decreases vs.len() - i,
{
    if i < vs.len() && vs[i].in_use {
        lemma_first_free_slot(vs, i + 1);
    }
}

/// The stored form of mount-point name `name`: at most 15 bytes, a NUL,
/// and what the slot held after it.
pub open spec fn with_name(old_m: Seq<u8>, name: Seq<u8>) -> Seq<u8> {
    let n = if name.len() < MP_LEN - 1 { name.len() as int } else { MP_LEN - 1 };
    name.subrange(0, n) + seq![0u8] + old_m.subrange(n + 1, MP_LEN as int)
}

/// Store mount-point name `name` in `slot`.
pub fn set_mount(slot: &mut [u8; MP_LEN], name: &str)
    ensures
        final(slot)@ == with_name(old(slot)@, name.spec_bytes()),
{
    let b = str_bytes(name);
    let n = if b.len() < MP_LEN - 1 { b.len() } else { MP_LEN - 1 };
    let mut i: usize = 0;
    while i < n
        invariant
            n < MP_LEN,
            n <= b@.len(),
            i <= n,
            forall|k: int| 0 <= k < i ==> slot@[k] == b@[k],
            forall|k: int| i <= k < MP_LEN ==> slot@[k] == old(slot)@[k],
        decreases n - i,
    {
        slot[i] = b[i];
        i = i + 1;
    }
    slot[n] = 0;
    assert(slot@ =~= with_name(old(slot)@, b@));
}

/// The mount table.
pub struct VolumeTable {
    vols: Vec<Volume>,
}

impl View for VolumeTable {
    type V = Seq<Volume>;

    closed spec fn view(&self) -> Seq<Volume> {
        self.vols@
    }
}

/// The name a slot answers to.
fn slot_name(m: &[u8; MP_LEN]) -> (r: &[u8])
    ensures
        r@ == mount_name(m@),
{
    let all = m.as_slice();
    let end = find_from(all, 0, 0);
    proof {
        lemma_first_index_unique(m@, 0, end as int);
    }
    let (head, _) = all.split_at(end);
    assert(head@ == stored_name(m@));
    match utf8_str(head) {
        Some(s) => {
            proof {
                vstd::utf8::encode_utf8_valid_utf8(s@);
            }
            head
        },
        None => {
            let e: &[u8] = &[];
            assert(e@ =~= Seq::<u8>::empty());
            e
        },
    }
}

impl VolumeTable {
    pub closed spec fn wf(&self) -> bool {
        self.vols@.len() == MAX_VOLUMES
    }

    /// Nothing mounted.
    pub fn new() -> (r: Self)
        ensures
            r.wf(),
            forall|i: int| 0 <= i < MAX_VOLUMES ==> !(#[trigger] r@[i]).in_use && r@[i].open_count == 0,
    {
        let mut vols: Vec<Volume> = Vec::new();
        let mut i: usize = 0;
        while i < MAX_VOLUMES
            invariant
                i <= MAX_VOLUMES,
                vols@.len() == i,
                forall|k: int| 0 <= k < i ==> !(#[trigger] vols@[k]).in_use && vols@[k].open_count == 0,
            decreases MAX_VOLUMES - i,
        {
            vols.push(Volume { mount: [0u8; MP_LEN], kind: FsKind::Auto, in_use: false, open_count: 0 });
            i = i + 1;
        }
        VolumeTable { vols }
    }

    /// Volume `i`.
    pub fn volume(&self, i: usize) -> (r: Volume)
        requires
            self.wf(),
            i < MAX_VOLUMES,
        ensures
            r == self@[i as int],
    {
        self.vols[i]
    }

    /// The volume `mount` names: the first one in use for the empty name.
    pub fn find_volume(&self, mount: &str) -> (r: Option<usize>)
        requires
            self.wf(),
        ensures
            r == (match first_named(self@, mount.spec_bytes(), 0) {
                Some(i) => Some(i as usize),
                None => None::<usize>,
            }),
            r matches Some(i) ==> i < MAX_VOLUMES,
    {
        proof {
            lemma_first_named(self@, mount.spec_bytes(), 0);
        }
        let mb = str_bytes(mount);
        let mut i: usize = 0;
        while i < MAX_VOLUMES
            invariant
                i <= MAX_VOLUMES,
                self.wf(),
                mb@ == mount.spec_bytes(),
                first_named(self@, mount.spec_bytes(), 0) == first_named(self@, mount.spec_bytes(), i as int),
            decreases MAX_VOLUMES - i,
        {
            let v = self.vols[i];
            if v.in_use && (mb.len() == 0 || bytes_eq(slot_name(&v.mount), mb)) {
                return Some(i);
            }
            i = i + 1;
        }
        None
    }

    /// A free slot.
    pub fn alloc_slot(&self) -> (r: Option<usize>)
        requires
            self.wf(),
        ensures
            r == (match first_free_slot(self@, 0) {
                Some(i) => Some(i as usize),
                None => None::<usize>,
            }),
            r matches Some(i) ==> i < MAX_VOLUMES,
    {
        proof {
            lemma_first_free_slot(self@, 0);
        }
        let mut i: usize = 0;
        while i < MAX_VOLUMES
            invariant
                i <= MAX_VOLUMES,
                self.wf(),
                first_free_slot(self@, 0) == first_free_slot(self@, i as int),
            decreases MAX_VOLUMES - i,
        {
            if !self.vols[i].in_use {
                return Some(i);
            }
            i = i + 1;
        }
        None
    }

    /// Record a volume of kind `kind` mounted as `mount` in the first free
    /// slot, which is returned; `TooManyMounts` when none is free.
    pub fn mount(&mut self, mount: &str, kind: FsKind) -> (r: Result<usize>)
        requires
            old(self).wf(),
        ensures
            final(self).wf(),
            match first_free_slot(old(self)@, 0) {
                None => r == Err::<usize, FsError>(FsError::TooManyMounts) && final(self)@ == old(self)@,
                Some(i) => r == Ok::<usize, FsError>(i as usize) && final(self)@.len() == MAX_VOLUMES
                    && (forall|k: int| 0 <= k < MAX_VOLUMES && k != i ==> final(self)@[k] == old(self)@[k])
                    && final(self)@[i].in_use && final(self)@[i].kind == kind
                    && final(self)@[i].open_count == old(self)@[i].open_count
                    && final(self)@[i].mount@ == with_name(old(self)@[i].mount@, mount.spec_bytes()),
            },
    {
        proof {
            lemma_first_free_slot(old(self)@, 0);
        }
        let i = match self.alloc_slot() {
            Some(i) => i,
            None => {
                return Err(FsError::TooManyMounts);
            },
        };
        let mut v = self.vols[i];
        set_mount(&mut v.mount, mount);
        v.kind = kind;
        v.in_use = true;
        self.vols.set(i, v);
        Ok(i)
    }

    /// Unmount the volume `mount` names: `NotFound` when none does,
    /// `FilesOpen` while files on it are open.
    pub fn unmount(&mut self, mount: &str) -> (r: Result<()>)
        requires
            old(self).wf(),
        ensures
            final(self).wf(),
            match first_named(old(self)@, mount.spec_bytes(), 0) {
                None => r == Err::<(), FsError>(FsError::NotFound) && final(self)@ == old(self)@,
                Some(i) => if old(self)@[i].open_count > 0 {
                    r == Err::<(), FsError>(FsError::FilesOpen) && final(self)@ == old(self)@
                } else {
                    r == Ok::<(), FsError>(()) && final(self)@ == old(self)@.update(
                        i,
                        Volume { in_use: false, ..old(self)@[i] },
                    )
                },
            },
    {
        proof {
            lemma_first_named(old(self)@, mount.spec_bytes(), 0);
        }
        let i = match self.find_volume(mount) {
            Some(i) => i,
            None => {
                return Err(FsError::NotFound);
            },
        };
        let mut v = self.vols[i];
        if v.open_count > 0 {
            return Err(FsError::FilesOpen);
        }
        v.in_use = false;
        self.vols.set(i, v);
        Ok(())
    }

    /// Whether `mount` names a mounted volume.
    pub fn is_mounted(&self, mount: &str) -> (r: bool)
        requires
            self.wf(),
        ensures
            r == first_named(self@, mount.spec_bytes(), 0) is Some,
    {
        self.find_volume(mount).is_some()
    }

    /// A file was opened on volume `i`: one more open file (saturating).
    pub fn file_opened(&mut self, i: usize)
        requires
            old(self).wf(),
            i < MAX_VOLUMES,
        ensures
            final(self).wf(),
            final(self)@ == old(self)@.update(
                i as int,
                Volume {
                    open_count: if old(self)@[i as int].open_count < 255 {
                        (old(self)@[i as int].open_count + 1) as u8
                    } else {
                        255
                    },
                    ..old(self)@[i as int]
                },
            ),
    {
        let mut v = self.vols[i];
        v.open_count = v.open_count.saturating_add(1);
        self.vols.set(i, v);
    }

    /// A file on volume `i` was dropped: one fewer open file, never below
    /// zero.
    pub fn drop_file(&mut self, i: usize)
        requires
            old(self).wf(),
            i < MAX_VOLUMES,
        ensures
            final(self).wf(),
            final(self)@ == old(self)@.update(
                i as int,
                Volume {
                    open_count: if old(self)@[i as int].open_count > 0 {
                        (old(self)@[i as int].open_count - 1) as u8
                    } else {
                        0
                    },
                    ..old(self)@[i as int]
                },
            ),
    {
        let mut v = self.vols[i];
        if v.open_count > 0 {
            v.open_count = v.open_count - 1;
        }
        self.vols.set(i, v);
    }

    /// The mounted volumes in slot order: slot index and the name it
    /// answers to.
    pub fn list_volumes(&self) -> (r: Vec<(usize, Vec<u8>)>)
        requires
            self.wf(),
        ensures
            forall|k: int| 0 <= k < r@.len() ==> (#[trigger] r@[k]).0 < MAX_VOLUMES && self@[r@[k].0 as int].in_use
                && r@[k].1@ == mount_name(self@[r@[k].0 as int].mount@),
            forall|k: int, l: int| 0 <= k < l < r@.len() ==> (#[trigger] r@[k]).0 < (#[trigger] r@[l]).0,
            forall|i: int| 0 <= i < MAX_VOLUMES && (#[trigger] self@[i]).in_use ==> exists|k: int| 0 <= k < r@.len()
                && r@[k].0 == i,
    {
        let mut out: Vec<(usize, Vec<u8>)> = Vec::new();
        let mut i: usize = 0;
        while i < MAX_VOLUMES
            invariant
                i <= MAX_VOLUMES,
                self.wf(),
                forall|k: int| 0 <= k < out@.len() ==> (#[trigger] out@[k]).0 < i && self@[out@[k].0 as int].in_use
                    && out@[k].1@ == mount_name(self@[out@[k].0 as int].mount@),
                forall|k: int, l: int| 0 <= k < l < out@.len() ==> (#[trigger] out@[k]).0 < (#[trigger] out@[l]).0,
                forall|j: int| 0 <= j < i && (#[trigger] self@[j]).in_use ==> exists|k: int| 0 <= k < out@.len()
                    && out@[k].0 == j,
            decreases MAX_VOLUMES - i,
        {
            let v = self.vols[i];
            let ghost before = out@;
            if v.in_use {
                let name = vstd::slice::slice_to_vec(slot_name(&v.mount));
                out.push((i, name));
                assert(out@[out@.len() - 1].0 == i);
            }
            assert forall|j: int| 0 <= j < i + 1 && (#[trigger] self@[j]).in_use implies exists|k: int|
                0 <= k < out@.len() && out@[k].0 == j by {
                if j < i {
                    let k = choose|k: int| 0 <= k < before.len() && before[k].0 == j;
                    assert(out@[k] == before[k]);
                } else {
                    assert(out@[out@.len() - 1].0 == j);
                }
            }
            i = i + 1;
        }
        out
    }
}


impl VolumeTable {
    /// Unmount the volume `mount` names whatever files are open on it:
    /// `NotFound` when none does.
    pub fn force_unmount(&mut self, mount: &str) -> (r: Result<()>)
        requires
            old(self).wf(),
        ensures
            final(self).wf(),
            match first_named(old(self)@, mount.spec_bytes(), 0) {
                None => r == Err::<(), FsError>(FsError::NotFound) && final(self)@ == old(self)@,
                Some(i) => r == Ok::<(), FsError>(()) && final(self)@ == old(self)@.update(
                    i,
                    Volume { in_use: false, ..old(self)@[i] },
                ),
            },
    {
        proof {
            lemma_first_named(old(self)@, mount.spec_bytes(), 0);
        }
        let i = match self.find_volume(mount) {
            Some(i) => i,
            None => {
                return Err(FsError::NotFound);
            },
        };
        let mut v = self.vols[i];
        v.in_use = false;
        self.vols.set(i, v);
        Ok(())
    }
}

/// A file held in memory (a memory-card file's raw bytes).
pub struct MemFile<'a> {
    data: &'a [u8],
    pos: usize,
}

impl<'a> MemFile<'a> {
    pub closed spec fn spec_data(&self) -> Seq<u8> {
        self.data@
    }

    pub closed spec fn spec_pos(&self) -> usize {
        self.pos
    }

    /// The position is within the file.
    pub closed spec fn wf(&self) -> bool {
        self.pos <= self.data@.len()
    }

    /// The bytes `data`, positioned at the start.
    pub fn new(data: &'a [u8]) -> (r: Self)
        ensures
            r.wf(),
            r.spec_data() == data@,
            r.spec_pos() == 0,
    {
        MemFile { data, pos: 0 }
    }

    pub fn size(&self) -> (r: u64)
        ensures
            r == self.spec_data().len(),
    {
        self.data.len() as u64
    }

    pub fn pos(&self) -> (r: u64)
        ensures
            r == self.spec_pos(),
    {
        self.pos as u64
    }

    /// Move to byte `p`; past the end is `InvalidArg`.
    pub fn seek(&mut self, p: u64) -> (r: Result<()>)
        ensures
            old(self).wf() ==> final(self).wf(),
            final(self).spec_data() == old(self).spec_data(),
            p > old(self).spec_data().len() ==> r == Err::<(), FsError>(FsError::InvalidArg) && final(self).spec_pos()
                == old(self).spec_pos(),
            p <= old(self).spec_data().len() ==> r == Ok::<(), FsError>(()) && final(self).spec_pos() == p,
    {
        if p > self.data.len() as u64 {
            return Err(FsError::InvalidArg);
        }
        self.pos = p as usize;
        Ok(())
    }

    /// Read from the position: as many bytes as `buf` holds or the file
    /// has left.
    pub fn read(&mut self, buf: &mut [u8]) -> (r: Result<usize>)
        requires
            old(self).wf(),
        ensures
            final(self).wf(),
            final(self).spec_data() == old(self).spec_data(),
            final(buf)@.len() == old(buf)@.len(),
            ({
                let d = old(self).spec_data();
                let p = old(self).spec_pos() as int;
                let left = if p >= d.len() { 0 } else { d.len() - p };
                let n = if left < old(buf)@.len() { left } else { old(buf)@.len() as int };
                &&& r == Ok::<usize, FsError>(n as usize)
                &&& final(self).spec_pos() == p + n
                &&& final(buf)@ == d.subrange(p, p + n) + old(buf)@.subrange(n, old(buf)@.len() as int)
            }),
    {
        let dlen = self.data.len();
        let rem = if self.pos >= dlen { 0 } else { dlen - self.pos };
        let take = if rem < buf.len() { rem } else { buf.len() };
        let mut i: usize = 0;
        while i < take
            invariant
                dlen == self.data@.len(),
                self.pos + take <= dlen,
                take <= buf@.len(),
                buf@.len() == old(buf)@.len(),
                self.pos + take <= self.data@.len(),
                self.data == old(self).data,
                self.pos == old(self).pos,
                i <= take,
                forall|k: int| 0 <= k < i ==> buf@[k] == self.data@[self.pos + k],
                forall|k: int| i <= k < buf@.len() ==> buf@[k] == old(buf)@[k],
            decreases take - i,
        {
            buf[i] = self.data[self.pos + i];
            i = i + 1;
        }
        assert(buf@ =~= self.data@.subrange(self.pos as int, self.pos + take) + old(buf)@.subrange(
            take as int,
            old(buf)@.len() as int,
        ));
        self.pos = self.pos + take;
        Ok(take)
    }

    /// Fill `buf` completely; `Eof` when the file ends first (the bytes
    /// that were there are still read).
    pub fn read_exact(&mut self, buf: &mut [u8]) -> (r: Result<()>)
        requires
            old(self).wf(),
        ensures
            final(self).wf(),
            final(self).spec_data() == old(self).spec_data(),
            final(buf)@.len() == old(buf)@.len(),
            ({
                let d = old(self).spec_data();
                let p = old(self).spec_pos() as int;
                (p + old(buf)@.len() <= d.len()) ==> r is Ok && final(buf)@ == d.subrange(p, p + old(buf)@.len())
                    && final(self).spec_pos() == p + old(buf)@.len()
            }),
            ({
                let d = old(self).spec_data();
                let p = old(self).spec_pos() as int;
                (p + old(buf)@.len() > d.len()) ==> r == Err::<(), FsError>(FsError::Eof)
            }),
    {
        let n = self.read(buf)?;
        if n < buf.len() {
            return Err(FsError::Eof);
        }
        Ok(())
    }
}

} // verus!

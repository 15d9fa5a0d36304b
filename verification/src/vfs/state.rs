//! The VFS state (device tree, volume table, descriptor table) and its
//! file API.
//!
//! Opening a file on a storage device may need a mount and a filesystem
//! lookup, which the caller performs: [`Vfs::open`] says what is needed,
//! and [`super::mount::lazy_mount`] and [`Vfs::open_from_volume`] take the
//! results.

use vstd::prelude::*;
use vstd::string::StringSliceAdditionalSpecFns;
use crate::hal::si::DeviceKind;
use crate::gc_fs::{BlockDev, FsError};
use crate::dkdol_fs::ext2::Ext2;
use crate::dkdol_fs::ext2::layout::{Inode, inode_fields, IFDIR, IFMT};
use super::devtree::{DeviceTree, PollClock, present_from};
use super::io::{PollResult, do_read, do_write, poll_fits, poll_needed};
use super::{
    DevKind, Error, Fd, FdTable, HidSlot, MAX_FD, MAX_VOLUMES, MountOptions, O_CREAT, O_TRUNC, O_WRONLY, Result,
    VfsFile, VolFs, VolumeSlot, VolumeTable, DevNode, node_path, do_seek, first_free, first_mounted, kind_of_index, prefix_index_from,
    spec_error_from, spec_split_dev, split_dev_path, dev_kind_for, hid_slot_for, slot_of_index,
};

verus! {

/// What an open needs next.
#[derive(Clone, Copy, Debug)]
pub enum OpenStep {
    /// The open is complete.
    Done(Result<Fd>),
    /// The device must be mounted first (see [`super::mount`]); then the
    /// file is looked up on the new volume, created when `create` is set.
    Mount { create: bool },
    /// Look the file up on volume `vol_idx` (create it when `create` is
    /// set) and finish with [`Vfs::open_from_volume`].
    OnVolume { vol_idx: usize, create: bool },
}

/// A path operation on a storage device.
#[derive(Clone, Copy, Debug, PartialEq, Eq, Structural)]
pub enum PathOp {
    Stat,
    ReadDir,
    Mkdir,
    Unlink,
    Rmdir,
}

/// What a path operation needs next.
#[derive(Clone, Copy, Debug, PartialEq, Eq, Structural)]
pub enum PathStep {
    /// Refused with this error.
    Refused(Error),
    /// The device must be mounted first; then the operation runs on the
    /// new volume.
    Mount,
    /// Run the operation on volume `vol_idx`.
    OnVolume(usize),
}

/// The error a filesystem gives for an operation it does not have:
/// memory cards cannot be listed or stat'ed, and only FAT and EXT2 can be
/// changed.
pub open spec fn op_refusal(fs: VolFs, op: PathOp) -> Option<Error> {
    match op {
        PathOp::Stat | PathOp::ReadDir => if fs is MemCard || fs is Unset {
            Some(Error::Unsupported)
        } else {
            None
        },
        _ => if fs is Fat || fs is Ext2 {
            None
        } else {
            Some(Error::ReadOnly)
        },
    }
}

/// The next step of `op` on `path`.
pub open spec fn spec_path_step(
    devs: Seq<DevNode>,
    vols: Seq<VolumeSlot>,
    path: Seq<u8>,
    op: PathOp,
) -> PathStep {
    match spec_split_dev(path) {
        None => PathStep::Refused(Error::NotFound),
        Some((pre, sub)) => {
            let after = if !present_from(devs, pre, 0) {
                PathStep::Refused(Error::NoDevice)
            } else {
                match first_mounted(vols, pre, 0) {
                    Some(i) => PathStep::OnVolume(i as usize),
                    None => PathStep::Mount,
                }
            };
            if sub.len() == 0 && op is Stat {
                PathStep::Refused(Error::WrongType)
            } else if sub.len() == 0 && !(op is Stat) && !(op is ReadDir) {
                PathStep::Refused(Error::InvalidArg)
            } else {
                after
            }
        },
    }
}

/// The node kind of a device prefix.
pub open spec fn prefix_kind(pre: Seq<u8>) -> DevKind {
    match prefix_index_from(pre, 0) {
        Some(i) => kind_of_index(i),
        None => DevKind::Empty,
    }
}

/// The file a pseudo-device node opens as.
pub open spec fn pseudo_file(k: DevKind) -> VfsFile {
    match k {
        DevKind::Null => VfsFile::Null,
        DevKind::Zero => VfsFile::Zero { pos: 0 },
        DevKind::HidPort(port) => VfsFile::Controller { port },
        _ => VfsFile::Empty,
    }
}

/// The file a device prefix without storage opens as: the report its HID
/// path names, or `/dev/null` and `/dev/zero`.
pub open spec fn prefix_file(pre: Seq<u8>) -> VfsFile {
    match prefix_index_from(pre, 0) {
        Some(i) => if 6 <= i < 22 {
            hid_file(((i - 6) / 4) as u8, slot_of_index(i))
        } else {
            pseudo_file(kind_of_index(i))
        },
        None => VfsFile::Empty,
    }
}

/// The file a HID slot of a port opens as.
pub open spec fn hid_file(port: u8, slot: HidSlot) -> VfsFile {
    match slot {
        HidSlot::Std => VfsFile::Controller { port },
        HidSlot::Kbd => VfsFile::Keyboard { port },
        HidSlot::Mouse => VfsFile::Mouse { port },
        HidSlot::Wii => VfsFile::Wiimote { port },
    }
}

/// The whole VFS state.
pub struct Vfs {
    pub fds: FdTable,
    pub vols: VolumeTable,
    pub devs: DeviceTree,
    /// Options for mounts made on first access.
    pub default_opts: MountOptions,
    /// When each storage group was last re-probed.
    pub clock: PollClock,
}

impl Vfs {
    pub open spec fn wf(&self) -> bool {
        self.fds.wf() && self.vols.wf() && self.devs.wf()
    }

    /// The VFS after start-up: the device tree with the storage presence
    /// the probes found, nothing mounted, no open file, mounts made with
    /// `opts`.
    pub fn init_with_opts(opts: MountOptions, storage_present: [bool; 6]) -> (r: Self)
        ensures
            r.wf(),
            r.default_opts == opts,
            r.fds@ == Seq::new(MAX_FD as nat, |i: int| VfsFile::Empty),
            forall|i: int| 0 <= i < MAX_VOLUMES ==> !(#[trigger] r.vols@[i]).mounted && r.vols@[i].open_count == 0,
            super::devtree::is_initial(r.devs@, storage_present),
    {
        Vfs {
            fds: FdTable::new(),
            vols: VolumeTable::new(),
            devs: DeviceTree::init(storage_present),
            default_opts: opts,
            clock: PollClock::new(),
        }
    }

    /// [`Vfs::init_with_opts`] with the default options.
    pub fn init(storage_present: [bool; 6]) -> (r: Self)
        ensures
            r.wf(),
            r.default_opts == (MountOptions { journal: super::JournalMode::Auto, readonly: false }),
            r.fds@ == Seq::new(MAX_FD as nat, |i: int| VfsFile::Empty),
            forall|i: int| 0 <= i < MAX_VOLUMES ==> !(#[trigger] r.vols@[i]).mounted && r.vols@[i].open_count == 0,
    {
        Vfs::init_with_opts(MountOptions::default_opts(), storage_present)
    }

    /// Use `opts` for later mounts.
    pub fn set_default_mount_opts(&mut self, opts: MountOptions)
        ensures
            *final(self) == (Vfs { default_opts: opts, ..*old(self) }),
    {
        self.default_opts = opts;
    }

    /// Start opening `path`. Paths outside `/dev/` and unknown devices are
    /// `NotFound`; `/dev/null`, `/dev/zero` and the controller-port paths
    /// open at once on the lowest free descriptor (`TooManyOpen` when none
    /// is free), `/dev/hid/pN/kbd`, `/mouse` and `/wii` as the keyboard,
    /// mouse and WiiMote reports of port N and `/dev/hid/pN/std` as its
    /// controller report. A storage device must be present (`NoDevice`) and the path
    /// must name something below it (`WrongType`); then the file is looked
    /// up on its volume, which is mounted first if it is not yet.
    pub fn open(&mut self, path: &str, flags: u32) -> (r: OpenStep)
        requires
            old(self).wf(),
        ensures
            final(self).wf(),
            final(self).vols@ == old(self).vols@,
            final(self).devs@ == old(self).devs@,
            match spec_split_dev(path.spec_bytes()) {
                None => r == OpenStep::Done(Err(Error::NotFound)) && final(self).fds@ == old(self).fds@,
                Some((pre, sub)) => match prefix_kind(pre) {
                    DevKind::Null | DevKind::Zero | DevKind::HidPort(_) => match first_free(old(self).fds@, 0) {
                        None => r == OpenStep::Done(Err(Error::TooManyOpen)) && final(self).fds@ == old(self).fds@,
                        Some(i) => r == OpenStep::Done(Ok(i as Fd)) && final(self).fds@ == old(self).fds@.update(
                            i,
                            prefix_file(pre),
                        ),
                    },
                    DevKind::Empty => r == OpenStep::Done(Err(Error::NotFound)) && final(self).fds@ == old(self).fds@,
                    _ => {
                        &&& final(self).fds@ == old(self).fds@
                        &&& r == (if !present_from(old(self).devs@, pre, 0) {
                            OpenStep::Done(Err(Error::NoDevice))
                        } else if sub.len() == 0 {
                            OpenStep::Done(Err(Error::WrongType))
                        } else {
                            match first_mounted(old(self).vols@, pre, 0) {
                                Some(i) => OpenStep::OnVolume { vol_idx: i as usize, create: flags & O_CREAT != 0 },
                                None => OpenStep::Mount { create: flags & O_CREAT != 0 },
                            }
                        })
                    },
                },
            },
    {
        let create = flags & O_CREAT != 0;
        let (dev_prefix, subpath) = match split_dev_path(path) {
            Some(p) => p,
            None => {
                return OpenStep::Done(Err(Error::NotFound));
            },
        };
        let kind = dev_kind_for(dev_prefix);
        let file = match kind {
            DevKind::Null => VfsFile::Null,
            DevKind::Zero => VfsFile::Zero { pos: 0 },
            DevKind::HidPort(port) => match hid_slot_for(dev_prefix) {
                Some(HidSlot::Kbd) => VfsFile::Keyboard { port },
                Some(HidSlot::Mouse) => VfsFile::Mouse { port },
                Some(HidSlot::Wii) => VfsFile::Wiimote { port },
                _ => VfsFile::Controller { port },
            },
            DevKind::Empty => {
                return OpenStep::Done(Err(Error::NotFound));
            },
            _ => {
                if !self.devs.dev_is_present(dev_prefix) {
                    return OpenStep::Done(Err(Error::NoDevice));
                }
                if crate::text::str_bytes(subpath).len() == 0 {
                    return OpenStep::Done(Err(Error::WrongType));
                }
                return match self.vols.find_mounted(dev_prefix) {
                    Some(i) => OpenStep::OnVolume { vol_idx: i, create },
                    None => OpenStep::Mount { create },
                };
            },
        };
        match self.fds.alloc_fd() {
            Some(fd) => {
                self.fds.install(fd, file);
                OpenStep::Done(Ok(fd))
            },
            None => OpenStep::Done(Err(Error::TooManyOpen)),
        }
    }

    /// Start creating the file at `path`: an open with `O_CREAT`,
    /// `O_WRONLY` and `O_TRUNC`.
    pub fn create(&mut self, path: &str) -> (r: OpenStep)
        requires
            old(self).wf(),
        ensures
            final(self).wf(),
            final(self).vols@ == old(self).vols@,
            spec_split_dev(path.spec_bytes()) matches Some((pre, sub)) && !(prefix_kind(pre) is Empty)
                && !(prefix_kind(pre) is Null) && !(prefix_kind(pre) is Zero) && !(prefix_kind(pre) is HidPort)
                && present_from(old(self).devs@, pre, 0) && sub.len() > 0 ==> (r matches OpenStep::OnVolume {
                create, ..
            } && create) || (r matches OpenStep::Mount { create } && create),
    {
        let flags = O_CREAT | O_WRONLY | O_TRUNC;
        assert(flags & O_CREAT != 0) by (bit_vector)
            requires
                flags == 0x0100u32 | 0x0002u32 | 0x0200u32,
                O_CREAT == 0x0100u32,
        ;
        self.open(path, flags)
    }

    /// Finish opening a file on volume `vol_idx` whose lookup (or
    /// creation) gave `looked_up`, its size: the file opens on the lowest
    /// free descriptor at position 0 and counts as open on the volume. An
    /// unmounted volume is `NoDevice`, a failed lookup its error, and a
    /// full descriptor table `TooManyOpen`.
    pub fn open_from_volume(&mut self, vol_idx: usize, looked_up: Result<u64>) -> (r: Result<Fd>)
        requires
            old(self).wf(),
            vol_idx < MAX_VOLUMES ==> old(self).vols@[vol_idx as int].open_count < 255,
        ensures
            final(self).wf(),
            final(self).devs@ == old(self).devs@,
            if vol_idx >= MAX_VOLUMES || !old(self).vols@[vol_idx as int].mounted {
                r == Err::<Fd, Error>(Error::NoDevice) && final(self).fds@ == old(self).fds@ && final(self).vols@ == old(
                    self,
                ).vols@
            } else {
                match looked_up {
                    Err(e) => r == Err::<Fd, Error>(e) && final(self).fds@ == old(self).fds@ && final(self).vols@ == old(
                        self,
                    ).vols@,
                    Ok(size) => match first_free(old(self).fds@, 0) {
                        None => r == Err::<Fd, Error>(Error::TooManyOpen) && final(self).fds@ == old(self).fds@
                            && final(self).vols@ == old(self).vols@,
                        Some(i) => {
                            &&& r == Ok::<Fd, Error>(i as Fd)
                            &&& final(self).fds@ == old(self).fds@.update(i, VfsFile::Volume { vol_idx, size, pos: 0 })
                            &&& final(self).vols@ == old(self).vols@.update(
                                vol_idx as int,
                                VolumeSlot {
                                    open_count: (old(self).vols@[vol_idx as int].open_count + 1) as u8,
                                    ..old(self).vols@[vol_idx as int]
                                },
                            )
                        },
                    },
                }
            },
    {
        if vol_idx >= MAX_VOLUMES || !self.vols.slot(vol_idx).mounted {
            return Err(Error::NoDevice);
        }
        let size = match looked_up {
            Ok(s) => s,
            Err(e) => {
                return Err(e);
            },
        };
        let fd = match self.fds.alloc_fd() {
            Some(fd) => fd,
            None => {
                return Err(Error::TooManyOpen);
            },
        };
        self.fds.install(fd, VfsFile::Volume { vol_idx, size, pos: 0 });
        self.vols.open_on(vol_idx);
        Ok(fd)
    }

    /// Open controller port `port` as the report of `slot` on the lowest
    /// free descriptor; `None` when none is free.
    pub fn vfs_open_hid(&mut self, port: u8, slot: HidSlot) -> (r: Option<Fd>)
        requires
            old(self).wf(),
        ensures
            final(self).wf(),
            final(self).vols@ == old(self).vols@,
            final(self).devs@ == old(self).devs@,
            match first_free(old(self).fds@, 0) {
                None => r is None && final(self).fds@ == old(self).fds@,
                Some(i) => r == Some(i as Fd) && final(self).fds@ == old(self).fds@.update(i, hid_file(port, slot)),
            },
    {
        let fd = self.fds.alloc_fd()?;
        let f = match slot {
            HidSlot::Std => VfsFile::Controller { port },
            HidSlot::Kbd => VfsFile::Keyboard { port },
            HidSlot::Mouse => VfsFile::Mouse { port },
            HidSlot::Wii => VfsFile::Wiimote { port },
        };
        self.fds.install(fd, f);
        Some(fd)
    }

    /// Read from device file `fd` into `buf`, as [`do_read`]; `kind` is the
    /// device on the file's port and `polled` the poll it needed. A free or
    /// out-of-range descriptor is `InvalidFd`.
    pub fn read(&mut self, fd: Fd, buf: &mut [u8], kind: DeviceKind, polled: PollResult) -> (r: Result<usize>)
        requires
            old(self).wf(),
            (fd as usize) < MAX_FD ==> !(old(self).fds@[fd as int] is Volume),
            (fd as usize) < MAX_FD ==> poll_fits(poll_needed(old(self).fds@[fd as int], old(buf)@.len() as int, kind), polled),
            (fd as usize) >= MAX_FD ==> polled is Nothing,
        ensures
            final(self).wf(),
            final(self).vols@ == old(self).vols@,
            final(buf)@.len() == old(buf)@.len(),
            (fd as usize) >= MAX_FD || old(self).fds@[fd as int] is Empty ==> r == Err::<usize, Error>(Error::InvalidFd)
                && final(buf)@ == old(buf)@ && final(self).fds@ == old(self).fds@,
            (fd as usize) < MAX_FD ==> final(self).fds@.len() == old(self).fds@.len() && forall|k: int|
                0 <= k < MAX_FD && k != fd ==> final(self).fds@[k] == old(self).fds@[k],
            (fd as usize) < MAX_FD ==> (old(self).fds@[fd as int] matches VfsFile::Zero { pos } ==> final(self).fds@[fd as int]
                == (VfsFile::Zero { pos: ((pos + old(buf)@.len()) % 0x1_0000_0000_0000_0000) as u64 })
                && r == Ok::<usize, Error>(old(buf)@.len() as usize)),
            (fd as usize) < MAX_FD && !(old(self).fds@[fd as int] is Zero) ==> final(self).fds@[fd as int] == old(
                self,
            ).fds@[fd as int],
    {
        let mut f = match self.fds.check_fd(fd) {
            Ok(f) => f,
            Err(e) => {
                return Err(e);
            },
        };
        let r = do_read(&mut f, buf, kind, polled);
        self.fds.install(fd, f);
        r
    }

    /// Write `buf` to device file `fd`, as [`do_write`]; a free or
    /// out-of-range descriptor is `InvalidFd`.
    pub fn write(&self, fd: Fd, buf: &[u8]) -> (r: Result<usize>)
        requires
            self.wf(),
            (fd as usize) < MAX_FD ==> !(self.fds@[fd as int] is Volume),
        ensures
            r == (if (fd as usize) >= MAX_FD {
                Err::<usize, Error>(Error::InvalidFd)
            } else {
                match self.fds@[fd as int] {
                    VfsFile::Empty => Err::<usize, Error>(Error::InvalidFd),
                    VfsFile::Null => Ok::<usize, Error>(buf@.len() as usize),
                    _ => Err::<usize, Error>(Error::ReadOnly),
                }
            }),
    {
        let f = match self.fds.check_fd(fd) {
            Ok(f) => f,
            Err(e) => {
                return Err(e);
            },
        };
        do_write(&f, buf.len())
    }

    /// Seek file `fd` to `pos`, as [`do_seek`]; a free or out-of-range
    /// descriptor is `InvalidFd`.
    pub fn seek(&mut self, fd: Fd, pos: u64) -> (r: Result<u64>)
        requires
            old(self).wf(),
        ensures
            final(self).wf(),
            final(self).vols@ == old(self).vols@,
            (fd as usize) >= MAX_FD || old(self).fds@[fd as int] is Empty ==> r == Err::<u64, Error>(Error::InvalidFd)
                && final(self).fds@ == old(self).fds@,
            (fd as usize) < MAX_FD && !(old(self).fds@[fd as int] is Empty) ==> match old(self).fds@[fd as int] {
                VfsFile::Null | VfsFile::Controller { .. } => r == Ok::<u64, Error>(0) && final(self).fds@ == old(
                    self,
                ).fds@,
                VfsFile::Zero { .. } => r == Ok::<u64, Error>(pos) && final(self).fds@ == old(self).fds@.update(
                    fd as int,
                    VfsFile::Zero { pos },
                ),
                VfsFile::Volume { vol_idx, size, .. } => if pos > size {
                    r == Err::<u64, Error>(Error::InvalidArg) && final(self).fds@ == old(self).fds@
                } else {
                    r == Ok::<u64, Error>(pos) && final(self).fds@ == old(self).fds@.update(
                        fd as int,
                        VfsFile::Volume { vol_idx, size, pos },
                    )
                },
                _ => r == Err::<u64, Error>(Error::Unsupported) && final(self).fds@ == old(self).fds@,
            },
    {
        let mut f = match self.fds.check_fd(fd) {
            Ok(f) => f,
            Err(e) => {
                return Err(e);
            },
        };
        let r = do_seek(&mut f, pos);
        self.fds.install(fd, f);
        assert(self.fds@ =~= old(self).fds@.update(fd as int, f));
        r
    }

    /// Size of file `fd`.
    pub fn size(&self, fd: Fd) -> (r: Result<u64>)
        requires
            self.wf(),
        ensures
            r == (if (fd as usize) >= MAX_FD || self.fds@[fd as int] is Empty {
                Err::<u64, Error>(Error::InvalidFd)
            } else {
                Ok::<u64, Error>(
                    match self.fds@[fd as int] {
                        VfsFile::Zero { .. } => u64::MAX,
                        VfsFile::Volume { size, .. } => size,
                        _ => 0,
                    },
                )
            }),
    {
        let f = self.fds.check_fd(fd)?;
        Ok(f.size())
    }

    /// Position of file `fd`.
    pub fn tell(&self, fd: Fd) -> (r: Result<u64>)
        requires
            self.wf(),
        ensures
            r == (if (fd as usize) >= MAX_FD || self.fds@[fd as int] is Empty {
                Err::<u64, Error>(Error::InvalidFd)
            } else {
                Ok::<u64, Error>(
                    match self.fds@[fd as int] {
                        VfsFile::Zero { pos } => pos,
                        VfsFile::Volume { pos, .. } => pos,
                        _ => 0,
                    },
                )
            }),
    {
        let f = self.fds.check_fd(fd)?;
        Ok(f.pos())
    }

    /// Close `fd`: the descriptor is freed and its volume counts one open
    /// file fewer. Out-of-range descriptors are ignored.
    pub fn close(&mut self, fd: Fd)
        requires
            old(self).wf(),
        ensures
            final(self).wf(),
            final(self).devs@ == old(self).devs@,
            (fd as usize) >= MAX_FD ==> final(self).fds@ == old(self).fds@ && final(self).vols@ == old(self).vols@,
            (fd as usize) < MAX_FD ==> final(self).fds@ == old(self).fds@.update(fd as int, VfsFile::Empty),
            (fd as usize) < MAX_FD ==> match old(self).fds@[fd as int] {
                VfsFile::Volume { vol_idx, .. } => vol_idx < MAX_VOLUMES ==> final(self).vols@ == old(self).vols@.update(
                    vol_idx as int,
                    VolumeSlot {
                        open_count: if old(self).vols@[vol_idx as int].open_count > 0 {
                            (old(self).vols@[vol_idx as int].open_count - 1) as u8
                        } else {
                            0
                        },
                        ..old(self).vols@[vol_idx as int]
                    },
                ),
                _ => final(self).vols@ == old(self).vols@,
            },
    {
        if let Some(vi) = self.fds.release_fd(fd) {
            self.vols.release_on(vi);
        }
    }

    /// Whether the device at `dev_prefix` is present.
    pub fn is_present(&self, dev_prefix: &str) -> (r: bool)
        requires
            self.wf(),
        ensures
            r == present_from(self.devs@, dev_prefix.spec_bytes(), 0),
    {
        self.devs.dev_is_present(dev_prefix)
    }

    /// Whether a volume is mounted on `dev_prefix`.
    pub fn is_mounted(&self, dev_prefix: &str) -> (r: bool)
        requires
            self.wf(),
        ensures
            r == first_mounted(self.vols@, dev_prefix.spec_bytes(), 0) is Some,
    {
        self.vols.find_mounted(dev_prefix).is_some()
    }

    /// Unmount the volume on `dev_prefix`; `Busy` while it has open files.
    pub fn unmount(&mut self, dev_prefix: &str) -> (r: Result<()>)
        requires
            old(self).wf(),
        ensures
            final(self).wf(),
            final(self).fds@ == old(self).fds@,
            final(self).devs@ == old(self).devs@,
            match first_mounted(old(self).vols@, dev_prefix.spec_bytes(), 0) {
                None => r == Ok::<(), Error>(()) && final(self).vols@ == old(self).vols@,
                Some(i) => if old(self).vols@[i].open_count > 0 {
                    r == Err::<(), Error>(Error::Busy) && final(self).vols@ == old(self).vols@
                } else {
                    r == Ok::<(), Error>(()) && final(self).vols@ == old(self).vols@.update(
                        i,
                        VolumeSlot { mounted: false, ..old(self).vols@[i] },
                    )
                },
            },
    {
        self.vols.unmount(dev_prefix)
    }
}

impl Vfs {
    /// Start `op` on `path`: paths outside `/dev/` are `NotFound`; a
    /// stat of a device itself is `WrongType`, and changing one
    /// `InvalidArg`; the device must be present (`NoDevice`); then the
    /// operation runs on its volume, mounted first if it is not yet. A
    /// listing of a device itself lists its root.
    pub fn path_step(&self, path: &str, op: PathOp) -> (r: PathStep)
        requires
            self.wf(),
        ensures
            r == spec_path_step(self.devs@, self.vols@, path.spec_bytes(), op),
    {
        let (dev_prefix, subpath) = match split_dev_path(path) {
            Some(p) => p,
            None => {
                return PathStep::Refused(Error::NotFound);
            },
        };
        let empty = crate::text::str_bytes(subpath).len() == 0;
        if empty && matches!(op, PathOp::Stat) {
            return PathStep::Refused(Error::WrongType);
        }
        if empty && !matches!(op, PathOp::Stat) && !matches!(op, PathOp::ReadDir) {
            return PathStep::Refused(Error::InvalidArg);
        }
        if !self.devs.dev_is_present(dev_prefix) {
            return PathStep::Refused(Error::NoDevice);
        }
        match self.vols.find_mounted(dev_prefix) {
            Some(i) => PathStep::OnVolume(i),
            None => PathStep::Mount,
        }
    }

    /// Start a stat of `path`.
    pub fn stat(&self, path: &str) -> (r: PathStep)
        requires
            self.wf(),
        ensures
            r == spec_path_step(self.devs@, self.vols@, path.spec_bytes(), PathOp::Stat),
    {
        self.path_step(path, PathOp::Stat)
    }

    /// Start listing the directory `path`.
    pub fn read_dir(&self, path: &str) -> (r: PathStep)
        requires
            self.wf(),
        ensures
            r == spec_path_step(self.devs@, self.vols@, path.spec_bytes(), PathOp::ReadDir),
    {
        self.path_step(path, PathOp::ReadDir)
    }

    /// Start creating the directory `path`.
    pub fn mkdir(&self, path: &str) -> (r: PathStep)
        requires
            self.wf(),
        ensures
            r == spec_path_step(self.devs@, self.vols@, path.spec_bytes(), PathOp::Mkdir),
    {
        self.path_step(path, PathOp::Mkdir)
    }

    /// Start deleting the file `path`.
    pub fn unlink(&self, path: &str) -> (r: PathStep)
        requires
            self.wf(),
        ensures
            r == spec_path_step(self.devs@, self.vols@, path.spec_bytes(), PathOp::Unlink),
    {
        self.path_step(path, PathOp::Unlink)
    }

    /// Start deleting the empty directory `path`.
    pub fn rmdir(&self, path: &str) -> (r: PathStep)
        requires
            self.wf(),
        ensures
            r == spec_path_step(self.devs@, self.vols@, path.spec_bytes(), PathOp::Rmdir),
    {
        self.path_step(path, PathOp::Rmdir)
    }

    /// The error volume `vol_idx`'s filesystem gives for `op`, if it does
    /// not have it; `NoDevice` when nothing is mounted there.
    pub fn op_unsupported(&self, vol_idx: usize, op: PathOp) -> (r: Option<Error>)
        requires
            self.wf(),
        ensures
            r == (if vol_idx >= MAX_VOLUMES || !self.vols@[vol_idx as int].mounted {
                Some(Error::NoDevice)
            } else {
                op_refusal(self.vols@[vol_idx as int].fs, op)
            }),
    {
        if vol_idx >= MAX_VOLUMES {
            return Some(Error::NoDevice);
        }
        let s = self.vols.slot(vol_idx);
        if !s.mounted {
            return Some(Error::NoDevice);
        }
        match op {
            PathOp::Stat | PathOp::ReadDir => if matches!(s.fs, VolFs::MemCard) || matches!(s.fs, VolFs::Unset) {
                Some(Error::Unsupported)
            } else {
                None
            },
            _ => if matches!(s.fs, VolFs::Fat) || matches!(s.fs, VolFs::Ext2) {
                None
            } else {
                Some(Error::ReadOnly)
            },
        }
    }

    /// Which storage groups are due for re-probing at time `now` (SD, DVD,
    /// memory card), as [`PollClock::due`]. The caller probes each node of
    /// a due group ([`super::devtree::probe_device`]) and reports the
    /// result with [`Vfs::probe_result`].
    pub fn poll(&mut self, now: u64) -> (r: (bool, bool, bool))
        requires
            old(self).wf(),
        ensures
            final(self).wf(),
            final(self).fds@ == old(self).fds@,
            final(self).vols@ == old(self).vols@,
            final(self).devs@ == old(self).devs@,
            r.0 == super::devtree::elapsed(now, old(self).clock.last_sd, super::devtree::SD_POLL_TICKS),
            r.1 == super::devtree::elapsed(now, old(self).clock.last_dvd, super::devtree::DVD_POLL_TICKS),
            r.2 == super::devtree::elapsed(now, old(self).clock.last_mc, super::devtree::MC_POLL_TICKS),
            final(self).clock.last_sd == (if r.0 { now } else { old(self).clock.last_sd }),
            final(self).clock.last_dvd == (if r.1 { now } else { old(self).clock.last_dvd }),
            final(self).clock.last_mc == (if r.2 { now } else { old(self).clock.last_mc }),
    {
        self.clock.due(now)
    }

    /// Record that re-probing device node `i` found it `present`; volumes
    /// on a device that went away are marked removed.
    pub fn probe_result(&mut self, i: usize, present: bool)
        requires
            old(self).wf(),
            i < super::MAX_DEVICES,
        ensures
            final(self).wf(),
            final(self).fds@ == old(self).fds@,
            final(self).devs@ == old(self).devs@.update(i as int, DevNode { present, ..old(self).devs@[i as int] }),
            (old(self).devs@[i as int].present && !present) ==> forall|k: int| 0 <= k < MAX_VOLUMES ==> #[trigger] final(self).vols@[k]
                == (if super::slot_is(old(self).vols@[k], node_path(old(self).devs@[i as int].path@))
                && old(self).vols@[k].open_count == 0 {
                VolumeSlot { mounted: false, ..old(self).vols@[k] }
            } else {
                old(self).vols@[k]
            }),
            !(old(self).devs@[i as int].present && !present) ==> final(self).vols@ == old(self).vols@,
    {
        self.devs.apply_probe(&mut self.vols, i, present);
    }

    /// Flush the volume on `dev_prefix`: FAT and EXT2 write through, so
    /// there is nothing left to flush.
    pub fn sync(&self, dev_prefix: &str) -> (r: Result<()>)
        ensures
            r == Ok::<(), Error>(()),
    {
        Ok(())
    }

    /// Every used device node, with whether a volume is mounted on it.
    pub fn list_devices(&self) -> (r: Vec<(DevNode, bool)>)
        requires
            self.wf(),
        ensures
            r@.len() == super::devtree::listed(self.devs@, super::MAX_DEVICES as int).len(),
            forall|k: int| 0 <= k < r@.len() ==> {
                &&& (#[trigger] r@[k]).0 == super::devtree::listed(self.devs@, super::MAX_DEVICES as int)[k]
                &&& r@[k].1 == first_mounted(self.vols@, node_path(r@[k].0.path@), 0) is Some
            },
    {
        let nodes = self.devs.list_devices();
        let mut out: Vec<(DevNode, bool)> = Vec::new();
        let mut i: usize = 0;
        while i < nodes.len()
            invariant
                i <= nodes@.len(),
                self.wf(),
                out@.len() == i,
                forall|k: int| 0 <= k < i ==> {
                    &&& (#[trigger] out@[k]).0 == nodes@[k]
                    &&& out@[k].1 == first_mounted(self.vols@, node_path(out@[k].0.path@), 0) is Some
                },
            decreases nodes@.len() - i,
        {
            let n = nodes[i];
            let all = n.path.as_slice();
            let end = crate::text::find_from(all, 0, 0);
            proof {
                crate::text::lemma_first_index_unique(n.path@, 0, end as int);
            }
            let (head, _) = all.split_at(end);
            assert(head@ == node_path(n.path@));
            let m = self.vols.find_mounted_bytes(head).is_some();
            out.push((n, m));
            i = i + 1;
        }
        out
    }
}

/// Look up (or create) `subpath` on an EXT2 volume for an open: a created
/// file is empty; an opened one has its inode's size and is no directory.
pub fn ext2_lookup<D: BlockDev>(ev: &mut Ext2<D>, subpath: &str, create: bool) -> (r: Result<u64>)
    requires
        old(ev).wf(),
    ensures
        final(ev).wf(),
        create ==> (r is Ok ==> r == Ok::<u64, Error>(0)),
        !create ==> *final(ev) == *old(ev),
        !create ==> (r matches Ok(s) ==> exists|ino: int, d: Inode|
            #[trigger] inode_fields(old(ev).inode_record(ino), old(ev).spec_sb().block_size, d) && d.size == s
                && d.mode & IFMT != IFDIR),
{
    if create {
        let ino = match ev.create_file(subpath) {
            Ok(i) => i,
            Err(e) => {
                return Err(Error::from(e));
            },
        };
        match ev.inode_raw_info(ino) {
            Ok(_) => Ok(0),
            Err(e) => Err(Error::from(e)),
        }
    } else {
        match ev.open(subpath) {
            Ok(f) => Ok(f.size()),
            Err(e) => Err(Error::from(e)),
        }
    }
}

} // verus!

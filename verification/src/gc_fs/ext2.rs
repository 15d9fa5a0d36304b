//! Read-only EXT2 / EXT3 / EXT4 volumes.
//!
//! EXT3 and EXT4 are backward-compatible supersets of EXT2 for reading, so
//! one driver reads all three: the journal is left as it is (never
//! replayed) and nothing is written. The on-disk format is handled by
//! `crate::dkdol_fs::ext2`; this type opens it read-only.

use vstd::prelude::*;
use vstd::string::StringSliceAdditionalSpecFns;
use super::{BlockDev, FsError, Metadata, Result};
use crate::dkdol_fs::ext2::{Ext2 as Volume, Ext2File, JournalMode, sb_image, meta_of};
use crate::dkdol_fs::ext2::layout::{Superblock, Inode, sb_accepts, sb_fields, inode_fields, IFMT, IFDIR};
use crate::gc_fs::fat::last_component;

verus! {

/// A read-only EXT2/3/4 volume.
pub struct Ext2<D: BlockDev> {
    vol: Volume<D>,
}

impl<D: BlockDev> Ext2<D> {
    /// The volume underneath.
    pub closed spec fn volume(&self) -> Volume<D> {
        self.vol
    }

    pub closed spec fn wf(&self) -> bool {
        self.vol.wf()
    }

    /// Mount `dev` read-only: its superblock is read and checked, a journal
    /// is loaded but never replayed, and the device is left unchanged.
    pub fn mount(dev: D) -> (r: Result<Self>)
        ensures
            dev.sector_len() != 512 ==> r == Err::<Self, FsError>(FsError::BadFormat),
            r matches Ok(v) ==> {
                &&& v.wf()
                &&& v.volume().spec_dev() == dev
                &&& sb_accepts(sb_image(&dev))
                &&& sb_fields(sb_image(&dev), Superblock { state: v.volume().spec_sb().state, ..v.volume().spec_sb() })
            },
    {
        let vol = Volume::mount_opts(dev, JournalMode::Ignore)?;
        Ok(Ext2 { vol })
    }

    /// The filesystem's name.
    pub fn kind_str(&self) -> (r: &'static str)
        ensures
            r@ == "EXT2/3/4"@,
    {
        "EXT2/3/4"
    }

    /// Metadata of each entry of the directory at `path` (other than `.`
    /// and `..`) whose inode can be read.
    pub fn read_dir(&self, path: &str) -> (r: Result<Vec<Metadata>>)
        requires
            self.wf(),
        ensures
            r matches Ok(v) ==> forall|i: int| 0 <= i < v@.len() ==> self.volume().describes(#[trigger] v@[i]),
            r matches Ok(v) ==> exists|ino: u32, idx: Seq<int>| #[trigger] self.volume().listing_of(path.spec_bytes(), v@, ino, idx),
    {
        let r = self.vol.read_dir(path);
        proof {
            if r is Ok {
                let v = r->Ok_0;
                let (ino, idx) = choose|ino: u32, idx: Seq<int>| #[trigger] self.vol.listing_of(path.spec_bytes(), v@, ino, idx);
                assert(self.volume().listing_of(path.spec_bytes(), v@, ino, idx));
            }
        }
        r
    }

    /// Metadata of the file or directory at `path`, named by the path's last
    /// component.
    pub fn stat(&self, path: &str) -> (r: Result<Metadata>)
        requires
            self.wf(),
        ensures
            r matches Ok(m) ==> exists|ino: u32, d: Inode| #[trigger] inode_fields(
                self.volume().inode_record(ino as int),
                self.volume().spec_sb().block_size,
                d,
            ) && meta_of(m, d, last_component(path.spec_bytes())),
            r matches Ok(m) ==> exists|ino: u32| #[trigger] self.volume().resolves(path.spec_bytes(), ino) && meta_of(
                m,
                self.volume().inode_of(ino),
                last_component(path.spec_bytes()),
            ),
    {
        let r = self.vol.stat(path);
        proof {
            if let Ok(m) = r {
                let (ino, d) = choose|ino: u32, d: Inode| #[trigger] inode_fields(
                    self.vol.inode_record(ino as int),
                    self.vol.spec_sb().block_size,
                    d,
                ) && meta_of(m, d, last_component(path.spec_bytes()));
                assert(inode_fields(self.volume().inode_record(ino as int), self.volume().spec_sb().block_size, d));
            }
        }
        r
    }

    /// Open the file at `path` for reading at its start; directories are
    /// `WrongType`.
    pub fn open(&self, path: &str) -> (r: Result<Ext2File<'_, D>>)
        requires
            self.wf(),
        ensures
            r matches Ok(f) ==> f.wf() && *f.spec_vol() == self.volume() && f.spec_pos() == 0
                && inode_fields(
                self.volume().inode_record(f.spec_ino() as int),
                self.volume().spec_sb().block_size,
                f.spec_inode(),
            ) && f.spec_inode().mode & IFMT != IFDIR,
            r matches Ok(f) ==> self.volume().resolves(path.spec_bytes(), f.spec_ino()) && f.spec_inode() == self.volume().inode_of(
                f.spec_ino(),
            ),
    {
        self.vol.open(path)
    }
}

} // verus!

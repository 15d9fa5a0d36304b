//! Mounting a storage device the first time a path beneath it is opened.
//!
//! Which filesystems are tried, and in which order, is decided here; the
//! attempts themselves (initialising the card or drive and reading the
//! filesystem's superblock) are made by the caller, who reports which
//! attempt succeeded.

use vstd::prelude::*;
use vstd::string::StringSliceAdditionalSpecFns;
use crate::gc_fs::FsError;
use crate::dkdol_fs::ext2::JournalMode as Ext2Journal;
use super::{
    Error, JournalMode, MAX_VOLUMES, MountOptions, Result, VolFs, VolumeSlot, VolumeTable, first_unmounted,
    lemma_first_unmounted_range, lemma_prefix_index_range, prefix_index, prefix_index_from, spec_error_from,
};

verus! {

/// SD card slot.
#[derive(Clone, Copy, Debug, PartialEq, Eq, Structural)]
pub enum SdSlot {
    /// SD2SP2 adapter in the serial port 2.
    Sp2,
    /// SD Gecko in memory-card slot A.
    A,
    /// SD Gecko in memory-card slot B.
    B,
}

/// Memory-card slot.
#[derive(Clone, Copy, Debug, PartialEq, Eq, Structural)]
pub enum CardSlot {
    A,
    B,
}

/// One way of mounting a device.
#[derive(Clone, Copy, Debug, PartialEq, Eq, Structural)]
pub enum MountAttempt {
    /// Initialise the SD card and mount FAT32/exFAT.
    Fat(SdSlot),
    /// Initialise the SD card and mount EXT2/3/4 with this journal policy.
    Ext2(SdSlot, Ext2Journal),
    /// Mount the GameCube disc file table.
    GcDvd,
    /// Mount ISO 9660.
    Iso9660,
    /// Mount the memory card's filesystem.
    MemCard(CardSlot),
}

/// The EXT2 driver's journal policy for mount options: refuse a volume
/// whose journal needs replay only with `JournalMode::Auto`.
pub open spec fn ext2_journal(opts: MountOptions) -> Ext2Journal {
    if opts.journal == JournalMode::Auto {
        Ext2Journal::RequireClean
    } else {
        Ext2Journal::Ignore
    }
}

/// The attempts for a device prefix, in order: FAT then EXT2 on SD cards,
/// the disc file table then ISO 9660 on the DVD drive, the memory card's
/// filesystem on memory cards; `None` for any other prefix.
pub open spec fn spec_attempts(prefix: Seq<u8>, opts: MountOptions) -> Option<Seq<MountAttempt>> {
    match prefix_index_from(prefix, 0) {
        Some(i) => if i == 0 {
            Some(seq![MountAttempt::Fat(SdSlot::Sp2), MountAttempt::Ext2(SdSlot::Sp2, ext2_journal(opts))])
        } else if i == 1 {
            Some(seq![MountAttempt::Fat(SdSlot::A), MountAttempt::Ext2(SdSlot::A, ext2_journal(opts))])
        } else if i == 2 {
            Some(seq![MountAttempt::Fat(SdSlot::B), MountAttempt::Ext2(SdSlot::B, ext2_journal(opts))])
        } else if i == 3 {
            Some(seq![MountAttempt::GcDvd, MountAttempt::Iso9660])
        } else if i == 4 {
            Some(seq![MountAttempt::MemCard(CardSlot::A)])
        } else if i == 5 {
            Some(seq![MountAttempt::MemCard(CardSlot::B)])
        } else {
            None
        },
        None => None,
    }
}

/// The filesystem an attempt mounts.
pub open spec fn attempt_fs(a: MountAttempt) -> VolFs {
    match a {
        MountAttempt::Fat(_) => VolFs::Fat,
        MountAttempt::Ext2(..) => VolFs::Ext2,
        MountAttempt::GcDvd => VolFs::GcDvd,
        MountAttempt::Iso9660 => VolFs::Iso9660,
        MountAttempt::MemCard(_) => VolFs::MemCard,
    }
}

fn fs_of(a: MountAttempt) -> (r: VolFs)
    ensures
        r == attempt_fs(a),
{
    match a {
        MountAttempt::Fat(_) => VolFs::Fat,
        MountAttempt::Ext2(..) => VolFs::Ext2,
        MountAttempt::GcDvd => VolFs::GcDvd,
        MountAttempt::Iso9660 => VolFs::Iso9660,
        MountAttempt::MemCard(_) => VolFs::MemCard,
    }
}

/// The attempts for `dev_prefix`.
pub fn mount_attempts(dev_prefix: &str, opts: MountOptions) -> (r: Option<Vec<MountAttempt>>)
    ensures
        match spec_attempts(dev_prefix.spec_bytes(), opts) {
            None => r is None,
            Some(a) => r matches Some(v) && v@ == a,
        },
{
    proof {
        lemma_prefix_index_range(dev_prefix.spec_bytes(), 0);
    }
    let j = if super::ext2_requires_clean(opts) { Ext2Journal::RequireClean } else { Ext2Journal::Ignore };
    let mut v: Vec<MountAttempt> = Vec::new();
    match prefix_index(dev_prefix) {
        Some(i) => {
            if i < 3 {
                let slot = if i == 0 {
                    SdSlot::Sp2
                } else if i == 1 {
                    SdSlot::A
                } else {
                    SdSlot::B
                };
                v.push(MountAttempt::Fat(slot));
                v.push(MountAttempt::Ext2(slot, j));
            } else if i == 3 {
                v.push(MountAttempt::GcDvd);
                v.push(MountAttempt::Iso9660);
            } else if i == 4 {
                v.push(MountAttempt::MemCard(CardSlot::A));
            } else if i == 5 {
                v.push(MountAttempt::MemCard(CardSlot::B));
            } else {
                return None;
            }
        },
        None => {
            return None;
        },
    }
    assert(Some(v@) == spec_attempts(dev_prefix.spec_bytes(), opts));
    Some(v)
}

/// A mount to be made: the volume slot it will take and the attempts.
pub struct MountPlan {
    pub slot: usize,
    pub attempts: Vec<MountAttempt>,
}

/// Plan the mount of `dev_prefix`: `TooManyOpen` when every volume slot
/// is taken, `NotFound` for a prefix that is no storage device.
pub fn lazy_mount_plan(vols: &VolumeTable, dev_prefix: &str, opts: MountOptions) -> (r: Result<MountPlan>)
    requires
        vols.wf(),
    ensures
        match first_unmounted(vols@, 0) {
            None => r is Err && r->Err_0 == Error::TooManyOpen,
            Some(i) => match spec_attempts(dev_prefix.spec_bytes(), opts) {
                None => r is Err && r->Err_0 == Error::NotFound,
                Some(a) => r matches Ok(p) && p.slot == i && p.attempts@ == a,
            },
        },
{
    proof {
        lemma_first_unmounted_range(vols@, 0);
    }
    let slot = match vols.alloc_volume_slot() {
        Some(i) => i,
        None => {
            return Err(Error::TooManyOpen);
        },
    };
    match mount_attempts(dev_prefix, opts) {
        Some(attempts) => Ok(MountPlan { slot, attempts }),
        None => Err(Error::NotFound),
    }
}

/// The error of a mount where every attempt failed, `e` being the last
/// failure: a memory card reports its filesystem's error, the other
/// devices `BadFormat`.
pub open spec fn mount_failure(attempts: Seq<MountAttempt>, e: FsError) -> Error {
    if attempts.len() == 1 && attempts[0] is MemCard {
        spec_error_from(e)
    } else {
        Error::BadFormat
    }
}

/// Complete the mount of `dev_prefix` planned as `plan`, given its outcome:
/// the index of the attempt that mounted, or the error of the last one.
/// A mount records the volume in the planned slot and gives that slot;
/// a failed one leaves the table as it was.
pub fn lazy_mount(
    vols: &mut VolumeTable,
    plan: &MountPlan,
    dev_prefix: &str,
    opts: MountOptions,
    outcome: core::result::Result<usize, FsError>,
) -> (r: Result<usize>)
    requires
        old(vols).wf(),
        plan.slot < MAX_VOLUMES,
        outcome matches Ok(k) ==> k < plan.attempts@.len(),
    ensures
        final(vols).wf(),
        match outcome {
            Ok(k) => {
                &&& r == Ok::<usize, Error>(plan.slot)
                &&& forall|j: int| 0 <= j < MAX_VOLUMES && j != plan.slot ==> final(vols)@[j] == old(vols)@[j]
                &&& final(vols)@[plan.slot as int].mounted
                &&& final(vols)@[plan.slot as int].open_count == 0
                &&& final(vols)@[plan.slot as int].opts == opts
                &&& final(vols)@[plan.slot as int].fs == attempt_fs(plan.attempts@[k as int])
                &&& final(vols)@[plan.slot as int].prefix@ == super::devtree::stored_path(dev_prefix.spec_bytes())
            },
            Err(e) => r == Err::<usize, Error>(mount_failure(plan.attempts@, e)) && final(vols)@ == old(vols)@,
        },
{
    match outcome {
        Ok(k) => {
            let fs = fs_of(plan.attempts[k]);
            vols.set_mounted(plan.slot, dev_prefix, opts, fs);
            Ok(plan.slot)
        },
        Err(e) => {
            if plan.attempts.len() == 1 && matches!(plan.attempts[0], MountAttempt::MemCard(_)) {
                Err(Error::from(e))
            } else {
                Err(Error::BadFormat)
            }
        },
    }
}

} // verus!

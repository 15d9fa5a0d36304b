//! Filesystems for the devkit's own storage stack: the ext2/3/4 driver with
//! its JBD2 journal, and byte-image adapters. The error type, metadata
//! record, block-device trait and path helpers are shared with `gc_fs`.

use vstd::prelude::*;

pub use crate::gc_fs::{FsError, Result, FsKind, Metadata, BlockDev, path_split, name_eq_ci, padded_eq};

pub mod ext2;
pub mod vfs;
pub mod image;

verus! {

} // verus!

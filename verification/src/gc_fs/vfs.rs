//! Volume manager of the filesystem library: `"mount:/path"` routing over
//! a table of named volumes. It shares its table, routing and in-memory
//! files with the devkit's storage stack; unmounting here does not wait
//! for open files.

use vstd::prelude::*;

pub use crate::dkdol_fs::vfs::{MAX_VOLUMES, MP_LEN, MemFile, Volume, VolumeTable, set_mount, split_mount};

verus! {

} // verus!

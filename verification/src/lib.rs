//! Verified core of a GameCube/Wii homebrew devkit: filesystem drivers,
//! input-device state tracking, the virtual device tree, the heap free list,
//! the text console and the crash-report formatter.

use vstd::prelude::*;

pub mod bytes;
pub mod text;
pub mod gc_fs;
pub mod hal;
pub mod vfs;
pub mod rt;
pub mod gfx;
pub mod heap;
pub mod crash;
pub mod dkdol_fs;

verus! {

} // verus!

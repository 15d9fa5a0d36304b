//! Hardware-facing data of the console: controller-port (SI) device
//! identification and report decoding, storage-device descriptions, DVD
//! and video-interface types, and the graphics-pipe enumerations. The
//! register access itself lives with the caller; these modules decide
//! and decode.

pub mod si;
pub mod gx;
pub mod storage;
pub mod dvd;
pub mod vi;
pub mod ios;
pub mod fifo;

//! The DVD drive interface: errors, the disc header, command words and the
//! completion decision.

use vstd::prelude::*;
use crate::bytes::{be32, rd_be32};

verus! {

/// Minimum read size and alignment.
pub const MIN_READ_ALIGN: usize = 32;
/// Largest read of a single command.
pub const MAX_READ_BYTES: usize = 0x00A0_0000;
/// Read command.
pub const CMD_READ: u32 = 0xA800_0000;
/// Read-disc-identification command.
pub const CMD_READ_DISKID: u32 = 0xA800_0040;
/// Seek command.
pub const CMD_SEEK: u32 = 0xAB00_0000;
/// Magic of a GameCube disc header.
pub const DISC_MAGIC: u32 = 0xC233_9F3D;
/// Status bits: transfer complete, drive error, break.
pub const DISR_TCINT: u32 = 1 << 4;
pub const DISR_DEINT: u32 = 1 << 2;
pub const DISR_BRKINT: u32 = 1 << 6;

/// Error of a DVD operation.
#[derive(Clone, Copy, PartialEq, Eq, Debug, Structural)]
pub enum DvdError {
    /// No disc in drive.
    NoDisk,
    /// Drive cover is open.
    CoverOpen,
    /// Transfer timed out.
    Timeout,
    /// Drive returned an error.
    DriveError,
    /// Buffer alignment or size error.
    AlignmentError,
}

/// Disc identification header (the first 32 bytes of a disc).
#[derive(Clone, Copy)]
pub struct DiscId {
    /// Four-character game code.
    pub game_code: [u8; 4],
    /// Two-character maker code.
    pub maker_code: [u8; 2],
    /// Disc number of a multi-disc game.
    pub disc_num: u8,
    /// Game version.
    pub game_ver: u8,
    /// 1 when audio streaming is enabled.
    pub audio_streaming: u8,
    /// Streaming buffer size.
    pub stream_buf_size: u8,
    pub _pad: [u8; 14],
    /// Disc magic.
    pub magic: u32,
}

impl DiscId {
    /// The header in the first 32 bytes of `b` (fields as laid out on
    /// disc, the magic big-endian).
    pub fn from_bytes(b: &[u8]) -> (r: DiscId)
        requires
            b@.len() >= 32,
        ensures
            r.game_code@ == b@.subrange(0, 4),
            r.maker_code@ == b@.subrange(4, 6),
            r.disc_num == b@[6],
            r.game_ver == b@[7],
            r.audio_streaming == b@[8],
            r.stream_buf_size == b@[9],
            r._pad@ == b@.subrange(10, 24),
            r.magic == be32(b@, 28),
    {
        let r = DiscId {
            game_code: [b[0], b[1], b[2], b[3]],
            maker_code: [b[4], b[5]],
            disc_num: b[6],
            game_ver: b[7],
            audio_streaming: b[8],
            stream_buf_size: b[9],
            _pad: [b[10], b[11], b[12], b[13], b[14], b[15], b[16], b[17], b[18], b[19], b[20], b[21], b[22], b[23]],
            magic: rd_be32(b, 28),
        };
        assert(r.game_code@ =~= b@.subrange(0, 4));
        assert(r.maker_code@ =~= b@.subrange(4, 6));
        assert(r._pad@ =~= b@.subrange(10, 24));
        r
    }

    /// Whether the header carries the disc magic.
    pub fn is_valid(&self) -> (r: bool)
        ensures
            r == (self.magic == DISC_MAGIC),
    {
        self.magic == DISC_MAGIC
    }
}

/// The DVD drive as a block device of the filesystem layer.
pub struct DvdDisk;

/// Check a read request: buffer address and length must be 32-byte
/// aligned, and the cover closed.
pub fn check_read(buf_addr: usize, len: usize, cover_open: bool) -> (r: Result<(), DvdError>)
    ensures
        r == if buf_addr % 32 != 0 || len % 32 != 0 {
            Err::<(), DvdError>(DvdError::AlignmentError)
        } else if cover_open {
            Err(DvdError::CoverOpen)
        } else {
            Ok(())
        },
{
    if buf_addr % 32 != 0 {
        return Err(DvdError::AlignmentError);
    }
    if len % 32 != 0 {
        return Err(DvdError::AlignmentError);
    }
    if cover_open {
        return Err(DvdError::CoverOpen);
    }
    Ok(())
}

/// The command words of a read of `len` bytes at disc byte `offset`
/// (disc addresses count 4-byte words) into the buffer at `buf_addr`:
/// (command, address, length, physical buffer address).
pub fn read_command(offset: u64, len: usize, buf_addr: usize) -> (r: (u32, u32, u32, u32))
    ensures
        r.0 == CMD_READ,
        r.1 == (offset / 4) % 0x1_0000_0000,
        r.2 == (len as int) % 0x1_0000_0000,
        r.3 == (buf_addr as int) % 0x2000_0000,
{
    let a = offset >> 2u64;
    assert(a == offset / 4) by (bit_vector)
        requires
            a == offset >> 2u64,
    ;
    let w = a as u32;
    assert(w == a % 0x1_0000_0000) by (bit_vector)
        requires
            w == a as u32,
    ;
    let l = len as u64;
    let lw = l as u32;
    assert(lw == l % 0x1_0000_0000) by (bit_vector)
        requires
            lw == l as u32,
    ;
    let ba = buf_addr as u64;
    let p = ba & 0x1FFF_FFFF;
    assert(p == ba % 0x2000_0000) by (bit_vector)
        requires
            p == ba & 0x1FFF_FFFF,
    ;
    (CMD_READ, w, lw, p as u32)
}

/// What the completion poll decides from the status register `sr`.
#[derive(Clone, Copy, PartialEq, Eq, Debug, Structural)]
pub enum ReadyStep {
    /// The transfer completed; write this value to acknowledge it.
    Done(u32),
    /// The drive reported an error; write this value to acknowledge it.
    Failed(u32),
    /// The deadline passed.
    TimedOut,
    /// Keep polling.
    Pending,
}

/// One step of waiting for the drive: completion is acknowledged (clearing
/// the error and break flags in the written value), an error likewise, and
/// past the deadline the wait times out.
pub fn ready_step(sr: u32, now: u64, deadline: u64) -> (r: ReadyStep)
    ensures
        r == if sr & DISR_TCINT != 0 {
            ReadyStep::Done((sr & !(DISR_DEINT | DISR_BRKINT)) | DISR_TCINT)
        } else if sr & DISR_DEINT != 0 {
            ReadyStep::Failed((sr & !(DISR_TCINT | DISR_BRKINT)) | DISR_DEINT)
        } else if now > deadline {
            ReadyStep::TimedOut
        } else {
            ReadyStep::Pending
        },
{
    if sr & DISR_TCINT != 0 {
        ReadyStep::Done((sr & !(DISR_DEINT | DISR_BRKINT)) | DISR_TCINT)
    } else if sr & DISR_DEINT != 0 {
        ReadyStep::Failed((sr & !(DISR_TCINT | DISR_BRKINT)) | DISR_DEINT)
    } else if now > deadline {
        ReadyStep::TimedOut
    } else {
        ReadyStep::Pending
    }
}

/// Map a poll outcome to the wait's result.
pub fn ready_result(step: ReadyStep) -> (r: Option<Result<(), DvdError>>)
    ensures
        r == match step {
            ReadyStep::Done(_) => Some(Ok::<(), DvdError>(())),
            ReadyStep::Failed(_) => Some(Err(DvdError::DriveError)),
            ReadyStep::TimedOut => Some(Err(DvdError::Timeout)),
            ReadyStep::Pending => None,
        },
{
    match step {
        ReadyStep::Done(_) => Some(Ok(())),
        ReadyStep::Failed(_) => Some(Err(DvdError::DriveError)),
        ReadyStep::TimedOut => Some(Err(DvdError::Timeout)),
        ReadyStep::Pending => None,
    }
}

} // verus!

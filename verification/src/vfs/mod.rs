//! Virtual filesystem: the `/dev/` device tree, the file-descriptor and
//! volume tables, and the HID report layouts read through
//! `/dev/hid/pN/{std,kbd,mouse,wii}`.
//!
//! Storage devices are mounted lazily on first access; `/dev/null` and
//! `/dev/zero` are always present.

use vstd::prelude::*;
use vstd::string::StringSliceAdditionalSpecFns;
use crate::bytes::{be16, rd_be16};
use crate::gc_fs::FsError;
use crate::hal::si::{ExtendedPadState, PadState, Port, as_i16, as_i8};
use crate::text::{bytes_eq, str_bytes, split_str, find_from, utf8_str, first_index, lemma_first_index_unique};

pub mod hid;
pub mod io;
pub mod devtree;
pub mod mount;
pub mod state;

verus! {

/// Maximum simultaneously open file descriptors.
pub const MAX_FD: usize = 32;
/// Maximum mounted filesystem slots.
pub const MAX_VOLUMES: usize = 8;
/// Maximum nodes in the device tree.
pub const MAX_DEVICES: usize = 24;

pub const O_RDONLY: u32 = 0x0001;
pub const O_WRONLY: u32 = 0x0002;
pub const O_RDWR: u32 = 0x0003;
pub const O_CREAT: u32 = 0x0100;
pub const O_TRUNC: u32 = 0x0200;
pub const O_APPEND: u32 = 0x0400;

/// Integer file descriptor, 0 to `MAX_FD - 1`.
pub type Fd = u8;

/// Which kind of HID device to open on a port.
#[derive(Clone, Copy, Debug, PartialEq, Eq, Structural)]
pub enum HidSlot {
    /// Standard controller.
    Std,
    /// Keyboard.
    Kbd,
    /// Mouse, or WiiMote IR pointer.
    Mouse,
    /// Full WiiMote state.
    Wii,
}

/// VFS errors.
#[derive(Debug, Clone, Copy, PartialEq, Eq, Structural)]
pub enum Error {
    NotFound,
    Io,
    BadFormat,
    ReadOnly,
    NoSpace,
    WrongType,
    NotEmpty,
    TooManyOpen,
    InvalidFd,
    InvalidArg,
    Unsupported,
    NoDevice,
    Busy,
    FsNotAvailable,
}

pub type Result<T> = core::result::Result<T, Error>;

/// The VFS error a filesystem error becomes.
pub open spec fn spec_error_from(e: FsError) -> Error {
    match e {
        FsError::Io => Error::Io,
        FsError::BadFormat => Error::BadFormat,
        FsError::NotFound => Error::NotFound,
        FsError::ReadOnly => Error::ReadOnly,
        FsError::Eof => Error::Io,
        FsError::BufferTooSmall => Error::InvalidArg,
        FsError::InvalidArg => Error::InvalidArg,
        FsError::NoSpace => Error::NoSpace,
        FsError::NotEmpty => Error::NotEmpty,
        FsError::WrongType => Error::WrongType,
        FsError::Unsupported => Error::Unsupported,
        FsError::TooManyMounts => Error::TooManyOpen,
        FsError::FilesOpen => Error::Busy,
    }
}

impl From<FsError> for Error {
    fn from(e: FsError) -> (r: Self) {
        match e {
            FsError::Io => Error::Io,
            FsError::BadFormat => Error::BadFormat,
            FsError::NotFound => Error::NotFound,
            FsError::ReadOnly => Error::ReadOnly,
            FsError::Eof => Error::Io,
            FsError::BufferTooSmall => Error::InvalidArg,
            FsError::InvalidArg => Error::InvalidArg,
            FsError::NoSpace => Error::NoSpace,
            FsError::NotEmpty => Error::NotEmpty,
            FsError::WrongType => Error::WrongType,
            FsError::Unsupported => Error::Unsupported,
            FsError::TooManyMounts => Error::TooManyOpen,
            FsError::FilesOpen => Error::Busy,
        }
    }
}

impl vstd::std_specs::convert::FromSpecImpl<FsError> for Error {
    open spec fn obeys_from_spec() -> bool {
        true
    }

    open spec fn from_spec(e: FsError) -> Error {
        spec_error_from(e)
    }
}

/// Journaling policy (EXT3/4 only).
#[derive(Clone, Copy, Debug, PartialEq, Eq, Structural)]
pub enum JournalMode {
    /// Journal when supported; refuse a dirty EXT3/4 volume.
    Auto,
    /// Journal, replaying the journal after an unclean shutdown.
    Replay,
    /// No journaling: EXT2 behaviour everywhere.
    Disable,
}

/// How a storage device is mounted when first accessed.
#[derive(Clone, Copy, Debug, PartialEq, Eq, Structural)]
pub struct MountOptions {
    pub journal: JournalMode,
    pub readonly: bool,
}

impl MountOptions {
    /// Journaling on, writable.
    pub fn default_opts() -> (r: Self)
        ensures
            r == (MountOptions { journal: JournalMode::Auto, readonly: false }),
    {
        MountOptions { journal: JournalMode::Auto, readonly: false }
    }

    /// Journaling on, read-only.
    pub fn readonly_opts() -> (r: Self)
        ensures
            r == (MountOptions { journal: JournalMode::Auto, readonly: true }),
    {
        MountOptions { journal: JournalMode::Auto, readonly: true }
    }
}

impl Default for MountOptions {
    fn default() -> (r: Self)
        ensures
            r == (MountOptions { journal: JournalMode::Auto, readonly: false }),
    {
        MountOptions::default_opts()
    }
}

/// Whether the EXT2 driver is asked to refuse a volume whose journal needs
/// replay: only with `JournalMode::Auto`.
pub fn ext2_requires_clean(opts: MountOptions) -> (r: bool)
    ensures
        r == (opts.journal == JournalMode::Auto),
{
    match opts.journal {
        JournalMode::Disable => false,
        JournalMode::Replay => false,
        JournalMode::Auto => true,
    }
}

// ─── Controller / HID report layouts ─────────────────────────────────────────

/// One controller port as read from `/dev/hid/pN/std` (16 bytes).
#[derive(Clone, Copy, Debug)]
pub struct ControllerState {
    pub buttons: u16,
    pub stick_x: u8,
    pub stick_y: u8,
    pub cstick_x: u8,
    pub cstick_y: u8,
    pub trigger_l: u8,
    pub trigger_r: u8,
    /// 1 when a device is present.
    pub connected: u8,
    /// Extended buttons; 0 on a standard controller.
    pub ext_buttons: u8,
    pub _pad: [u8; 6],
}

/// Keyboard state as read from `/dev/hid/pN/kbd` (16 bytes).
#[derive(Clone, Copy, Debug)]
pub struct KbdState {
    pub modifiers: u8,
    pub _reserved: u8,
    /// Up to six held key codes; unused slots are 0.
    pub keys: [u8; 6],
    pub connected: u8,
    pub _pad: [u8; 7],
}

/// Mouse state as read from `/dev/hid/pN/mouse` (16 bytes). In absolute
/// mode (`absolute == 1`, a WiiMote pointer) `dx`/`dy` are coordinates,
/// and `dx == -1` means the pointer is off screen.
#[derive(Clone, Copy, Debug)]
pub struct MouseState {
    pub buttons: u8,
    pub absolute: u8,
    pub dx: i16,
    pub dy: i16,
    pub scroll_y: i8,
    pub scroll_x: i8,
    pub connected: u8,
    pub _pad: [u8; 7],
}

/// Full WiiMote state as read from `/dev/hid/pN/wii` (24 bytes).
#[derive(Clone, Copy, Debug)]
pub struct WiimoteState {
    pub buttons: u16,
    pub stick_x: u8,
    pub stick_y: u8,
    pub cstick_x: u8,
    pub cstick_y: u8,
    pub trigger_l: u8,
    pub trigger_r: u8,
    pub ext_buttons: u8,
    pub extension: u8,
    pub wii_buttons: u16,
    pub ir_x: u16,
    pub ir_y: u16,
    pub accel_x: u8,
    pub accel_y: u8,
    pub accel_z: u8,
    pub connected: u8,
    pub _pad: [u8; 4],
}

/// A controller state with no device.
pub open spec fn controller_zero() -> ControllerState {
    ControllerState {
        buttons: 0,
        stick_x: 0,
        stick_y: 0,
        cstick_x: 0,
        cstick_y: 0,
        trigger_l: 0,
        trigger_r: 0,
        connected: 0,
        ext_buttons: 0,
        _pad: [0u8, 0, 0, 0, 0, 0],
    }
}

impl ControllerState {
    /// No device: all zero.
    pub fn zeroed() -> (r: Self)
        ensures
            r == controller_zero(),
    {
        ControllerState {
            buttons: 0,
            stick_x: 0,
            stick_y: 0,
            cstick_x: 0,
            cstick_y: 0,
            trigger_l: 0,
            trigger_r: 0,
            connected: 0,
            ext_buttons: 0,
            _pad: [0u8, 0, 0, 0, 0, 0],
        }
    }

    /// A connected standard controller with this pad state.
    pub fn from_pad(pad: &PadState) -> (r: Self)
        ensures
            r.buttons == pad.buttons,
            r.stick_x == pad.stick_x,
            r.stick_y == pad.stick_y,
            r.cstick_x == pad.cstick_x,
            r.cstick_y == pad.cstick_y,
            r.trigger_l == pad.trigger_l,
            r.trigger_r == pad.trigger_r,
            r.connected == 1,
            r.ext_buttons == 0,
            r._pad == [0u8, 0, 0, 0, 0, 0],
    {
        ControllerState {
            buttons: pad.buttons,
            stick_x: pad.stick_x,
            stick_y: pad.stick_y,
            cstick_x: pad.cstick_x,
            cstick_y: pad.cstick_y,
            trigger_l: pad.trigger_l,
            trigger_r: pad.trigger_r,
            connected: 1,
            ext_buttons: 0,
            _pad: [0u8, 0, 0, 0, 0, 0],
        }
    }

    /// A connected extended controller: the pad plus its extra buttons.
    pub fn from_extended(ext: &ExtendedPadState) -> (r: Self)
        ensures
            r == (ControllerState { ext_buttons: ext.ext_buttons, ..ControllerState::spec_from_pad(ext.base) }),
    {
        let mut s = Self::from_pad(&ext.base);
        s.ext_buttons = ext.ext_buttons;
        s
    }

    pub open spec fn spec_from_pad(pad: PadState) -> ControllerState {
        ControllerState {
            buttons: pad.buttons,
            stick_x: pad.stick_x,
            stick_y: pad.stick_y,
            cstick_x: pad.cstick_x,
            cstick_y: pad.cstick_y,
            trigger_l: pad.trigger_l,
            trigger_r: pad.trigger_r,
            connected: 1,
            ext_buttons: 0,
            _pad: [0u8, 0, 0, 0, 0, 0],
        }
    }

    /// The 16 bytes of the record, multi-byte fields big-endian.
    pub open spec fn spec_bytes(&self) -> Seq<u8> {
        seq![
            (self.buttons / 0x100) as u8, (self.buttons % 0x100) as u8, self.stick_x, self.stick_y,
            self.cstick_x, self.cstick_y, self.trigger_l, self.trigger_r, self.connected, self.ext_buttons,
            self._pad[0], self._pad[1], self._pad[2], self._pad[3], self._pad[4], self._pad[5],
        ]
    }

    /// Encode the record.
    pub fn to_bytes(&self) -> (r: [u8; 16])
        ensures
            r@ == self.spec_bytes(),
    {
        let r = [
            (self.buttons / 0x100) as u8, (self.buttons % 0x100) as u8, self.stick_x, self.stick_y,
            self.cstick_x, self.cstick_y, self.trigger_l, self.trigger_r, self.connected, self.ext_buttons,
            self._pad[0], self._pad[1], self._pad[2], self._pad[3], self._pad[4], self._pad[5],
        ];
        assert(r@ =~= self.spec_bytes());
        r
    }

    /// Decode a record from its first 16 bytes.
    pub fn from_bytes(b: &[u8]) -> (r: Self)
        requires
            b@.len() >= 16,
        ensures
            r.spec_bytes() == b@.subrange(0, 16),
    {
        let r = ControllerState {
            buttons: rd_be16(b, 0),
            stick_x: b[2],
            stick_y: b[3],
            cstick_x: b[4],
            cstick_y: b[5],
            trigger_l: b[6],
            trigger_r: b[7],
            connected: b[8],
            ext_buttons: b[9],
            _pad: [b[10], b[11], b[12], b[13], b[14], b[15]],
        };
        assert(r.spec_bytes() =~= b@.subrange(0, 16));
        r
    }
}

impl KbdState {
    pub open spec fn spec_bytes(&self) -> Seq<u8> {
        seq![
            self.modifiers, self._reserved, self.keys[0], self.keys[1], self.keys[2], self.keys[3],
            self.keys[4], self.keys[5], self.connected, self._pad[0], self._pad[1], self._pad[2],
            self._pad[3], self._pad[4], self._pad[5], self._pad[6],
        ]
    }

    /// The report a keyboard poll result is delivered as.
    pub fn from_raw(raw: &crate::hal::si::KbdState) -> (r: Self)
        ensures
            r.modifiers == raw.modifiers,
            r._reserved == 0,
            r.keys == raw.keys,
            r.connected == raw.connected,
            r._pad == [0u8, 0, 0, 0, 0, 0, 0],
    {
        KbdState { modifiers: raw.modifiers, _reserved: 0, keys: raw.keys, connected: raw.connected, _pad: [0u8, 0, 0, 0, 0, 0, 0] }
    }

    pub fn to_bytes(&self) -> (r: [u8; 16])
        ensures
            r@ == self.spec_bytes(),
    {
        let r = [
            self.modifiers, self._reserved, self.keys[0], self.keys[1], self.keys[2], self.keys[3],
            self.keys[4], self.keys[5], self.connected, self._pad[0], self._pad[1], self._pad[2],
            self._pad[3], self._pad[4], self._pad[5], self._pad[6],
        ];
        assert(r@ =~= self.spec_bytes());
        r
    }

    pub fn from_bytes(b: &[u8]) -> (r: Self)
        requires
            b@.len() >= 16,
        ensures
            r.spec_bytes() == b@.subrange(0, 16),
    {
        let r = KbdState {
            modifiers: b[0],
            _reserved: b[1],
            keys: [b[2], b[3], b[4], b[5], b[6], b[7]],
            connected: b[8],
            _pad: [b[9], b[10], b[11], b[12], b[13], b[14], b[15]],
        };
        assert(r.spec_bytes() =~= b@.subrange(0, 16));
        r
    }
}

/// Two's-complement bytes of an `i16`, high byte first.
pub open spec fn i16_hi(v: i16) -> u8 {
    (((v as int + 0x1_0000) % 0x1_0000) / 0x100) as u8
}

pub open spec fn i16_lo(v: i16) -> u8 {
    ((v as int + 0x1_0000) % 0x100) as u8
}

pub open spec fn i8_byte(v: i8) -> u8 {
    ((v as int + 0x100) % 0x100) as u8
}

fn i16_bytes(v: i16) -> (r: (u8, u8))
    ensures
        r.0 == i16_hi(v),
        r.1 == i16_lo(v),
{
    let u: u32 = (v as i32 + 0x1_0000) as u32 % 0x1_0000;
    ((u / 0x100) as u8, (u % 0x100) as u8)
}

fn i8_to_byte(v: i8) -> (r: u8)
    ensures
        r == i8_byte(v),
{
    ((v as i16 + 0x100) % 0x100) as u8
}

impl MouseState {
    pub open spec fn spec_bytes(&self) -> Seq<u8> {
        seq![
            self.buttons, self.absolute, i16_hi(self.dx), i16_lo(self.dx), i16_hi(self.dy), i16_lo(self.dy),
            i8_byte(self.scroll_y), i8_byte(self.scroll_x), self.connected, self._pad[0], self._pad[1],
            self._pad[2], self._pad[3], self._pad[4], self._pad[5], self._pad[6],
        ]
    }

    /// The report of a GameCube mouse poll: relative movement.
    pub fn from_raw(raw: &crate::hal::si::MouseState) -> (r: Self)
        ensures
            r.buttons == raw.buttons,
            r.absolute == 0,
            r.dx == raw.dx,
            r.dy == raw.dy,
            r.scroll_y == raw.scroll_y,
            r.scroll_x == raw.scroll_x,
            r.connected == raw.connected,
            r._pad == [0u8, 0, 0, 0, 0, 0, 0],
    {
        MouseState {
            buttons: raw.buttons,
            absolute: 0,
            dx: raw.dx,
            dy: raw.dy,
            scroll_y: raw.scroll_y,
            scroll_x: raw.scroll_x,
            connected: raw.connected,
            _pad: [0u8, 0, 0, 0, 0, 0, 0],
        }
    }

    /// The report of a WiiMote used as a pointer: IR coordinates as
    /// absolute position (-1 when off screen), the low four WiiMote buttons.
    pub fn from_wiimote(w: &crate::hal::si::WiimoteState) -> (r: Self)
        ensures
            r.buttons == (w.wii_buttons % 0x100) as u8 & 0x0F,
            r.absolute == 1,
            r.dx == (if w.ir_x == 0xFFFF { -1 } else { as_i16(w.ir_x as int) }),
            r.dy == (if w.ir_y == 0xFFFF { -1 } else { as_i16(w.ir_y as int) }),
            r.scroll_y == 0,
            r.scroll_x == 0,
            r.connected == w.connected,
            r._pad == [0u8, 0, 0, 0, 0, 0, 0],
    {
        MouseState {
            buttons: (w.wii_buttons % 0x100) as u8 & 0x0F,
            absolute: 1,
            dx: if w.ir_x == 0xFFFF { -1i16 } else { to_i16(w.ir_x) },
            dy: if w.ir_y == 0xFFFF { -1i16 } else { to_i16(w.ir_y) },
            scroll_y: 0,
            scroll_x: 0,
            connected: w.connected,
            _pad: [0u8, 0, 0, 0, 0, 0, 0],
        }
    }

    pub fn to_bytes(&self) -> (r: [u8; 16])
        ensures
            r@ == self.spec_bytes(),
    {
        let (xh, xl) = i16_bytes(self.dx);
        let (yh, yl) = i16_bytes(self.dy);
        let r = [
            self.buttons, self.absolute, xh, xl, yh, yl, i8_to_byte(self.scroll_y), i8_to_byte(self.scroll_x),
            self.connected, self._pad[0], self._pad[1], self._pad[2], self._pad[3], self._pad[4], self._pad[5],
            self._pad[6],
        ];
        assert(r@ =~= self.spec_bytes());
        r
    }
}

fn to_i16(v: u16) -> (r: i16)
    ensures
        r == as_i16(v as int),
{
    if v >= 0x8000 { (v as i32 - 0x1_0000) as i16 } else { v as i16 }
}

/// Where the device reports put each field, as a reader of
/// `/dev/hid/pN/*` sees them: multi-byte fields big-endian (signed ones in
/// two's complement). A controller report: buttons at 0..2, main stick 2
/// and 3, C stick 4 and 5, triggers 6 and 7, connected 8, extra buttons 9.
/// A keyboard report: modifiers 0, six key codes 2..8, connected 8. A
/// mouse report: buttons 0, absolute flag 1, X motion 2..4, Y motion 4..6,
/// vertical and horizontal scroll 6 and 7, connected 8. A WiiMote report:
/// the controller fields in 0..10, WiiMote buttons 10..12, IR pointer X and
/// Y 12..16, accelerometer X, Y, Z at 16, 17, 18, connected 19.
pub proof fn report_layout_law(c: ControllerState, k: KbdState, m: MouseState, w: WiimoteState)
    ensures
        ({
            let b = c.spec_bytes();
            &&& b.len() == 16
            &&& b[0] * 0x100 + b[1] == c.buttons
            &&& b[2] == c.stick_x && b[3] == c.stick_y && b[4] == c.cstick_x && b[5] == c.cstick_y
            &&& b[6] == c.trigger_l && b[7] == c.trigger_r && b[8] == c.connected && b[9] == c.ext_buttons
        }),
        ({
            let b = k.spec_bytes();
            &&& b.len() == 16
            &&& b[0] == k.modifiers && b[8] == k.connected
            &&& forall|i: int| 0 <= i < 6 ==> #[trigger] b[2 + i] == k.keys@[i]
        }),
        ({
            let b = m.spec_bytes();
            &&& b.len() == 16
            &&& b[0] == m.buttons && b[1] == m.absolute && b[8] == m.connected
            &&& b[2] * 0x100 + b[3] == (m.dx + 0x1_0000) % 0x1_0000
            &&& b[4] * 0x100 + b[5] == (m.dy + 0x1_0000) % 0x1_0000
            &&& b[6] == (m.scroll_y + 0x100) % 0x100
            &&& b[7] == (m.scroll_x + 0x100) % 0x100
        }),
        ({
            let b = w.spec_bytes();
            &&& b.len() == 24
            &&& b[0] * 0x100 + b[1] == w.buttons
            &&& b[2] == w.stick_x && b[3] == w.stick_y && b[4] == w.cstick_x && b[5] == w.cstick_y
            &&& b[6] == w.trigger_l && b[7] == w.trigger_r && b[8] == w.ext_buttons && b[9] == w.extension
            &&& b[10] * 0x100 + b[11] == w.wii_buttons
            &&& b[12] * 0x100 + b[13] == w.ir_x
            &&& b[14] * 0x100 + b[15] == w.ir_y
            &&& b[16] == w.accel_x && b[17] == w.accel_y && b[18] == w.accel_z && b[19] == w.connected
        }),
{
    let kb = k.spec_bytes();
    assert forall|i: int| 0 <= i < 6 implies #[trigger] kb[2 + i] == k.keys@[i] by {
        assert(k.keys@[i] == k.keys[i]);
    }
    let u = (m.dx + 0x1_0000) % 0x1_0000;
    vstd::arithmetic::div_mod::lemma_fundamental_div_mod(u, 0x100);
    vstd::arithmetic::div_mod::lemma_mod_mod(m.dx + 0x1_0000, 0x1_0000, 0x100);
    let u2 = (m.dy + 0x1_0000) % 0x1_0000;
    vstd::arithmetic::div_mod::lemma_fundamental_div_mod(u2, 0x100);
    vstd::arithmetic::div_mod::lemma_mod_mod(m.dy + 0x1_0000, 0x1_0000, 0x100);
}

impl WiimoteState {
    /// The 24 bytes of the record, multi-byte fields big-endian.
    pub open spec fn spec_bytes(&self) -> Seq<u8> {
        seq![
            (self.buttons / 0x100) as u8, (self.buttons % 0x100) as u8, self.stick_x, self.stick_y,
            self.cstick_x, self.cstick_y, self.trigger_l, self.trigger_r, self.ext_buttons, self.extension,
            (self.wii_buttons / 0x100) as u8, (self.wii_buttons % 0x100) as u8, (self.ir_x / 0x100) as u8,
            (self.ir_x % 0x100) as u8, (self.ir_y / 0x100) as u8, (self.ir_y % 0x100) as u8, self.accel_x,
            self.accel_y, self.accel_z, self.connected, self._pad[0], self._pad[1], self._pad[2], self._pad[3],
        ]
    }

    /// Encode the record.
    pub fn to_bytes(&self) -> (r: [u8; 24])
        ensures
            r@ == self.spec_bytes(),
    {
        let r = [
            (self.buttons / 0x100) as u8, (self.buttons % 0x100) as u8, self.stick_x, self.stick_y,
            self.cstick_x, self.cstick_y, self.trigger_l, self.trigger_r, self.ext_buttons, self.extension,
            (self.wii_buttons / 0x100) as u8, (self.wii_buttons % 0x100) as u8, (self.ir_x / 0x100) as u8,
            (self.ir_x % 0x100) as u8, (self.ir_y / 0x100) as u8, (self.ir_y % 0x100) as u8, self.accel_x,
            self.accel_y, self.accel_z, self.connected, self._pad[0], self._pad[1], self._pad[2], self._pad[3],
        ];
        assert(r@ =~= self.spec_bytes());
        r
    }

    /// The `/dev/hid/pN/wii` report of a WiiMote poll result.
    pub fn from_raw(raw: &crate::hal::si::WiimoteState) -> (r: Self)
        ensures
            r.buttons == raw.pad.buttons,
            r.stick_x == raw.pad.stick_x,
            r.stick_y == raw.pad.stick_y,
            r.cstick_x == raw.pad.cstick_x,
            r.cstick_y == raw.pad.cstick_y,
            r.trigger_l == raw.pad.trigger_l,
            r.trigger_r == raw.pad.trigger_r,
            r.ext_buttons == raw.ext_buttons,
            r.extension == raw.extension,
            r.wii_buttons == raw.wii_buttons,
            r.ir_x == raw.ir_x,
            r.ir_y == raw.ir_y,
            r.accel_x == raw.accel_x,
            r.accel_y == raw.accel_y,
            r.accel_z == raw.accel_z,
            r.connected == raw.connected,
            r._pad == [0u8, 0, 0, 0],
    {
        WiimoteState {
            buttons: raw.pad.buttons,
            stick_x: raw.pad.stick_x,
            stick_y: raw.pad.stick_y,
            cstick_x: raw.pad.cstick_x,
            cstick_y: raw.pad.cstick_y,
            trigger_l: raw.pad.trigger_l,
            trigger_r: raw.pad.trigger_r,
            ext_buttons: raw.ext_buttons,
            extension: raw.extension,
            wii_buttons: raw.wii_buttons,
            ir_x: raw.ir_x,
            ir_y: raw.ir_y,
            accel_x: raw.accel_x,
            accel_y: raw.accel_y,
            accel_z: raw.accel_z,
            connected: raw.connected,
            _pad: [0u8, 0, 0, 0],
        }
    }

    /// No WiiMote: all zero.
    pub fn zeroed() -> (r: Self)
        ensures
            r.buttons == 0 && r.wii_buttons == 0 && r.ext_buttons == 0 && r.connected == 0 && r.ir_x == 0,
    {
        WiimoteState {
            buttons: 0,
            stick_x: 0,
            stick_y: 0,
            cstick_x: 0,
            cstick_y: 0,
            trigger_l: 0,
            trigger_r: 0,
            ext_buttons: 0,
            extension: 0,
            wii_buttons: 0,
            ir_x: 0,
            ir_y: 0,
            accel_x: 0,
            accel_y: 0,
            accel_z: 0,
            connected: 0,
            _pad: [0u8, 0, 0, 0],
        }
    }
}

/// The `/dev/hid/pN/std` report of a WiiMote poll: the pad synthesised
/// from its extension.
pub fn controller_from_wiimote(w: &crate::hal::si::WiimoteState) -> (r: ControllerState)
    ensures
        r == (ControllerState {
            connected: w.connected,
            ext_buttons: w.ext_buttons,
            ..ControllerState::spec_from_pad(w.pad)
        }),
{
    let mut s = ControllerState::from_pad(&w.pad);
    s.connected = w.connected;
    s.ext_buttons = w.ext_buttons;
    s
}

/// Which poll produces the `/dev/hid/pN/std` report for a port.
#[derive(Clone, Copy, Debug, PartialEq, Eq, Structural)]
pub enum StdPoll {
    /// Poll the WiiMote and use its synthesised pad.
    Wiimote,
    /// BlueRetro extended poll.
    Extended,
    /// Nothing connected: no poll.
    Nothing,
    /// Standard pad poll.
    Standard,
}

/// Choose the poll for a port's standard-controller report.
pub fn std_poll_for(kind: crate::hal::si::DeviceKind) -> (r: StdPoll)
    ensures
        r == (match kind {
            crate::hal::si::DeviceKind::ExtendedPad { has_wiimote, .. } => if has_wiimote {
                StdPoll::Wiimote
            } else {
                StdPoll::Extended
            },
            crate::hal::si::DeviceKind::Absent => StdPoll::Nothing,
            _ => StdPoll::Standard,
        }),
{
    match kind {
        crate::hal::si::DeviceKind::ExtendedPad { has_wiimote, .. } => if has_wiimote {
            StdPoll::Wiimote
        } else {
            StdPoll::Extended
        },
        crate::hal::si::DeviceKind::Absent => StdPoll::Nothing,
        _ => StdPoll::Standard,
    }
}

/// The SI port of a port index; indices past 2 are port 4.
pub fn si_port(idx: u8) -> (r: Port)
    ensures
        r == (if idx == 0 { Port::P1 } else if idx == 1 { Port::P2 } else if idx == 2 { Port::P3 } else { Port::P4 }),
{
    match idx {
        0 => Port::P1,
        1 => Port::P2,
        2 => Port::P3,
        _ => Port::P4,
    }
}


// ─── Device tree ─────────────────────────────────────────────────────────────

/// What hardware backs a device node.
#[derive(Clone, Copy, Debug, PartialEq, Eq, Structural)]
pub enum DevKind {
    /// Unused slot.
    Empty,
    /// SD card in the SD2SP2 adapter.
    SdSp2,
    /// SD Gecko in memory-card slot A.
    SdSlotA,
    /// SD Gecko in memory-card slot B.
    SdSlotB,
    /// GameCube DVD drive.
    DvdDrive,
    /// Memory card in slot A.
    MemCardA,
    /// Memory card in slot B.
    MemCardB,
    /// Controller port 0 to 3.
    HidPort(u8),
    /// `/dev/null`
    Null,
    /// `/dev/zero`
    Zero,
}

/// Number of known device prefixes.
pub const N_PREFIXES: usize = 24;

/// The known device prefixes, longest-first where one extends another.
pub open spec fn prefix_lit(i: int) -> &'static str {
    if i == 0 { "/dev/sd/sp" }
    else if i == 1 { "/dev/sd/m1" }
    else if i == 2 { "/dev/sd/m2" }
    else if i == 3 { "/dev/dvd" }
    else if i == 4 { "/dev/mem1" }
    else if i == 5 { "/dev/mem2" }
    else if i == 6 { "/dev/hid/p1/std" }
    else if i == 7 { "/dev/hid/p1/kbd" }
    else if i == 8 { "/dev/hid/p1/mouse" }
    else if i == 9 { "/dev/hid/p1/wii" }
    else if i == 10 { "/dev/hid/p2/std" }
    else if i == 11 { "/dev/hid/p2/kbd" }
    else if i == 12 { "/dev/hid/p2/mouse" }
    else if i == 13 { "/dev/hid/p2/wii" }
    else if i == 14 { "/dev/hid/p3/std" }
    else if i == 15 { "/dev/hid/p3/kbd" }
    else if i == 16 { "/dev/hid/p3/mouse" }
    else if i == 17 { "/dev/hid/p3/wii" }
    else if i == 18 { "/dev/hid/p4/std" }
    else if i == 19 { "/dev/hid/p4/kbd" }
    else if i == 20 { "/dev/hid/p4/mouse" }
    else if i == 21 { "/dev/hid/p4/wii" }
    else if i == 22 { "/dev/null" }
    else { "/dev/zero" }
}

/// Device prefix `i` of the table.
pub fn dev_prefix(i: usize) -> (r: &'static str)
    requires
        i < N_PREFIXES,
    ensures
        r == prefix_lit(i as int),
{
    match i {
        0 => "/dev/sd/sp",
        1 => "/dev/sd/m1",
        2 => "/dev/sd/m2",
        3 => "/dev/dvd",
        4 => "/dev/mem1",
        5 => "/dev/mem2",
        6 => "/dev/hid/p1/std",
        7 => "/dev/hid/p1/kbd",
        8 => "/dev/hid/p1/mouse",
        9 => "/dev/hid/p1/wii",
        10 => "/dev/hid/p2/std",
        11 => "/dev/hid/p2/kbd",
        12 => "/dev/hid/p2/mouse",
        13 => "/dev/hid/p2/wii",
        14 => "/dev/hid/p3/std",
        15 => "/dev/hid/p3/kbd",
        16 => "/dev/hid/p3/mouse",
        17 => "/dev/hid/p3/wii",
        18 => "/dev/hid/p4/std",
        19 => "/dev/hid/p4/kbd",
        20 => "/dev/hid/p4/mouse",
        21 => "/dev/hid/p4/wii",
        22 => "/dev/null",
        _ => "/dev/zero",
    }
}

pub open spec fn pbytes(i: int) -> Seq<u8> {
    prefix_lit(i).spec_bytes()
}

/// `b` starts with `p`.
pub open spec fn starts_with(b: Seq<u8>, p: Seq<u8>) -> bool {
    p.len() <= b.len() && b.subrange(0, p.len() as int) == p
}

/// The part of `path` below prefix `i`: empty when `path` is the prefix,
/// what follows `prefix/` when it lies beneath it.
pub open spec fn below_prefix(path: Seq<u8>, i: int) -> Option<Seq<u8>> {
    let p = pbytes(i);
    if path == p {
        Some(Seq::empty())
    } else if starts_with(path, p.push(0x2F)) {
        Some(path.subrange(p.len() as int + 1, path.len() as int))
    } else {
        None
    }
}

/// The first prefix from `i` on that `path` is or lies beneath.
pub open spec fn first_prefix(path: Seq<u8>, i: int) -> Option<(int, Seq<u8>)>
    decreases N_PREFIXES - i,
{
    if i < 0 || i >= N_PREFIXES {
        None
    } else {
        match below_prefix(path, i) {
            Some(rest) => Some((i, rest)),
            None => first_prefix(path, i + 1),
        }
    }
}

/// `"/dev/"`
pub open spec fn dev_root() -> Seq<u8> {
    seq![0x2Fu8, 0x64, 0x65, 0x76, 0x2F]
}

/// Split a device path into its device prefix and the path below it;
/// `None` when it does not start with `/dev/`. A path under no known
/// prefix is all prefix.
pub open spec fn spec_split_dev(path: Seq<u8>) -> Option<(Seq<u8>, Seq<u8>)> {
    if !starts_with(path, dev_root()) {
        None
    } else {
        match first_prefix(path, 0) {
            Some((i, rest)) => Some((pbytes(i), rest)),
            None => Some((path, Seq::empty())),
        }
    }
}

/// Whether `b` starts with `p`.
fn bytes_start_with(b: &[u8], p: &[u8]) -> (r: bool)
    ensures
        r == starts_with(b@, p@),
{
    if p.len() > b.len() {
        return false;
    }
    let mut i: usize = 0;
    while i < p.len()
        invariant
            p@.len() <= b@.len(),
            i <= p@.len(),
            forall|k: int| 0 <= k < i ==> b@[k] == p@[k],
        decreases p@.len() - i,
    {
        if b[i] != p[i] {
            return false;
        }
        i = i + 1;
    }
    assert(b@.subrange(0, p@.len() as int) =~= p@);
    true
}

/// Whether `b` starts with prefix `p` followed by `/`.
fn starts_with_dir(b: &[u8], p: &[u8]) -> (r: bool)
    ensures
        r == starts_with(b@, p@.push(0x2F)),
{
    let pl = p.len();
    let bl = b.len();
    if pl >= bl {
        let ghost q = p@.push(0x2F);
        assert(q.len() == p@.len() + 1);
        assert(q.len() > b@.len());
        assert(!starts_with(b@, q));
        return false;
    }
    let head = bytes_start_with(b, p);
    if !head {
        proof {
            if starts_with(b@, p@.push(0x2F)) {
                let q = p@.push(0x2F);
                assert(q.subrange(0, p@.len() as int) =~= p@);
                assert(b@.subrange(0, p@.len() as int) =~= b@.subrange(0, q.len() as int).subrange(0, p@.len() as int));
                assert(starts_with(b@, p@));
            }
        }
        return false;
    }
    let r = b[p.len()] == 0x2F;
    proof {
        if r {
            assert(b@.subrange(0, p@.len() as int + 1) =~= p@.push(0x2F));
        } else if starts_with(b@, p@.push(0x2F)) {
            assert(b@.subrange(0, p@.len() as int + 1)[p@.len() as int] == 0x2F);
        }
    }
    r
}

/// Split `/dev/sd/sp/a/b` into `("/dev/sd/sp", "a/b")`.
pub fn split_dev_path(path: &str) -> (r: Option<(&str, &str)>)
    ensures
        match spec_split_dev(path.spec_bytes()) {
            None => r is None,
            Some((a, b)) => r matches Some((x, y)) && x.spec_bytes() == a && y.spec_bytes() == b,
        },
{
    let pb = str_bytes(path);
    proof {
        reveal_strlit("/dev/");
        vstd::string::is_ascii_spec_bytes("/dev/");
    }
    let root = str_bytes("/dev/");
    assert(root@ =~= dev_root());
    if !bytes_start_with(pb, root) {
        return None;
    }
    let mut i: usize = 0;
    while i < N_PREFIXES
        invariant
            i <= N_PREFIXES,
            pb@ == path.spec_bytes(),
            starts_with(pb@, dev_root()),
            first_prefix(pb@, 0) == first_prefix(pb@, i as int),
        decreases N_PREFIXES - i,
    {
        let pfx = dev_prefix(i);
        let fb = str_bytes(pfx);
        if bytes_eq(pb, fb) {
            proof {
                reveal_strlit("");
            }
            return Some((pfx, ""));
        }
        if starts_with_dir(pb, fb) {
            assert(pb@[fb@.len() as int] == 0x2F) by {
                assert(pb@.subrange(0, fb@.len() as int + 1)[fb@.len() as int] == fb@.push(0x2F)[fb@.len() as int]);
            }
            let (_, rest0) = split_str(path, fb.len());
            assert(rest0.spec_bytes()[0] == 0x2F);
            let (_, rest) = split_str(rest0, 1);
            assert(rest.spec_bytes() =~= pb@.subrange(fb@.len() as int + 1, pb@.len() as int));
            return Some((pfx, rest));
        }
        i = i + 1;
    }
    proof {
        reveal_strlit("");
    }
    Some((path, ""))
}


/// The first prefix from `i` on whose bytes are `s`.
pub open spec fn prefix_index_from(s: Seq<u8>, i: int) -> Option<int>
    decreases N_PREFIXES - i,
{
    if i < 0 || i >= N_PREFIXES {
        None
    } else if pbytes(i) == s {
        Some(i)
    } else {
        prefix_index_from(s, i + 1)
    }
}

proof fn lemma_prefix_index_range(s: Seq<u8>, i: int)
    requires
        0 <= i,
    ensures
        prefix_index_from(s, i) matches Some(j) ==> i <= j < N_PREFIXES,
    decreases N_PREFIXES - i,
{
    if i < N_PREFIXES && pbytes(i) != s {
        lemma_prefix_index_range(s, i + 1);
    }
}

/// The node kind of table prefix `i`.
pub open spec fn kind_of_index(i: int) -> DevKind {
    if i == 0 { DevKind::SdSp2 }
    else if i == 1 { DevKind::SdSlotA }
    else if i == 2 { DevKind::SdSlotB }
    else if i == 3 { DevKind::DvdDrive }
    else if i == 4 { DevKind::MemCardA }
    else if i == 5 { DevKind::MemCardB }
    else if 6 <= i < 22 { DevKind::HidPort(((i - 6) / 4) as u8) }
    else if i == 22 { DevKind::Null }
    else { DevKind::Zero }
}

/// Index of the table prefix spelled `s`.
fn prefix_index(s: &str) -> (r: Option<usize>)
    ensures
        r == (match prefix_index_from(s.spec_bytes(), 0) {
            Some(i) => Some(i as usize),
            None => None::<usize>,
        }),
{
    let sb = str_bytes(s);
    proof {
        lemma_prefix_index_range(sb@, 0);
    }
    let mut i: usize = 0;
    while i < N_PREFIXES
        invariant
            i <= N_PREFIXES,
            sb@ == s.spec_bytes(),
            prefix_index_from(sb@, 0) matches Some(j) ==> 0 <= j < N_PREFIXES,
            prefix_index_from(sb@, 0) == prefix_index_from(sb@, i as int),
        decreases N_PREFIXES - i,
    {
        if bytes_eq(str_bytes(dev_prefix(i)), sb) {
            return Some(i);
        }
        i = i + 1;
    }
    None
}

/// The node kind of a device prefix; `Empty` for an unknown one.
pub fn dev_kind_for(dev_prefix: &str) -> (r: DevKind)
    ensures
        r == (match prefix_index_from(dev_prefix.spec_bytes(), 0) {
            Some(i) => kind_of_index(i),
            None => DevKind::Empty,
        }),
{
    proof {
        lemma_prefix_index_range(dev_prefix.spec_bytes(), 0);
    }
    match prefix_index(dev_prefix) {
        Some(i) => {
            if i == 0 {
                DevKind::SdSp2
            } else if i == 1 {
                DevKind::SdSlotA
            } else if i == 2 {
                DevKind::SdSlotB
            } else if i == 3 {
                DevKind::DvdDrive
            } else if i == 4 {
                DevKind::MemCardA
            } else if i == 5 {
                DevKind::MemCardB
            } else if i < 22 {
                DevKind::HidPort(((i - 6) / 4) as u8)
            } else if i == 22 {
                DevKind::Null
            } else {
                DevKind::Zero
            }
        },
        None => DevKind::Empty,
    }
}

/// The report a HID prefix of the table reads: `std`, `kbd`, `mouse` and
/// `wii` in turn for each port.
pub open spec fn slot_of_index(i: int) -> HidSlot {
    let k = (i - 6) % 4;
    if k == 0 {
        HidSlot::Std
    } else if k == 1 {
        HidSlot::Kbd
    } else if k == 2 {
        HidSlot::Mouse
    } else {
        HidSlot::Wii
    }
}

/// The report slot of a HID device prefix.
pub fn hid_slot_for(dev_prefix: &str) -> (r: Option<HidSlot>)
    ensures
        r == (match prefix_index_from(dev_prefix.spec_bytes(), 0) {
            Some(i) => if 6 <= i < 22 { Some(slot_of_index(i)) } else { None::<HidSlot> },
            None => None::<HidSlot>,
        }),
{
    proof {
        lemma_prefix_index_range(dev_prefix.spec_bytes(), 0);
    }
    match prefix_index(dev_prefix) {
        Some(i) => if 6 <= i && i < 22 {
            let k = (i - 6) % 4;
            Some(if k == 0 {
                HidSlot::Std
            } else if k == 1 {
                HidSlot::Kbd
            } else if k == 2 {
                HidSlot::Mouse
            } else {
                HidSlot::Wii
            })
        } else {
            None
        },
        None => None,
    }
}

/// The controller port of a HID device prefix.
pub fn port_for(dev_prefix: &str) -> (r: Option<u8>)
    ensures
        r == (match prefix_index_from(dev_prefix.spec_bytes(), 0) {
            Some(i) => if 6 <= i < 22 { Some(((i - 6) / 4) as u8) } else { None::<u8> },
            None => None::<u8>,
        }),
{
    proof {
        lemma_prefix_index_range(dev_prefix.spec_bytes(), 0);
    }
    match prefix_index(dev_prefix) {
        Some(i) => if 6 <= i && i < 22 { Some(((i - 6) / 4) as u8) } else { None },
        None => None,
    }
}

/// One node of the `/dev/` tree.
#[derive(Clone, Copy)]
pub struct DevNode {
    /// NUL-terminated path.
    pub path: [u8; 20],
    pub kind: DevKind,
    /// Hardware is present.
    pub present: bool,
}

/// The path stored NUL-terminated in `p`: up to the first NUL.
pub open spec fn node_path(p: Seq<u8>) -> Seq<u8> {
    match first_index(p, 0) {
        Some(i) => p.subrange(0, i),
        None => p,
    }
}

impl DevNode {
    /// An unused node.
    pub fn empty() -> (r: Self)
        ensures
            r.path@ == Seq::new(20, |i: int| 0u8),
            r.kind == DevKind::Empty,
            !r.present,
    {
        let r = DevNode { path: [0u8; 20], kind: DevKind::Empty, present: false };
        assert(r.path@ =~= Seq::new(20, |i: int| 0u8));
        r
    }

    /// The node's path is `query` (at most 19 bytes of it compared).
    pub fn path_matches(&self, query: &str) -> (r: bool)
        ensures
            ({
                let q = query.spec_bytes();
                let n = if q.len() < 19 { q.len() as int } else { 19 };
                r == (self.path@.subrange(0, n) == q.subrange(0, n) && self.path@[n] == 0)
            }),
    {
        let q = str_bytes(query);
        let n = if q.len() < 19 { q.len() } else { 19 };
        assert(q@ == query.spec_bytes());
        assert(n as int == (if q@.len() < 19 { q@.len() as int } else { 19 }));
        let mut i: usize = 0;
        while i < n
            invariant
                n <= 19,
                n <= q@.len(),
                i <= n,
                q@ == query.spec_bytes(),
                n as int == (if q@.len() < 19 { q@.len() as int } else { 19 }),
                forall|k: int| 0 <= k < i ==> self.path@[k] == q@[k],
            decreases n - i,
        {
            if self.path[i] != q[i] {
                assert(self.path@.subrange(0, n as int)[i as int] != q@.subrange(0, n as int)[i as int]);
                assert(self.path@.subrange(0, n as int) != q@.subrange(0, n as int));
                return false;
            }
            i = i + 1;
        }
        assert(self.path@.subrange(0, n as int) =~= q@.subrange(0, n as int));
        self.path[n] == 0
    }

    /// The node's path, or `""` when it is not UTF-8.
    pub fn path_str(&self) -> (r: &str)
        ensures
            vstd::utf8::valid_utf8(node_path(self.path@)) ==> r.spec_bytes() == node_path(self.path@),
            !vstd::utf8::valid_utf8(node_path(self.path@)) ==> r@ == ""@,
    {
        let all = self.path.as_slice();
        let end = find_from(all, 0, 0);
        proof {
            lemma_first_index_unique(self.path@, 0, end as int);
        }
        let (head, _) = all.split_at(end);
        assert(head@ == node_path(self.path@));
        match utf8_str(head) {
            Some(s) => {
                proof {
                    vstd::utf8::encode_utf8_valid_utf8(s@);
                }
                s
            },
            None => "",
        }
    }

    /// The node with its path set to `s` (at most 19 bytes) and a NUL.
    pub fn set_path(self, s: &str) -> (r: Self)
        ensures
            ({
                let b = s.spec_bytes();
                let n = if b.len() < 19 { b.len() as int } else { 19 };
                &&& r.path@ == b.subrange(0, n) + seq![0u8] + self.path@.subrange(n + 1, 20)
                &&& r.kind == self.kind
                &&& r.present == self.present
            }),
    {
        let mut node = self;
        let b = str_bytes(s);
        let n = if b.len() < 19 { b.len() } else { 19 };
        let mut i: usize = 0;
        while i < n
            invariant
                n <= 19,
                n <= b@.len(),
                i <= n,
                node.kind == self.kind,
                node.present == self.present,
                forall|k: int| 0 <= k < i ==> node.path@[k] == b@[k],
                forall|k: int| i <= k < 20 ==> node.path@[k] == self.path@[k],
            decreases n - i,
        {
            node.path[i] = b[i];
            i = i + 1;
        }
        node.path[n] = 0;
        assert(node.path@ =~= b@.subrange(0, n as int) + seq![0u8] + self.path@.subrange(n + 1, 20));
        node
    }
}


// ─── Open files ──────────────────────────────────────────────────────────────

/// What a file descriptor refers to.
#[derive(Clone, Copy, Debug, PartialEq, Eq, Structural)]
pub enum VfsFile {
    /// Free descriptor.
    Empty,
    /// Standard controller report of a port.
    Controller { port: u8 },
    /// Keyboard report of a port.
    Keyboard { port: u8 },
    /// Mouse report of a port.
    Mouse { port: u8 },
    /// WiiMote report of a port.
    Wiimote { port: u8 },
    /// `/dev/null`: reads give nothing, writes are accepted.
    Null,
    /// `/dev/zero`: reads give zero bytes.
    Zero { pos: u64 },
    /// A file on mounted volume `vol_idx`.
    Volume { vol_idx: usize, size: u64, pos: u64 },
}

impl VfsFile {
    pub fn is_empty(&self) -> (r: bool)
        ensures
            r == (*self is Empty),
    {
        matches!(self, VfsFile::Empty)
    }

    /// Size in bytes: unbounded for `/dev/zero`, 0 for devices.
    pub fn size(&self) -> (r: u64)
        ensures
            r == (match *self {
                VfsFile::Zero { .. } => u64::MAX,
                VfsFile::Volume { size, .. } => size,
                _ => 0,
            }),
    {
        match self {
            VfsFile::Zero { .. } => u64::MAX,
            VfsFile::Volume { size, .. } => *size,
            _ => 0,
        }
    }

    /// Current position: 0 for devices.
    pub fn pos(&self) -> (r: u64)
        ensures
            r == (match *self {
                VfsFile::Zero { pos } => pos,
                VfsFile::Volume { pos, .. } => pos,
                _ => 0,
            }),
    {
        match self {
            VfsFile::Zero { pos } => *pos,
            VfsFile::Volume { pos, .. } => *pos,
            _ => 0,
        }
    }

    /// The volume a file lives on.
    pub fn vol_idx(&self) -> (r: Option<usize>)
        ensures
            r == (match *self {
                VfsFile::Volume { vol_idx, .. } => Some(vol_idx),
                _ => None::<usize>,
            }),
    {
        match self {
            VfsFile::Volume { vol_idx, .. } => Some(*vol_idx),
            _ => None,
        }
    }
}

/// Seek `file` to byte `target`; returns the new position. Devices stay
/// at 0; a volume file refuses a target past its end.
pub fn do_seek(file: &mut VfsFile, target: u64) -> (r: Result<u64>)
    ensures
        match *old(file) {
            VfsFile::Empty => r == Err::<u64, Error>(Error::InvalidFd) && *final(file) == *old(file),
            VfsFile::Null => r == Ok::<u64, Error>(0) && *final(file) == *old(file),
            VfsFile::Controller { .. } => r == Ok::<u64, Error>(0) && *final(file) == *old(file),
            VfsFile::Zero { .. } => r == Ok::<u64, Error>(target) && *final(file) == (VfsFile::Zero { pos: target }),
            VfsFile::Volume { vol_idx, size, .. } => if target > size {
                r == Err::<u64, Error>(Error::InvalidArg) && *final(file) == *old(file)
            } else {
                r == Ok::<u64, Error>(target) && *final(file) == (VfsFile::Volume { vol_idx, size, pos: target })
            },
            _ => r == Err::<u64, Error>(Error::Unsupported) && *final(file) == *old(file),
        },
{
    match file {
        VfsFile::Empty => Err(Error::InvalidFd),
        VfsFile::Null => Ok(0),
        VfsFile::Controller { .. } => Ok(0),
        VfsFile::Zero { pos } => {
            *pos = target;
            Ok(target)
        },
        VfsFile::Volume { size, pos, .. } => {
            if target > *size {
                return Err(Error::InvalidArg);
            }
            *pos = target;
            Ok(target)
        },
        _ => Err(Error::Unsupported),
    }
}

/// Read from `/dev/null` or `/dev/zero`: nothing, or `buf` filled with
/// zeros and the position advanced (modulo 2^64).
pub fn read_null_zero(file: &mut VfsFile, buf: &mut [u8]) -> (r: Result<usize>)
    requires
        *old(file) is Null || *old(file) is Zero,
    ensures
        final(buf)@.len() == old(buf)@.len(),
        *old(file) is Null ==> r == Ok::<usize, Error>(0) && final(buf)@ == old(buf)@ && *final(file) == *old(file),
        *old(file) matches VfsFile::Zero { pos } ==> {
            &&& r == Ok::<usize, Error>(old(buf)@.len() as usize)
            &&& final(buf)@ == Seq::new(old(buf)@.len(), |i: int| 0u8)
            &&& *final(file) == (VfsFile::Zero { pos: ((pos + old(buf)@.len()) % 0x1_0000_0000_0000_0000) as u64 })
        },
{
    match file {
        VfsFile::Zero { pos } => {
            let n = buf.len();
            let mut i: usize = 0;
            while i < n
                invariant
                    n == buf@.len(),
                    i <= n,
                    forall|k: int| 0 <= k < i ==> buf@[k] == 0,
                decreases n - i,
            {
                buf[i] = 0;
                i = i + 1;
            }
            assert(buf@ =~= Seq::new(n as nat, |i: int| 0u8));
            *pos = ((*pos as u128 + n as u128) % 0x1_0000_0000_0000_0000) as u64;
            Ok(n)
        },
        _ => Ok(0),
    }
}

/// The file descriptor table.
pub struct FdTable {
    files: Vec<VfsFile>,
}

impl View for FdTable {
    type V = Seq<VfsFile>;

    closed spec fn view(&self) -> Seq<VfsFile> {
        self.files@
    }
}

/// The first free descriptor from `i` on.
pub open spec fn first_free(fs: Seq<VfsFile>, i: int) -> Option<int>
    decreases fs.len() - i,
{
    if i < 0 || i >= fs.len() {
        None
    } else if fs[i] is Empty {
        Some(i)
    } else {
        first_free(fs, i + 1)
    }
}

proof fn lemma_first_free(fs: Seq<VfsFile>, i: int)
    requires
        0 <= i,
    ensures
        first_free(fs, i) matches Some(j) ==> i <= j < fs.len() && fs[j] is Empty && forall|k: int| i <= k < j ==> !(
            #[trigger] fs[k] is Empty),
        first_free(fs, i) is None ==> forall|k: int| i <= k < fs.len() ==> !(#[trigger] fs[k] is Empty),
    decreases fs.len() - i,
{
    if i < fs.len() && !(fs[i] is Empty) {
        lemma_first_free(fs, i + 1);
    }
}

impl FdTable {
    pub closed spec fn wf(&self) -> bool {
        self.files@.len() == MAX_FD
    }

    /// A table of free descriptors.
    pub fn new() -> (r: Self)
        ensures
            r.wf(),
            r@ == Seq::new(MAX_FD as nat, |i: int| VfsFile::Empty),
    {
        let mut files: Vec<VfsFile> = Vec::new();
        let mut i: usize = 0;
        while i < MAX_FD
            invariant
                i <= MAX_FD,
                files@ == Seq::new(i as nat, |k: int| VfsFile::Empty),
            decreases MAX_FD - i,
        {
            files.push(VfsFile::Empty);
            i = i + 1;
            assert(files@ =~= Seq::new(i as nat, |k: int| VfsFile::Empty));
        }
        FdTable { files }
    }

    /// The lowest free descriptor, if any.
    pub fn alloc_fd(&self) -> (r: Option<Fd>)
        requires
            self.wf(),
        ensures
            r == (match first_free(self@, 0) {
                Some(i) => Some(i as Fd),
                None => None::<Fd>,
            }),
            r matches Some(fd) ==> (fd as usize) < MAX_FD && self@[fd as int] is Empty && first_free(self@, 0) == Some(
                fd as int,
            ),
    {
        proof {
            lemma_first_free(self@, 0);
        }
        let mut i: usize = 0;
        while i < MAX_FD
            invariant
                i <= MAX_FD,
                self.wf(),
                first_free(self@, 0) == first_free(self@, i as int),
            decreases MAX_FD - i,
        {
            if self.files[i].is_empty() {
                return Some(i as Fd);
            }
            i = i + 1;
        }
        None
    }

    /// Put `f` at descriptor `fd`.
    pub fn install(&mut self, fd: Fd, f: VfsFile)
        requires
            old(self).wf(),
            (fd as usize) < MAX_FD,
        ensures
            final(self).wf(),
            final(self)@ == old(self)@.update(fd as int, f),
    {
        self.files.set(fd as usize, f);
    }

    /// The file open at `fd`; `InvalidFd` for a free or out-of-range one.
    pub fn check_fd(&self, fd: Fd) -> (r: Result<VfsFile>)
        requires
            self.wf(),
        ensures
            r == (if (fd as usize) < MAX_FD && !(self@[fd as int] is Empty) {
                Ok::<VfsFile, Error>(self@[fd as int])
            } else {
                Err::<VfsFile, Error>(Error::InvalidFd)
            }),
    {
        let idx = fd as usize;
        if idx >= MAX_FD || self.files[idx].is_empty() {
            return Err(Error::InvalidFd);
        }
        Ok(self.files[idx])
    }

    /// Free `fd`; returns the volume whose open count the file held.
    pub fn release_fd(&mut self, fd: Fd) -> (r: Option<usize>)
        requires
            old(self).wf(),
        ensures
            final(self).wf(),
            (fd as usize) >= MAX_FD ==> r is None && final(self)@ == old(self)@,
            (fd as usize) < MAX_FD ==> final(self)@ == old(self)@.update(fd as int, VfsFile::Empty) && r == (match old(
                self,
            )@[fd as int] {
                VfsFile::Volume { vol_idx, .. } => Some(vol_idx),
                _ => None::<usize>,
            }),
    {
        let idx = fd as usize;
        if idx >= MAX_FD {
            return None;
        }
        let v = self.files[idx].vol_idx();
        self.files.set(idx, VfsFile::Empty);
        v
    }
}

/// One mounted-volume slot.
#[derive(Clone, Copy)]
pub struct VolumeSlot {
    /// NUL-terminated device prefix.
    pub prefix: [u8; 20],
    pub open_count: u8,
    pub opts: MountOptions,
    /// A filesystem is mounted in the slot.
    pub mounted: bool,
    /// The filesystem last mounted in the slot.
    pub fs: VolFs,
}

/// The filesystem of a volume.
#[derive(Clone, Copy, Debug, PartialEq, Eq, Structural)]
pub enum VolFs {
    /// Never mounted.
    Unset,
    Fat,
    Ext2,
    Iso9660,
    /// GameCube disc file table.
    GcDvd,
    MemCard,
}

/// The volume table.
pub struct VolumeTable {
    slots: Vec<VolumeSlot>,
}

impl View for VolumeTable {
    type V = Seq<VolumeSlot>;

    closed spec fn view(&self) -> Seq<VolumeSlot> {
        self.slots@
    }
}

/// Slot `s` holds a volume mounted on `prefix`.
pub open spec fn slot_is(s: VolumeSlot, prefix: Seq<u8>) -> bool {
    s.mounted && node_path(s.prefix@) == prefix
}

/// The first slot from `i` on holding a volume mounted on `prefix`.
pub open spec fn first_mounted(v: Seq<VolumeSlot>, prefix: Seq<u8>, i: int) -> Option<int>
    decreases v.len() - i,
{
    if i < 0 || i >= v.len() {
        None
    } else if slot_is(v[i], prefix) {
        Some(i)
    } else {
        first_mounted(v, prefix, i + 1)
    }
}

/// The first unmounted slot from `i` on.
pub open spec fn first_unmounted(v: Seq<VolumeSlot>, i: int) -> Option<int>
    decreases v.len() - i,
{
    if i < 0 || i >= v.len() {
        None
    } else if !v[i].mounted {
        Some(i)
    } else {
        first_unmounted(v, i + 1)
    }
}

proof fn lemma_first_mounted_range(v: Seq<VolumeSlot>, prefix: Seq<u8>, i: int)
    requires
        0 <= i,
    ensures
        first_mounted(v, prefix, i) matches Some(j) ==> i <= j < v.len() && slot_is(v[j], prefix),
    decreases v.len() - i,
{
    if i < v.len() && !slot_is(v[i], prefix) {
        lemma_first_mounted_range(v, prefix, i + 1);
    }
}

proof fn lemma_first_unmounted_range(v: Seq<VolumeSlot>, i: int)
    requires
        0 <= i,
    ensures
        first_unmounted(v, i) matches Some(j) ==> i <= j < v.len() && !v[j].mounted,
    decreases v.len() - i,
{
    if i < v.len() && v[i].mounted {
        lemma_first_unmounted_range(v, i + 1);
    }
}

/// Whether the NUL-terminated `stored` names the path `prefix`.
fn stored_is_bytes(stored: &[u8; 20], prefix: &[u8]) -> (r: bool)
    ensures
        r == (node_path(stored@) == prefix@),
{
    let all = stored.as_slice();
    let end = find_from(all, 0, 0);
    proof {
        lemma_first_index_unique(stored@, 0, end as int);
    }
    let (head, _) = all.split_at(end);
    assert(head@ == node_path(stored@));
    bytes_eq(head, prefix)
}

impl VolumeTable {
    pub closed spec fn wf(&self) -> bool {
        self.slots@.len() == MAX_VOLUMES
    }

    /// A table with nothing mounted.
    pub fn new() -> (r: Self)
        ensures
            r.wf(),
            forall|i: int| 0 <= i < MAX_VOLUMES ==> !(#[trigger] r@[i]).mounted && r@[i].open_count == 0,
    {
        let mut slots: Vec<VolumeSlot> = Vec::new();
        let mut i: usize = 0;
        while i < MAX_VOLUMES
            invariant
                i <= MAX_VOLUMES,
                slots@.len() == i,
                forall|k: int| 0 <= k < i ==> !(#[trigger] slots@[k]).mounted && slots@[k].open_count == 0,
            decreases MAX_VOLUMES - i,
        {
            slots.push(
                VolumeSlot { prefix: [0u8; 20], open_count: 0, opts: MountOptions::default_opts(), mounted: false, fs: VolFs::Unset },
            );
            i = i + 1;
        }
        VolumeTable { slots }
    }

    /// Slot `i`.
    pub fn slot(&self, i: usize) -> (r: VolumeSlot)
        requires
            self.wf(),
            i < MAX_VOLUMES,
        ensures
            r == self@[i as int],
    {
        self.slots[i]
    }

    /// The slot holding the volume mounted on `prefix`.
    pub fn find_mounted(&self, prefix: &str) -> (r: Option<usize>)
        requires
            self.wf(),
        ensures
            r == (match first_mounted(self@, prefix.spec_bytes(), 0) {
                Some(i) => Some(i as usize),
                None => None::<usize>,
            }),
    {
        self.find_mounted_bytes(str_bytes(prefix))
    }

    /// The slot holding the volume mounted on the path `prefix`.
    pub fn find_mounted_bytes(&self, prefix: &[u8]) -> (r: Option<usize>)
        requires
            self.wf(),
        ensures
            r == (match first_mounted(self@, prefix@, 0) {
                Some(i) => Some(i as usize),
                None => None::<usize>,
            }),
    {
        proof {
            lemma_first_mounted_range(self@, prefix@, 0);
        }
        let mut i: usize = 0;
        while i < MAX_VOLUMES
            invariant
                i <= MAX_VOLUMES,
                self.wf(),
                first_mounted(self@, prefix@, 0) == first_mounted(self@, prefix@, i as int),
            decreases MAX_VOLUMES - i,
        {
            let s = self.slots[i];
            if s.mounted && stored_is_bytes(&s.prefix, prefix) {
                return Some(i);
            }
            i = i + 1;
        }
        None
    }

    /// A free slot for a new mount.
    pub fn alloc_volume_slot(&self) -> (r: Option<usize>)
        requires
            self.wf(),
        ensures
            r == (match first_unmounted(self@, 0) {
                Some(i) => Some(i as usize),
                None => None::<usize>,
            }),
    {
        proof {
            lemma_first_unmounted_range(self@, 0);
        }
        let mut i: usize = 0;
        while i < MAX_VOLUMES
            invariant
                i <= MAX_VOLUMES,
                self.wf(),
                first_unmounted(self@, 0) == first_unmounted(self@, i as int),
            decreases MAX_VOLUMES - i,
        {
            if !self.slots[i].mounted {
                return Some(i);
            }
            i = i + 1;
        }
        None
    }

    /// Record a volume of filesystem `fs` mounted on `prefix` (its first
    /// 19 bytes) in slot `i`, with no open files.
    pub fn set_mounted(&mut self, i: usize, prefix: &str, opts: MountOptions, fs: VolFs)
        requires
            old(self).wf(),
            i < MAX_VOLUMES,
        ensures
            final(self).wf(),
            forall|k: int| 0 <= k < MAX_VOLUMES && k != i ==> final(self)@[k] == old(self)@[k],
            final(self)@[i as int].mounted,
            final(self)@[i as int].open_count == 0,
            final(self)@[i as int].opts == opts,
            final(self)@[i as int].fs == fs,
            ({
                let b = prefix.spec_bytes();
                let n = if b.len() < 19 { b.len() as int } else { 19 };
                final(self)@[i as int].prefix@ == b.subrange(0, n) + seq![0u8] + Seq::new((19 - n) as nat, |k: int| 0u8)
            }),
    {
        let empty = DevNode { path: [0u8; 20], kind: DevKind::Empty, present: false };
        assert(empty.path@ =~= Seq::new(20, |k: int| 0u8));
        let node = empty.set_path(prefix);
        proof {
            let b = prefix.spec_bytes();
            let n = if b.len() < 19 { b.len() as int } else { 19 };
            assert(empty.path@.subrange(n + 1, 20) =~= Seq::new((19 - n) as nat, |k: int| 0u8));
        }
        self.slots.set(i, VolumeSlot { prefix: node.path, open_count: 0, opts, mounted: true, fs });
    }

    /// Count one more open file on slot `i`.
    pub fn open_on(&mut self, i: usize)
        requires
            old(self).wf(),
            i < MAX_VOLUMES,
            old(self)@[i as int].open_count < 255,
        ensures
            final(self).wf(),
            final(self)@ == old(self)@.update(
                i as int,
                VolumeSlot { open_count: (old(self)@[i as int].open_count + 1) as u8, ..old(self)@[i as int] },
            ),
    {
        let mut s = self.slots[i];
        s.open_count = s.open_count + 1;
        self.slots.set(i, s);
    }

    /// A file on slot `i` was closed: one fewer open file, never below 0.
    pub fn release_on(&mut self, i: usize)
        requires
            old(self).wf(),
        ensures
            final(self).wf(),
            i >= MAX_VOLUMES ==> final(self)@ == old(self)@,
            i < MAX_VOLUMES ==> final(self)@ == old(self)@.update(
                i as int,
                VolumeSlot {
                    open_count: if old(self)@[i as int].open_count > 0 {
                        (old(self)@[i as int].open_count - 1) as u8
                    } else {
                        0
                    },
                    ..old(self)@[i as int]
                },
            ),
    {
        if i >= MAX_VOLUMES {
            return;
        }
        let mut s = self.slots[i];
        if s.open_count > 0 {
            s.open_count = s.open_count - 1;
        }
        self.slots.set(i, s);
    }

    /// The device of `prefix` was removed: every volume mounted on it with
    /// no open files is dropped; the others stay until their files close.
    pub fn mark_volume_removed(&mut self, prefix: &[u8])
        requires
            old(self).wf(),
        ensures
            final(self).wf(),
            forall|k: int| 0 <= k < MAX_VOLUMES ==> #[trigger] final(self)@[k] == (if slot_is(old(self)@[k], prefix@)
                && old(self)@[k].open_count == 0 {
                VolumeSlot { mounted: false, ..old(self)@[k] }
            } else {
                old(self)@[k]
            }),
    {
        let mut i: usize = 0;
        while i < MAX_VOLUMES
            invariant
                i <= MAX_VOLUMES,
                self.slots@.len() == MAX_VOLUMES,
                forall|k: int| 0 <= k < i ==> #[trigger] self.slots@[k] == (if slot_is(old(self)@[k], prefix@)
                    && old(self)@[k].open_count == 0 {
                    VolumeSlot { mounted: false, ..old(self)@[k] }
                } else {
                    old(self)@[k]
                }),
                forall|k: int| i <= k < MAX_VOLUMES ==> #[trigger] self.slots@[k] == old(self)@[k],
            decreases MAX_VOLUMES - i,
        {
            let mut s = self.slots[i];
            if s.mounted && stored_is_bytes(&s.prefix, prefix) && s.open_count == 0 {
                s.mounted = false;
                self.slots.set(i, s);
            }
            i = i + 1;
        }
    }

    /// Unmount the volume on `prefix`; refused while it has open files.
    /// Nothing mounted there is no error.
    pub fn unmount(&mut self, prefix: &str) -> (r: Result<()>)
        requires
            old(self).wf(),
        ensures
            final(self).wf(),
            match first_mounted(old(self)@, prefix.spec_bytes(), 0) {
                None => r == Ok::<(), Error>(()) && final(self)@ == old(self)@,
                Some(i) => if old(self)@[i].open_count > 0 {
                    r == Err::<(), Error>(Error::Busy) && final(self)@ == old(self)@
                } else {
                    r == Ok::<(), Error>(()) && final(self)@ == old(self)@.update(
                        i,
                        VolumeSlot { mounted: false, ..old(self)@[i] },
                    )
                },
            },
    {
        proof {
            lemma_first_mounted_range(self@, prefix.spec_bytes(), 0);
        }
        match self.find_mounted(prefix) {
            None => Ok(()),
            Some(i) => {
                let mut s = self.slots[i];
                if s.open_count > 0 {
                    return Err(Error::Busy);
                }
                s.mounted = false;
                self.slots.set(i, s);
                Ok(())
            },
        }
    }
}

} // verus!

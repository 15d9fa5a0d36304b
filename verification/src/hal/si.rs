//! Serial Interface (controller ports): device identification, the report
//! layouts of pads, keyboards, mice and WiiMotes, and the transfer control
//! word.
//!
//! | Identify bytes        | `DeviceKind`   |
//! |-----------------------|----------------|
//! | `[0x09, 0x00, _]`     | `StandardPad`  |
//! | `[0x09, 0x80 | _, _]` | `ExtendedPad`  |
//! | `[0x08, 0x20, _]`     | `PsoKeyboard`  |
//! | `[0x02, _, _]`        | `Mouse`        |
//! | `[0x00 | 0xFF, _, _]` | `Absent`       |

use vstd::prelude::*;
use crate::bytes::{be16, be32, rd_be16, rd_be32};

verus! {

/// Bit in identify byte 1 marking BlueRetro extended mode.
pub const EXT_FLAG: u8 = 0x80;
/// Capability: the port also carries keyboard state.
pub const CAP_KBD: u8 = 0x01;
/// Capability: the port also carries mouse or IR state.
pub const CAP_MOUSE: u8 = 0x02;
/// Capability: the port carries WiiMote state.
pub const CAP_WIIMOTE: u8 = 0x04;

/// Standard pad poll command (8-byte reply).
pub const CMD_POLL: u32 = 0x4003_0000;
/// BlueRetro extended poll command (16-byte reply).
pub const CMD_EXTENDED: u32 = 0x4103_0000;
/// Keyboard poll command (7-byte reply).
pub const CMD_KEYBOARD: u32 = 0x5400_0000;
/// Mouse poll command (8-byte reply).
pub const CMD_MOUSE: u32 = 0x5200_0000;
/// WiiMote poll command (24-byte reply).
pub const CMD_WIIMOTE: u32 = 0x4500_0000;
/// Identify command (3-byte reply).
pub const CMD_IDENTIFY: u32 = 0x0000_0000;

/// Status-register bit: the channel did not answer.
pub const SISR_NORESPONSE: u32 = 0x08;
/// Control-word bits of a transfer.
pub const SICOMCSR_TCINT: u32 = 0x8000_0000;
pub const SICOMCSR_COMERR: u32 = 0x2000_0000;
pub const SICOMCSR_TSTART: u32 = 0x0000_0001;

/// Physical controller port.
#[derive(Debug, Clone, Copy, PartialEq, Eq, Structural)]
pub enum Port {
    P1,
    P2,
    P3,
    P4,
}

/// Index (channel) of a port, 0 to 3.
pub open spec fn port_num(p: Port) -> u32 {
    match p {
        Port::P1 => 0,
        Port::P2 => 1,
        Port::P3 => 2,
        Port::P4 => 3,
    }
}

impl Port {
    /// The SI channel of the port.
    pub fn channel(self) -> (r: u32)
        ensures
            r == port_num(self),
    {
        match self {
            Port::P1 => 0,
            Port::P2 => 1,
            Port::P3 => 2,
            Port::P4 => 3,
        }
    }
}

/// What kind of device is connected to a port.
#[derive(Debug, Clone, Copy, PartialEq, Eq, Structural)]
pub enum DeviceKind {
    /// Standard retail GameCube controller.
    StandardPad,
    /// BlueRetro receiver in extended mode.
    ExtendedPad { has_keyboard: bool, has_mouse: bool, has_wiimote: bool },
    /// Official PSO keyboard: pad buttons and key codes.
    PsoKeyboard,
    /// GameCube mouse.
    Mouse,
    /// Nothing connected.
    Absent,
    /// Unknown device, with its identify bytes.
    Unknown(u8, u8, u8),
}

impl DeviceKind {
    /// Produces standard pad button data.
    pub fn has_pad(self) -> (r: bool)
        ensures
            r == (self is StandardPad || self is ExtendedPad || self is PsoKeyboard),
    {
        matches!(self, DeviceKind::StandardPad | DeviceKind::ExtendedPad { .. } | DeviceKind::PsoKeyboard)
    }

    /// Produces keyboard scan codes.
    pub fn has_keyboard(self) -> (r: bool)
        ensures
            r == (self is PsoKeyboard || (self matches DeviceKind::ExtendedPad { has_keyboard, .. } && has_keyboard)),
    {
        match self {
            DeviceKind::PsoKeyboard => true,
            DeviceKind::ExtendedPad { has_keyboard, .. } => has_keyboard,
            _ => false,
        }
    }

    /// Produces pointer data: a mouse, or an extended pad with a mouse or
    /// a WiiMote.
    pub fn has_mouse(self) -> (r: bool)
        ensures
            r == (self is Mouse || (self matches DeviceKind::ExtendedPad { has_mouse, has_wiimote, .. } && (has_mouse
                || has_wiimote))),
    {
        match self {
            DeviceKind::Mouse => true,
            DeviceKind::ExtendedPad { has_mouse, has_wiimote, .. } => has_mouse || has_wiimote,
            _ => false,
        }
    }

    /// Carries WiiMote state.
    pub fn has_wiimote(self) -> (r: bool)
        ensures
            r == (self matches DeviceKind::ExtendedPad { has_wiimote, .. } && has_wiimote),
    {
        match self {
            DeviceKind::ExtendedPad { has_wiimote, .. } => has_wiimote,
            _ => false,
        }
    }
}

/// The device named by the three identify bytes.
pub open spec fn spec_classify(b0: u8, b1: u8, b2: u8) -> DeviceKind {
    if b0 == 0x09 && b1 & EXT_FLAG != 0 {
        DeviceKind::ExtendedPad {
            has_keyboard: b2 & CAP_KBD != 0,
            has_mouse: b2 & CAP_MOUSE != 0,
            has_wiimote: b2 & CAP_WIIMOTE != 0,
        }
    } else if b0 == 0x09 {
        DeviceKind::StandardPad
    } else if b0 == 0x08 && b1 == 0x20 {
        DeviceKind::PsoKeyboard
    } else if b0 == 0x02 {
        DeviceKind::Mouse
    } else if b0 == 0x00 || b0 == 0xFF {
        DeviceKind::Absent
    } else {
        DeviceKind::Unknown(b0, b1, b2)
    }
}

/// How an identify reply names the device: type 0x09 is a pad, extended
/// when bit 7 of the second byte is set, its third byte then saying in bits
/// 0, 1 and 2 whether the port also carries keyboard, mouse and WiiMote
/// state; 0x08 with 0x20 is the keyboard, 0x02 the mouse, 0x00 or 0xFF no
/// device, anything else unknown with the reply kept.
pub proof fn classify_law(b0: u8, b1: u8, b2: u8)
    ensures
        ({
            let k = spec_classify(b0, b1, b2);
            &&& (b0 == 0x09 && b1 >= 0x80) ==> k == DeviceKind::ExtendedPad {
                has_keyboard: b2 % 2 == 1,
                has_mouse: (b2 / 2) % 2 == 1,
                has_wiimote: (b2 / 4) % 2 == 1,
            }
            &&& (b0 == 0x09 && b1 < 0x80) ==> k == DeviceKind::StandardPad
            &&& (b0 == 0x08 && b1 == 0x20) ==> k == DeviceKind::PsoKeyboard
            &&& b0 == 0x02 ==> k == DeviceKind::Mouse
            &&& (b0 == 0x00 || b0 == 0xFF) ==> k == DeviceKind::Absent
            &&& (b0 != 0x09 && !(b0 == 0x08 && b1 == 0x20) && b0 != 0x02 && b0 != 0x00 && b0 != 0xFF) ==> k
                == DeviceKind::Unknown(b0, b1, b2)
        }),
{
    assert((b1 & 0x80 != 0) == (b1 >= 0x80) && (b2 & 1 != 0) == (b2 % 2 == 1) && (b2 & 2 != 0) == ((b2 / 2) % 2 == 1)
        && (b2 & 4 != 0) == ((b2 / 4) % 2 == 1)) by (bit_vector);
}

/// Identify the device from its identify reply.
pub fn classify(b0: u8, b1: u8, b2: u8) -> (r: DeviceKind)
    ensures
        r == spec_classify(b0, b1, b2),
{
    if b0 == 0x09 && b1 & EXT_FLAG != 0 {
        DeviceKind::ExtendedPad {
            has_keyboard: b2 & CAP_KBD != 0,
            has_mouse: b2 & CAP_MOUSE != 0,
            has_wiimote: b2 & CAP_WIIMOTE != 0,
        }
    } else if b0 == 0x09 {
        DeviceKind::StandardPad
    } else if b0 == 0x08 && b1 == 0x20 {
        DeviceKind::PsoKeyboard
    } else if b0 == 0x02 {
        DeviceKind::Mouse
    } else if b0 == 0x00 || b0 == 0xFF {
        DeviceKind::Absent
    } else {
        DeviceKind::Unknown(b0, b1, b2)
    }
}

/// Standard GameCube controller state.
#[derive(Debug, Clone, Copy, PartialEq, Eq, Structural)]
pub struct PadState {
    pub buttons: u16,
    pub stick_x: u8,
    pub stick_y: u8,
    pub cstick_x: u8,
    pub cstick_y: u8,
    pub trigger_l: u8,
    pub trigger_r: u8,
}

impl PadState {
    /// All zero: nothing pressed, sticks at 0.
    pub fn zeroed() -> (r: Self)
        ensures
            r == (PadState { buttons: 0, stick_x: 0, stick_y: 0, cstick_x: 0, cstick_y: 0, trigger_l: 0, trigger_r: 0 }),
    {
        PadState { buttons: 0, stick_x: 0, stick_y: 0, cstick_x: 0, cstick_y: 0, trigger_l: 0, trigger_r: 0 }
    }

    /// Some button of the mask `button` is held.
    pub fn pressed(&self, button: u16) -> (r: bool)
        ensures
            r == (self.buttons & button != 0),
    {
        self.buttons & button != 0
    }

    /// Main stick X relative to its centre of 128.
    pub fn stick_x_centered(&self) -> (r: i8)
        ensures
            r == self.stick_x - 128,
    {
        (self.stick_x as i16 - 128) as i8
    }

    /// Main stick Y relative to its centre of 128.
    pub fn stick_y_centered(&self) -> (r: i8)
        ensures
            r == self.stick_y - 128,
    {
        (self.stick_y as i16 - 128) as i8
    }

    /// C-stick X relative to its centre of 128.
    pub fn cstick_x_centered(&self) -> (r: i8)
        ensures
            r == self.cstick_x - 128,
    {
        (self.cstick_x as i16 - 128) as i8
    }

    /// C-stick Y relative to its centre of 128.
    pub fn cstick_y_centered(&self) -> (r: i8)
        ensures
            r == self.cstick_y - 128,
    {
        (self.cstick_y as i16 - 128) as i8
    }
}

/// Extended pad state: standard buttons plus six modern extras.
#[derive(Debug, Clone, Copy, PartialEq, Eq, Structural)]
pub struct ExtendedPadState {
    pub base: PadState,
    /// Extra buttons.
    pub ext_buttons: u8,
}

impl ExtendedPadState {
    /// Some extra button of the mask `button` is held.
    pub fn held_ext(&self, button: u8) -> (r: bool)
        ensures
            r == (self.ext_buttons & button != 0),
    {
        self.ext_buttons & button != 0
    }
}

/// Full WiiMote state as reported on a controller port.
#[derive(Debug, Clone, Copy, PartialEq, Eq, Structural)]
pub struct WiimoteState {
    /// Pad state synthesised from the attached extension.
    pub pad: PadState,
    pub ext_buttons: u8,
    /// Attached extension type.
    pub extension: u8,
    /// Raw WiiMote buttons.
    pub wii_buttons: u16,
    /// IR pointer X (0-1023), `0xFFFF` when off screen.
    pub ir_x: u16,
    /// IR pointer Y (0-767), `0xFFFF` when off screen.
    pub ir_y: u16,
    pub accel_x: u8,
    pub accel_y: u8,
    pub accel_z: u8,
    pub connected: u8,
}

impl WiimoteState {
    /// The IR pointer is on the screen.
    pub fn ir_visible(&self) -> (r: bool)
        ensures
            r == (self.ir_x != 0xFFFF),
    {
        self.ir_x != 0xFFFF
    }
}

/// Keyboard state.
#[derive(Debug, Clone, Copy)]
pub struct KbdState {
    /// Modifier bit mask.
    pub modifiers: u8,
    /// Up to six held key codes; unused slots are 0.
    pub keys: [u8; 6],
    pub connected: u8,
}

impl KbdState {
    /// Key `key` is among the held codes.
    pub fn held(&self, key: u8) -> (r: bool)
        ensures
            r == exists|i: int| 0 <= i < 6 && self.keys@[i] == key,
    {
        let mut i: usize = 0;
        while i < 6
            invariant
                i <= 6,
                forall|j: int| 0 <= j < i ==> self.keys@[j] != key,
            decreases 6 - i,
        {
            if self.keys[i] == key {
                return true;
            }
            i = i + 1;
        }
        false
    }

    /// Some modifier of the mask `m` is held.
    pub fn modifier(&self, m: u8) -> (r: bool)
        ensures
            r == (self.modifiers & m != 0),
    {
        self.modifiers & m != 0
    }
}

/// Mouse state (relative movement).
#[derive(Debug, Clone, Copy, PartialEq, Eq, Structural)]
pub struct MouseState {
    pub buttons: u8,
    pub dx: i16,
    pub dy: i16,
    pub scroll_y: i8,
    pub scroll_x: i8,
    pub connected: u8,
}

impl MouseState {
    pub fn left(&self) -> (r: bool)
        ensures
            r == (self.buttons & 0x01 != 0),
    {
        self.buttons & 0x01 != 0
    }

    pub fn right(&self) -> (r: bool)
        ensures
            r == (self.buttons & 0x02 != 0),
    {
        self.buttons & 0x02 != 0
    }

    pub fn middle(&self) -> (r: bool)
        ensures
            r == (self.buttons & 0x04 != 0),
    {
        self.buttons & 0x04 != 0
    }
}

/// Result of a standard pad poll.
#[derive(Debug, Clone, Copy, PartialEq, Eq, Structural)]
pub enum PadResult {
    /// A reply was read.
    Ready(PadState),
    NoController,
    Error,
}

/// The pad state an 8-byte poll reply describes.
pub open spec fn spec_decode_pad(b: Seq<u8>) -> PadState {
    PadState {
        buttons: (be16(b, 0) % 0x4000) as u16,
        stick_x: b[2],
        stick_y: b[3],
        cstick_x: b[4],
        cstick_y: b[5],
        trigger_l: b[6],
        trigger_r: b[7],
    }
}

/// Where a pad reply puts each field: the buttons as the big-endian
/// half-word at byte 0 with its top two bits dropped, the main stick X and
/// Y in bytes 2 and 3, the C stick in 4 and 5, the left and right
/// triggers in 6 and 7.
pub proof fn pad_fields_law(b: Seq<u8>)
    requires
        b.len() >= 8,
    ensures
        ({
            let p = spec_decode_pad(b);
            &&& p.buttons == (b[0] % 0x40) * 0x100 + b[1]
            &&& p.stick_x == b[2] && p.stick_y == b[3]
            &&& p.cstick_x == b[4] && p.cstick_y == b[5]
            &&& p.trigger_l == b[6] && p.trigger_r == b[7]
        }),
{
    let h = b[0] as int * 0x100 + b[1];
    assert(h % 0x4000 == (b[0] % 0x40) * 0x100 + b[1]) by (nonlinear_arith)
        requires
            h == b[0] * 0x100 + b[1],
            0 <= b[0] < 0x100,
            0 <= b[1] < 0x100,
    ;
}

/// Decode a pad poll reply (its first 8 bytes).
pub fn decode_pad(buf: &[u8]) -> (r: PadState)
    requires
        buf@.len() >= 8,
    ensures
        r == spec_decode_pad(buf@),
{
    PadState {
        buttons: rd_be16(buf, 0) % 0x4000,
        stick_x: buf[2],
        stick_y: buf[3],
        cstick_x: buf[4],
        cstick_y: buf[5],
        trigger_l: buf[6],
        trigger_r: buf[7],
    }
}

/// Decode a BlueRetro extended poll reply: the pad, then the extra buttons.
pub fn decode_extended(buf: &[u8; 16]) -> (r: ExtendedPadState)
    ensures
        r.base == spec_decode_pad(buf@),
        r.ext_buttons == buf@[8],
{
    ExtendedPadState { base: decode_pad(buf.as_slice()), ext_buttons: buf[8] }
}

/// The keyboard state a 7-byte reply describes: modifiers, then five key
/// codes; the second byte is a sixth code when it is at least 0x04.
pub open spec fn spec_decode_kbd(b: Seq<u8>) -> KbdState {
    KbdState {
        modifiers: b[0],
        keys: [b[2], b[3], b[4], b[5], b[6], if b[1] >= 4 { b[1] } else { 0 }],
        connected: 1,
    }
}

pub fn decode_kbd(buf: &[u8; 7]) -> (r: KbdState)
    ensures
        r == spec_decode_kbd(buf@),
{
    let extra = if buf[1] >= 0x04 { buf[1] } else { 0 };
    KbdState { modifiers: buf[0], keys: [buf[2], buf[3], buf[4], buf[5], buf[6], extra], connected: 1 }
}

/// Two's-complement reading of a 16-bit value.
pub open spec fn as_i16(v: int) -> int {
    if v >= 0x8000 { v - 0x1_0000 } else { v }
}

/// Two's-complement reading of a byte.
pub open spec fn as_i8(v: u8) -> int {
    if v >= 0x80 { v - 0x100 } else { v as int }
}

fn to_i16(v: u16) -> (r: i16)
    ensures
        r == as_i16(v as int),
{
    if v >= 0x8000 { (v as i32 - 0x1_0000) as i16 } else { v as i16 }
}

fn to_i8(v: u8) -> (r: i8)
    ensures
        r == as_i8(v),
{
    if v >= 0x80 { (v as i16 - 0x100) as i8 } else { v as i8 }
}

/// The mouse state an 8-byte reply describes.
pub open spec fn spec_decode_mouse(b: Seq<u8>) -> MouseState {
    MouseState {
        buttons: b[0],
        dx: as_i16(be16(b, 2)) as i16,
        dy: as_i16(be16(b, 4)) as i16,
        scroll_y: as_i8(b[6]) as i8,
        scroll_x: as_i8(b[7]) as i8,
        connected: 1,
    }
}

pub fn decode_mouse(buf: &[u8; 8]) -> (r: MouseState)
    ensures
        r == spec_decode_mouse(buf@),
{
    let sl = buf.as_slice();
    MouseState {
        buttons: buf[0],
        dx: to_i16(rd_be16(sl, 2)),
        dy: to_i16(rd_be16(sl, 4)),
        scroll_y: to_i8(buf[6]),
        scroll_x: to_i8(buf[7]),
        connected: 1,
    }
}

/// The WiiMote state a 24-byte reply describes.
pub open spec fn spec_decode_wiimote(b: Seq<u8>) -> WiimoteState {
    WiimoteState {
        pad: spec_decode_pad(b),
        ext_buttons: b[8],
        extension: b[9],
        wii_buttons: be16(b, 10) as u16,
        ir_x: be16(b, 12) as u16,
        ir_y: be16(b, 14) as u16,
        accel_x: b[16],
        accel_y: b[17],
        accel_z: b[18],
        connected: 1,
    }
}

/// Where a WiiMote reply puts each field: the pad state in bytes 0..8 (the
/// buttons' top two bits dropped), the extension buttons and type in bytes
/// 8 and 9, the WiiMote buttons and IR pointer as big-endian words at 10,
/// 12 and 14, and the X, Y and Z accelerometer axes in bytes 16, 17 and 18.
pub proof fn wiimote_fields_law(b: Seq<u8>)
    requires
        b.len() == 24,
    ensures
        ({
            let w = spec_decode_wiimote(b);
            &&& w.pad.buttons == (b[0] * 0x100 + b[1]) % 0x4000
            &&& w.pad.stick_x == b[2] && w.pad.stick_y == b[3]
            &&& w.pad.cstick_x == b[4] && w.pad.cstick_y == b[5]
            &&& w.pad.trigger_l == b[6] && w.pad.trigger_r == b[7]
            &&& w.ext_buttons == b[8] && w.extension == b[9]
            &&& w.wii_buttons == b[10] * 0x100 + b[11]
            &&& w.ir_x == b[12] * 0x100 + b[13]
            &&& w.ir_y == b[14] * 0x100 + b[15]
            &&& w.accel_x == b[16] && w.accel_y == b[17] && w.accel_z == b[18]
            &&& w.connected == 1
        }),
{
}

/// Where a mouse reply puts each field: the buttons in byte 0, the X and
/// Y motion as signed big-endian words at bytes 2 and 4, and the vertical
/// and horizontal scroll as signed bytes 6 and 7.
pub proof fn mouse_fields_law(b: Seq<u8>)
    requires
        b.len() == 8,
    ensures
        ({
            let m = spec_decode_mouse(b);
            &&& m.buttons == b[0]
            &&& m.dx as int == b[2] * 0x100 + b[3] - (if b[2] >= 0x80 { 0x1_0000int } else { 0 })
            &&& m.dy as int == b[4] * 0x100 + b[5] - (if b[4] >= 0x80 { 0x1_0000int } else { 0 })
            &&& m.scroll_y as int == b[6] - (if b[6] >= 0x80 { 0x100int } else { 0 })
            &&& m.scroll_x as int == b[7] - (if b[7] >= 0x80 { 0x100int } else { 0 })
            &&& m.connected == 1
        }),
{
}

/// Where a keyboard reply puts each field: the modifiers in byte 0, the
/// first five key slots in bytes 2 to 6, and the sixth in byte 1 when it
/// holds a key code (4 or more) rather than a status value.
pub proof fn kbd_fields_law(b: Seq<u8>)
    requires
        b.len() == 7,
    ensures
        ({
            let k = spec_decode_kbd(b);
            &&& k.modifiers == b[0]
            &&& forall|i: int| 0 <= i < 5 ==> #[trigger] k.keys@[i] == b[i + 2]
            &&& k.keys@[5] == (if b[1] >= 4 { b[1] } else { 0 })
            &&& k.connected == 1
        }),
{
    let k = spec_decode_kbd(b);
    assert forall|i: int| 0 <= i < 5 implies #[trigger] k.keys@[i] == b[i + 2] by {
        assert(k.keys@[i] == k.keys[i]);
    }
}

pub fn decode_wiimote(buf: &[u8; 24]) -> (r: WiimoteState)
    ensures
        r == spec_decode_wiimote(buf@),
{
    let sl = buf.as_slice();
    WiimoteState {
        pad: decode_pad(sl),
        ext_buttons: buf[8],
        extension: buf[9],
        wii_buttons: rd_be16(sl, 10),
        ir_x: rd_be16(sl, 12),
        ir_y: rd_be16(sl, 14),
        accel_x: buf[16],
        accel_y: buf[17],
        accel_z: buf[18],
        connected: 1,
    }
}

/// Byte `i` of a reply held as big-endian 32-bit words.
pub open spec fn word_byte(words: Seq<u32>, i: int) -> u8 {
    ((words[i / 4] as int / pow256(3 - i % 4)) % 256) as u8
}

pub open spec fn pow256(k: int) -> int {
    if k <= 0 { 1 } else if k == 1 { 0x100 } else if k == 2 { 0x1_0000 } else { 0x100_0000 }
}

/// Transfer words are unpacked big-endian: the four bytes of word `w`,
/// taken from its top byte down, give the word back.
pub proof fn word_byte_law(words: Seq<u32>, w: int)
    requires
        0 <= w < words.len(),
    ensures
        word_byte(words, 4 * w) * 0x100_0000 + word_byte(words, 4 * w + 1) * 0x1_0000 + word_byte(words, 4 * w + 2) * 0x100
            + word_byte(words, 4 * w + 3) == words[w],
{
    let v = words[w] as int;
    assert((4 * w) / 4 == w && (4 * w + 1) / 4 == w && (4 * w + 2) / 4 == w && (4 * w + 3) / 4 == w);
    assert((4 * w) % 4 == 0 && (4 * w + 1) % 4 == 1 && (4 * w + 2) % 4 == 2 && (4 * w + 3) % 4 == 3);
    let q1 = v / 0x100;
    let q2 = v / 0x1_0000;
    let q3 = v / 0x100_0000;
    vstd::arithmetic::div_mod::lemma_fundamental_div_mod(v, 0x100);
    vstd::arithmetic::div_mod::lemma_fundamental_div_mod(q1, 0x100);
    vstd::arithmetic::div_mod::lemma_fundamental_div_mod(q2, 0x100);
    vstd::arithmetic::div_mod::lemma_div_denominator(v, 0x100, 0x100);
    vstd::arithmetic::div_mod::lemma_div_denominator(v, 0x1_0000, 0x100);
    assert(q3 < 0x100);
    vstd::arithmetic::div_mod::lemma_small_mod(q3 as nat, 0x100);
}

/// Unpack big-endian transfer-buffer words into `buf`.
pub fn unpack_words(words: &[u32], buf: &mut [u8])
    requires
        old(buf)@.len() <= 4 * words@.len(),
    ensures
        final(buf)@.len() == old(buf)@.len(),
        forall|i: int| 0 <= i < old(buf)@.len() ==> #[trigger] final(buf)@[i] == word_byte(words@, i),
{
    let n = buf.len();
    let mut i: usize = 0;
    while i < n
        invariant
            n == buf@.len(),
            n <= 4 * words@.len(),
            i <= n,
            forall|k: int| 0 <= k < i ==> #[trigger] buf@[k] == word_byte(words@, k),
        decreases n - i,
    {
        let w = words[i / 4];
        let sh = 3 - i % 4;
        let d: u32 = if sh == 0 { 1 } else if sh == 1 { 0x100 } else if sh == 2 { 0x1_0000 } else { 0x100_0000 };
        buf[i] = ((w / d) % 256) as u8;
        i = i + 1;
    }
}

/// The control word that starts a transfer of `outlen` command bytes and
/// `inlen` reply bytes on `channel`.
pub open spec fn spec_csr(channel: u32, outlen: u32, inlen: u32) -> u32 {
    SICOMCSR_TCINT | ((outlen * 0x1_0000) as u32) | ((inlen * 0x100) as u32) | ((channel * 2) as u32)
        | SICOMCSR_TSTART
}

pub fn transfer_csr(channel: u32, outlen: u32, inlen: u32) -> (r: u32)
    requires
        channel < 4,
        outlen < 0x80,
        inlen < 0x80,
    ensures
        r == spec_csr(channel, outlen, inlen),
{
    SICOMCSR_TCINT | (outlen * 0x1_0000) | (inlen * 0x100) | (channel * 2) | SICOMCSR_TSTART
}

/// What a failed pad poll on `port` means, from the status register: no
/// controller when the channel's no-response bit is set, else an error.
pub open spec fn spec_poll_failure(sisr: u32, port: Port) -> PadResult {
    let flags = ((sisr as int / pow256(3 - port_num(port) as int)) % 256) as u8;
    if flags & (SISR_NORESPONSE as u8) != 0 { PadResult::NoController } else { PadResult::Error }
}

pub fn poll_failure(sisr: u32, port: Port) -> (r: PadResult)
    ensures
        r == spec_poll_failure(sisr, port),
{
    let ch = port.channel();
    let d: u32 = if ch == 3 { 1 } else if ch == 2 { 0x100 } else if ch == 1 { 0x1_0000 } else { 0x100_0000 };
    let flags = ((sisr / d) % 256) as u8;
    if flags & (SISR_NORESPONSE as u8) != 0 {
        PadResult::NoController
    } else {
        PadResult::Error
    }
}

} // verus!

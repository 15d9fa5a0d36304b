//! Human-interface devices with per-frame edge detection.
//!
//! Each device keeps the report of the current frame and the buttons of
//! the previous one. `update` takes the frame's report (read from the
//! device's `/dev/hid/pN/..` file); `held` asks about the current frame,
//! `pressed` about buttons that went down this frame, `released` about
//! buttons that went up.

use vstd::prelude::*;
use crate::vfs::{ControllerState, Fd, KbdState, MouseState, WiimoteState};

verus! {

/// Physical controller port.
#[derive(Clone, Copy, Debug, PartialEq, Eq, Structural)]
pub enum Port {
    P1,
    P2,
    P3,
    P4,
}

impl Port {
    /// Port number, 0 to 3.
    pub fn index(self) -> (r: u8)
        ensures
            r == (match self {
                Port::P1 => 0u8,
                Port::P2 => 1u8,
                Port::P3 => 2u8,
                Port::P4 => 3u8,
            }),
    {
        match self {
            Port::P1 => 0,
            Port::P2 => 1,
            Port::P3 => 2,
            Port::P4 => 3,
        }
    }
}

/// Descriptor value of a device that could not be opened.
pub const NO_FD: Fd = 0xFF;

/// Bits of `mask` that are set in `now` and not in `before`.
pub open spec fn rose16(now: u16, before: u16, mask: u16) -> bool {
    now & !before & mask != 0
}

/// Bits of `mask` that are set in `before` and not in `now`.
pub open spec fn fell16(now: u16, before: u16, mask: u16) -> bool {
    !now & before & mask != 0
}

pub open spec fn rose8(now: u8, before: u8, mask: u8) -> bool {
    now & !before & mask != 0
}

pub open spec fn fell8(now: u8, before: u8, mask: u8) -> bool {
    !now & before & mask != 0
}

/// A rising edge is held now, a falling edge is not; no edge is both.
pub proof fn lemma_edges16(now: u16, before: u16, mask: u16)
    ensures
        rose16(now, before, mask) ==> now & mask != 0,
        fell16(now, before, mask) ==> before & mask != 0,
        !(rose16(now, before, mask) && fell16(now, before, mask)) || (now & mask != 0 && before & mask != 0),
        now == before ==> !rose16(now, before, mask) && !fell16(now, before, mask),
        mask & (mask - 1) as u16 == 0 && mask != 0 ==> !(rose16(now, before, mask) && fell16(now, before, mask)),
{
    assert(rose16(now, before, mask) ==> now & mask != 0) by (bit_vector);
    assert(fell16(now, before, mask) ==> before & mask != 0) by (bit_vector);
    assert(!(rose16(now, before, mask) && fell16(now, before, mask)) || (now & mask != 0 && before & mask != 0)) by (bit_vector);
    assert(now == before ==> !rose16(now, before, mask) && !fell16(now, before, mask)) by (bit_vector);
    assert(mask & (mask - 1) as u16 == 0 && mask != 0 ==> !(rose16(now, before, mask) && fell16(now, before, mask))) by (bit_vector);
}

pub proof fn lemma_edges8(now: u8, before: u8, mask: u8)
    ensures
        rose8(now, before, mask) ==> now & mask != 0,
        fell8(now, before, mask) ==> before & mask != 0,
        now == before ==> !rose8(now, before, mask) && !fell8(now, before, mask),
        mask & (mask - 1) as u8 == 0 && mask != 0 ==> !(rose8(now, before, mask) && fell8(now, before, mask)),
{
    assert(rose8(now, before, mask) ==> now & mask != 0) by (bit_vector);
    assert(fell8(now, before, mask) ==> before & mask != 0) by (bit_vector);
    assert(now == before ==> !rose8(now, before, mask) && !fell8(now, before, mask)) by (bit_vector);
    assert(mask & (mask - 1) as u8 == 0 && mask != 0 ==> !(rose8(now, before, mask) && fell8(now, before, mask))) by (bit_vector);
}

// ─── Pad ──────────────────────────────────────────────────────────────────────

/// One controller port with edge detection.
pub struct Pad {
    fd: Fd,
    pub state: ControllerState,
    prev_btns: u16,
    prev_ext: u8,
}

impl Pad {
    /// This frame's report.
    pub closed spec fn st(&self) -> ControllerState {
        self.state
    }

    /// Buttons of the previous frame.
    pub closed spec fn prev_buttons(&self) -> u16 {
        self.prev_btns
    }

    /// Extended buttons of the previous frame.
    pub closed spec fn prev_ext_buttons(&self) -> u8 {
        self.prev_ext
    }

    pub closed spec fn spec_fd(&self) -> Fd {
        self.fd
    }

    /// A pad reading from descriptor `fd`, with nothing pressed so far.
    pub fn with_fd(fd: Fd) -> (r: Self)
        ensures
            r.spec_fd() == fd,
            r.st().buttons == 0 && r.st().ext_buttons == 0 && r.st().connected == 0,
            r.prev_buttons() == 0,
            r.prev_ext_buttons() == 0,
    {
        Pad { fd, state: ControllerState::zeroed(), prev_btns: 0, prev_ext: 0 }
    }

    /// The descriptor the pad reads from.
    pub fn fd(&self) -> (r: Fd)
        ensures
            r == self.spec_fd(),
    {
        self.fd
    }

    /// Take this frame's report: the current buttons become the previous
    /// ones, and a disconnected report holds no buttons.
    pub fn update(&mut self, s: ControllerState)
        ensures
            final(self).spec_fd() == old(self).spec_fd(),
            final(self).prev_buttons() == old(self).st().buttons,
            final(self).prev_ext_buttons() == old(self).st().ext_buttons,
            final(self).st() == (if s.connected == 0 {
                ControllerState { buttons: 0, ext_buttons: 0, ..s }
            } else {
                s
            }),
    {
        self.prev_btns = self.state.buttons;
        self.prev_ext = self.state.ext_buttons;
        self.state = s;
        if self.state.connected == 0 {
            self.state.buttons = 0;
            self.state.ext_buttons = 0;
        }
    }

    /// Some button of `b` is held this frame.
    pub fn held(&self, b: u16) -> (r: bool)
        ensures
            r == (self.st().buttons & b != 0),
    {
        self.state.buttons & b != 0
    }

    /// Some button of `b` went down this frame.
    pub fn pressed(&self, b: u16) -> (r: bool)
        ensures
            r == rose16(self.st().buttons, self.prev_buttons(), b),
    {
        self.state.buttons & !self.prev_btns & b != 0
    }

    /// Some button of `b` went up this frame.
    pub fn released(&self, b: u16) -> (r: bool)
        ensures
            r == fell16(self.st().buttons, self.prev_buttons(), b),
    {
        !self.state.buttons & self.prev_btns & b != 0
    }

    pub fn held_ext(&self, b: u8) -> (r: bool)
        ensures
            r == (self.st().ext_buttons & b != 0),
    {
        self.state.ext_buttons & b != 0
    }

    pub fn pressed_ext(&self, b: u8) -> (r: bool)
        ensures
            r == rose8(self.st().ext_buttons, self.prev_ext_buttons(), b),
    {
        self.state.ext_buttons & !self.prev_ext & b != 0
    }

    pub fn released_ext(&self, b: u8) -> (r: bool)
        ensures
            r == fell8(self.st().ext_buttons, self.prev_ext_buttons(), b),
    {
        !self.state.ext_buttons & self.prev_ext & b != 0
    }

    /// A controller is present.
    pub fn connected(&self) -> (r: bool)
        ensures
            r == (self.st().connected != 0),
    {
        self.state.connected != 0
    }
}

/// A button that is pressed is held; one that is released is not held;
/// a single button is never both pressed and released.
pub proof fn pad_edge_law(p: Pad, b: u16)
    ensures
        rose16(p.st().buttons, p.prev_buttons(), b) ==> p.st().buttons & b != 0,
        fell16(p.st().buttons, p.prev_buttons(), b) ==> p.prev_buttons() & b != 0,
        b != 0 && b & (b - 1) as u16 == 0 ==> !(rose16(p.st().buttons, p.prev_buttons(), b) && fell16(
            p.st().buttons,
            p.prev_buttons(),
            b,
        )),
        b != 0 && b & (b - 1) as u16 == 0 && fell16(p.st().buttons, p.prev_buttons(), b) ==> p.st().buttons & b == 0,
{
    lemma_edges16(p.st().buttons, p.prev_buttons(), b);
    let now = p.st().buttons;
    let before = p.prev_buttons();
    assert(b != 0 && b & (b - 1) as u16 == 0 && fell16(now, before, b) ==> now & b == 0) by (bit_vector);
}

/// After a frame with the same report as the last one, nothing is pressed
/// or released.
pub proof fn pad_steady_law(p: Pad, b: u16)
    requires
        p.st().buttons == p.prev_buttons(),
    ensures
        !rose16(p.st().buttons, p.prev_buttons(), b),
        !fell16(p.st().buttons, p.prev_buttons(), b),
{
    lemma_edges16(p.st().buttons, p.prev_buttons(), b);
}

// ─── Keyboard ─────────────────────────────────────────────────────────────────

/// Keyboard with edge detection. Key codes are HID usage IDs; 0 is no key.
pub struct Keyboard {
    fd: Fd,
    pub state: KbdState,
    prev_keys: [u8; 6],
    prev_mods: u8,
}

/// Non-zero key `key` is among `keys`.
pub open spec fn key_in(keys: [u8; 6], key: u8) -> bool {
    key != 0 && exists|i: int| 0 <= i < 6 && keys@[i] == key
}

fn key_in_exec(keys: &[u8; 6], key: u8) -> (r: bool)
    ensures
        r == key_in(*keys, key),
{
    let mut i: usize = 0;
    while i < 6
        invariant
            i <= 6,
            forall|j: int| 0 <= j < i ==> !(keys@[j] == key && key != 0),
        decreases 6 - i,
    {
        if keys[i] == key && key != 0 {
            return true;
        }
        i = i + 1;
    }
    false
}

impl Keyboard {
    /// This frame's report.
    pub closed spec fn st(&self) -> KbdState {
        self.state
    }

    /// Keys held in the previous frame.
    pub closed spec fn prev_keys(&self) -> [u8; 6] {
        self.prev_keys
    }

    pub closed spec fn prev_modifiers(&self) -> u8 {
        self.prev_mods
    }

    pub closed spec fn spec_fd(&self) -> Fd {
        self.fd
    }

    /// A keyboard reading from `fd`, with nothing held so far.
    pub fn with_fd(fd: Fd) -> (r: Self)
        ensures
            r.spec_fd() == fd,
            forall|k: u8| !key_in(r.st().keys, k) && !key_in(r.prev_keys(), k),
            r.st().modifiers == 0 && r.st().connected == 0,
    {
        let r = Keyboard {
            fd,
            state: KbdState { modifiers: 0, _reserved: 0, keys: [0u8; 6], connected: 0, _pad: [0u8; 7] },
            prev_keys: [0u8; 6],
            prev_mods: 0,
        };
        assert forall|k: u8| !key_in(r.state.keys, k) && !key_in(r.prev_keys(), k) by {
            if key_in(r.state.keys, k) {
                let i = choose|i: int| 0 <= i < 6 && r.state.keys@[i] == k;
                assert(r.state.keys@[i] == 0);
            }
            if key_in(r.prev_keys(), k) {
                let i = choose|i: int| 0 <= i < 6 && r.prev_keys()@[i] == k;
                assert(r.prev_keys()@[i] == 0);
            }
        }
        r
    }

    pub fn fd(&self) -> (r: Fd)
        ensures
            r == self.spec_fd(),
    {
        self.fd
    }

    /// Take this frame's report; the current keys become the previous ones.
    pub fn update(&mut self, s: KbdState)
        ensures
            final(self).spec_fd() == old(self).spec_fd(),
            final(self).prev_keys() == old(self).st().keys,
            final(self).prev_modifiers() == old(self).st().modifiers,
            final(self).st() == s,
    {
        self.prev_keys = self.state.keys;
        self.prev_mods = self.state.modifiers;
        self.state = s;
    }

    /// Key `key` is held this frame.
    pub fn held(&self, key: u8) -> (r: bool)
        ensures
            r == key_in(self.st().keys, key),
    {
        key_in_exec(&self.state.keys, key)
    }

    /// Key `key` went down this frame.
    pub fn pressed(&self, key: u8) -> (r: bool)
        ensures
            r == (key_in(self.st().keys, key) && !key_in(self.prev_keys(), key)),
    {
        let now = key_in_exec(&self.state.keys, key);
        let prev = key_in_exec(&self.prev_keys, key);
        now && !prev
    }

    /// Key `key` went up this frame.
    pub fn released(&self, key: u8) -> (r: bool)
        ensures
            r == (!key_in(self.st().keys, key) && key_in(self.prev_keys(), key)),
    {
        let now = key_in_exec(&self.state.keys, key);
        let prev = key_in_exec(&self.prev_keys, key);
        !now && prev
    }

    /// Some modifier of the mask is held.
    pub fn modifier(&self, mod_bit: u8) -> (r: bool)
        ensures
            r == (self.st().modifiers & mod_bit != 0),
    {
        self.state.modifiers & mod_bit != 0
    }

    /// Left or right Shift is held.
    pub fn shift(&self) -> (r: bool)
        ensures
            r == (self.st().modifiers & 0x02 != 0 || self.st().modifiers & 0x20 != 0),
    {
        self.modifier(0x02) || self.modifier(0x20)
    }

    /// Left or right Ctrl is held.
    pub fn ctrl(&self) -> (r: bool)
        ensures
            r == (self.st().modifiers & 0x01 != 0 || self.st().modifiers & 0x10 != 0),
    {
        self.modifier(0x01) || self.modifier(0x10)
    }

    /// Left or right Alt is held.
    pub fn alt(&self) -> (r: bool)
        ensures
            r == (self.st().modifiers & 0x04 != 0 || self.st().modifiers & 0x40 != 0),
    {
        self.modifier(0x04) || self.modifier(0x40)
    }

    pub fn connected(&self) -> (r: bool)
        ensures
            r == (self.st().connected != 0),
    {
        self.state.connected != 0
    }
}

/// A pressed key is held, a released key is not, and a key is never both;
/// key 0 is never held.
pub proof fn keyboard_edge_law(k: Keyboard, key: u8)
    ensures
        (key_in(k.st().keys, key) && !key_in(k.prev_keys(), key)) ==> key_in(k.st().keys, key),
        (!key_in(k.st().keys, key) && key_in(k.prev_keys(), key)) ==> !key_in(k.st().keys, key),
        !((key_in(k.st().keys, key) && !key_in(k.prev_keys(), key)) && (!key_in(k.st().keys, key) && key_in(
            k.prev_keys(),
            key,
        ))),
        !key_in(k.st().keys, 0),
{
}

// ─── Mouse ────────────────────────────────────────────────────────────────────

/// Mouse (or WiiMote pointer) with edge detection on its buttons.
pub struct Mouse {
    fd: Fd,
    pub state: MouseState,
    prev_btns: u8,
}

impl Mouse {
    /// This frame's report.
    pub closed spec fn st(&self) -> MouseState {
        self.state
    }

    pub closed spec fn prev_buttons(&self) -> u8 {
        self.prev_btns
    }

    pub closed spec fn spec_fd(&self) -> Fd {
        self.fd
    }

    /// A mouse reading from `fd`.
    pub fn with_fd(fd: Fd) -> (r: Self)
        ensures
            r.spec_fd() == fd,
            r.st().buttons == 0 && r.st().connected == 0 && r.st().dx == 0 && r.st().dy == 0,
            r.prev_buttons() == 0,
    {
        Mouse {
            fd,
            state: MouseState { buttons: 0, absolute: 0, dx: 0, dy: 0, scroll_y: 0, scroll_x: 0, connected: 0, _pad: [0u8; 7] },
            prev_btns: 0,
        }
    }

    pub fn fd(&self) -> (r: Fd)
        ensures
            r == self.spec_fd(),
    {
        self.fd
    }

    /// Take this frame's report.
    pub fn update(&mut self, s: MouseState)
        ensures
            final(self).spec_fd() == old(self).spec_fd(),
            final(self).prev_buttons() == old(self).st().buttons,
            final(self).st() == s,
    {
        self.prev_btns = self.state.buttons;
        self.state = s;
    }

    /// Coordinates are absolute (WiiMote pointer).
    pub fn is_absolute(&self) -> (r: bool)
        ensures
            r == (self.st().absolute != 0),
    {
        self.state.absolute != 0
    }

    /// Movement since the last frame, or the pointer position in absolute
    /// mode.
    pub fn delta(&self) -> (r: (i16, i16))
        ensures
            r == (self.st().dx, self.st().dy),
    {
        (self.state.dx, self.state.dy)
    }

    pub fn scroll_y(&self) -> (r: i8)
        ensures
            r == self.st().scroll_y,
    {
        self.state.scroll_y
    }

    pub fn scroll_x(&self) -> (r: i8)
        ensures
            r == self.st().scroll_x,
    {
        self.state.scroll_x
    }

    /// The pointer is on screen (absolute mode).
    pub fn ir_visible(&self) -> (r: bool)
        ensures
            r == (self.st().dx != -1),
    {
        self.state.dx != -1
    }

    pub fn left_held(&self) -> (r: bool)
        ensures
            r == (self.st().buttons & 0x01 != 0),
    {
        self.state.buttons & 0x01 != 0
    }

    pub fn right_held(&self) -> (r: bool)
        ensures
            r == (self.st().buttons & 0x02 != 0),
    {
        self.state.buttons & 0x02 != 0
    }

    pub fn middle_held(&self) -> (r: bool)
        ensures
            r == (self.st().buttons & 0x04 != 0),
    {
        self.state.buttons & 0x04 != 0
    }

    pub fn left_pressed(&self) -> (r: bool)
        ensures
            r == rose8(self.st().buttons, self.prev_buttons(), 0x01),
    {
        self.state.buttons & !self.prev_btns & 0x01 != 0
    }

    pub fn right_pressed(&self) -> (r: bool)
        ensures
            r == rose8(self.st().buttons, self.prev_buttons(), 0x02),
    {
        self.state.buttons & !self.prev_btns & 0x02 != 0
    }

    pub fn middle_pressed(&self) -> (r: bool)
        ensures
            r == rose8(self.st().buttons, self.prev_buttons(), 0x04),
    {
        self.state.buttons & !self.prev_btns & 0x04 != 0
    }

    pub fn connected(&self) -> (r: bool)
        ensures
            r == (self.st().connected != 0),
    {
        self.state.connected != 0
    }
}

// ─── Wiimote ──────────────────────────────────────────────────────────────────

/// WiiMote with edge detection on its synthesised pad buttons and its own
/// buttons.
pub struct Wiimote {
    fd: Fd,
    pub state: WiimoteState,
    prev_btns: u16,
    prev_wii: u16,
    prev_ext: u8,
}

impl Wiimote {
    /// This frame's report.
    pub closed spec fn st(&self) -> WiimoteState {
        self.state
    }

    pub closed spec fn prev_buttons(&self) -> u16 {
        self.prev_btns
    }

    pub closed spec fn prev_wii_buttons(&self) -> u16 {
        self.prev_wii
    }

    pub closed spec fn prev_ext_buttons(&self) -> u8 {
        self.prev_ext
    }

    pub closed spec fn spec_fd(&self) -> Fd {
        self.fd
    }

    /// A WiiMote reading from `fd`.
    pub fn with_fd(fd: Fd) -> (r: Self)
        ensures
            r.spec_fd() == fd,
            r.st().buttons == 0 && r.st().wii_buttons == 0 && r.st().ext_buttons == 0 && r.st().connected == 0,
            r.prev_buttons() == 0 && r.prev_wii_buttons() == 0 && r.prev_ext_buttons() == 0,
    {
        Wiimote { fd, state: WiimoteState::zeroed(), prev_btns: 0, prev_wii: 0, prev_ext: 0 }
    }

    pub fn fd(&self) -> (r: Fd)
        ensures
            r == self.spec_fd(),
    {
        self.fd
    }

    /// Take this frame's report; a disconnected report holds no buttons.
    pub fn update(&mut self, s: WiimoteState)
        ensures
            final(self).spec_fd() == old(self).spec_fd(),
            final(self).prev_buttons() == old(self).st().buttons,
            final(self).prev_wii_buttons() == old(self).st().wii_buttons,
            final(self).prev_ext_buttons() == old(self).st().ext_buttons,
            final(self).st() == (if s.connected == 0 {
                WiimoteState { buttons: 0, wii_buttons: 0, ext_buttons: 0, ..s }
            } else {
                s
            }),
    {
        self.prev_btns = self.state.buttons;
        self.prev_wii = self.state.wii_buttons;
        self.prev_ext = self.state.ext_buttons;
        self.state = s;
        if self.state.connected == 0 {
            self.state.buttons = 0;
            self.state.wii_buttons = 0;
            self.state.ext_buttons = 0;
        }
    }

    pub fn held(&self, b: u16) -> (r: bool)
        ensures
            r == (self.st().buttons & b != 0),
    {
        self.state.buttons & b != 0
    }

    pub fn pressed(&self, b: u16) -> (r: bool)
        ensures
            r == rose16(self.st().buttons, self.prev_buttons(), b),
    {
        self.state.buttons & !self.prev_btns & b != 0
    }

    pub fn released(&self, b: u16) -> (r: bool)
        ensures
            r == fell16(self.st().buttons, self.prev_buttons(), b),
    {
        !self.state.buttons & self.prev_btns & b != 0
    }

    pub fn held_ext(&self, b: u8) -> (r: bool)
        ensures
            r == (self.st().ext_buttons & b != 0),
    {
        self.state.ext_buttons & b != 0
    }

    pub fn pressed_ext(&self, b: u8) -> (r: bool)
        ensures
            r == rose8(self.st().ext_buttons, self.prev_ext_buttons(), b),
    {
        self.state.ext_buttons & !self.prev_ext & b != 0
    }

    pub fn wii_held(&self, b: u16) -> (r: bool)
        ensures
            r == (self.st().wii_buttons & b != 0),
    {
        self.state.wii_buttons & b != 0
    }

    pub fn wii_pressed(&self, b: u16) -> (r: bool)
        ensures
            r == rose16(self.st().wii_buttons, self.prev_wii_buttons(), b),
    {
        self.state.wii_buttons & !self.prev_wii & b != 0
    }

    pub fn wii_released(&self, b: u16) -> (r: bool)
        ensures
            r == fell16(self.st().wii_buttons, self.prev_wii_buttons(), b),
    {
        !self.state.wii_buttons & self.prev_wii & b != 0
    }

    /// The IR pointer is on screen.
    pub fn ir_visible(&self) -> (r: bool)
        ensures
            r == (self.st().ir_x != 0xFFFF),
    {
        self.state.ir_x != 0xFFFF
    }

    /// Attached extension type.
    pub fn extension(&self) -> (r: u8)
        ensures
            r == self.st().extension,
    {
        self.state.extension
    }

    pub fn connected(&self) -> (r: bool)
        ensures
            r == (self.st().connected != 0),
    {
        self.state.connected != 0
    }
}

/// After a disconnected report, no pad or WiiMote button is held.
pub proof fn wiimote_disconnect_law(w: Wiimote, b: u16)
    requires
        w.st().connected == 0,
        w.st().buttons == 0,
        w.st().wii_buttons == 0,
    ensures
        w.st().buttons & b == 0,
        w.st().wii_buttons & b == 0,
{
    let x: u16 = 0;
    assert(x & b == 0) by (bit_vector)
        requires
            x == 0,
    ;
}

/// After a disconnected report, no pad button is held.
pub proof fn pad_disconnect_law(p: Pad, b: u16, e: u8)
    requires
        p.st().connected == 0,
        p.st().buttons == 0,
        p.st().ext_buttons == 0,
    ensures
        p.st().buttons & b == 0,
        p.st().ext_buttons & e == 0,
{
    let x: u16 = 0;
    let y: u8 = 0;
    assert(x & b == 0) by (bit_vector)
        requires
            x == 0,
    ;
    assert(y & e == 0) by (bit_vector)
        requires
            y == 0,
    ;
}

/// After `update(s)`, a button counts as pressed exactly when the report
/// is connected, holds it, and the frame before did not.
pub proof fn pad_update_law(before: Pad, after: Pad, s: ControllerState, b: u16)
    requires
        after.prev_buttons() == before.st().buttons,
        after.st() == (if s.connected == 0 { ControllerState { buttons: 0, ext_buttons: 0, ..s } } else { s }),
    ensures
        rose16(after.st().buttons, after.prev_buttons(), b) == (s.connected != 0 && rose16(
            s.buttons,
            before.st().buttons,
            b,
        )),
        fell16(after.st().buttons, after.prev_buttons(), b) == (if s.connected == 0 {
            before.st().buttons & b != 0
        } else {
            fell16(s.buttons, before.st().buttons, b)
        }),
{
    let z: u16 = 0;
    let p = before.st().buttons;
    assert(!rose16(z, p, b)) by (bit_vector)
        requires
            z == 0,
    ;
    assert(fell16(z, p, b) == (p & b != 0)) by (bit_vector)
        requires
            z == 0,
    ;
}

} // verus!

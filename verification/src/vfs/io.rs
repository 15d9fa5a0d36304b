//! Reading and writing open device files.
//!
//! A HID read needs a poll of the controller port. The poll itself is
//! hardware access, done by the caller: [`read_poll`] says which poll a
//! read needs, and [`do_read`] turns what the poll gave into the report
//! bytes.

use vstd::prelude::*;
use crate::hal::si::{DeviceKind, ExtendedPadState, PadResult};
use super::{
    ControllerState, Error, KbdState, MouseState, Result, StdPoll, VfsFile, WiimoteState, controller_from_wiimote,
    controller_zero, read_null_zero, std_poll_for,
};

verus! {

/// Length of the controller, keyboard and mouse reports.
pub const REPORT_LEN: usize = 16;
/// Length of the WiiMote report.
pub const WII_REPORT_LEN: usize = 24;

/// The controller-port poll a read needs.
#[derive(Clone, Copy, Debug, PartialEq, Eq, Structural)]
pub enum ReadPoll {
    /// No poll: the read completes without one.
    NoPoll,
    /// Standard pad poll.
    Pad,
    /// Extended (BlueRetro) poll.
    Extended,
    /// WiiMote poll.
    Wiimote,
    /// Keyboard poll.
    Keyboard,
    /// Mouse poll.
    Mouse,
}

/// What a controller-port poll gave.
#[derive(Clone, Copy, Debug)]
pub enum PollResult {
    /// No poll was made.
    Nothing,
    Pad(PadResult),
    Extended(ExtendedPadState),
    Wiimote(crate::hal::si::WiimoteState),
    Keyboard(crate::hal::si::KbdState),
    Mouse(crate::hal::si::MouseState),
}

/// The poll a read of `len` bytes from `f` needs, the port holding a
/// device of kind `kind`. A buffer too short for the report needs none:
/// the read is refused first.
pub open spec fn poll_needed(f: VfsFile, len: int, kind: DeviceKind) -> ReadPoll {
    match f {
        VfsFile::Controller { .. } => if len < REPORT_LEN {
            ReadPoll::NoPoll
        } else {
            match kind {
                DeviceKind::ExtendedPad { has_wiimote, .. } => if has_wiimote {
                    ReadPoll::Wiimote
                } else {
                    ReadPoll::Extended
                },
                DeviceKind::Absent => ReadPoll::NoPoll,
                _ => ReadPoll::Pad,
            }
        },
        VfsFile::Keyboard { .. } => if len < REPORT_LEN {
            ReadPoll::NoPoll
        } else {
            ReadPoll::Keyboard
        },
        VfsFile::Mouse { .. } => if len < REPORT_LEN {
            ReadPoll::NoPoll
        } else if kind matches DeviceKind::ExtendedPad { has_wiimote, .. } && has_wiimote {
            ReadPoll::Wiimote
        } else {
            ReadPoll::Mouse
        },
        VfsFile::Wiimote { .. } => if len < WII_REPORT_LEN {
            ReadPoll::NoPoll
        } else {
            ReadPoll::Wiimote
        },
        _ => ReadPoll::NoPoll,
    }
}

/// `p` is the result of the poll `need`.
pub open spec fn poll_fits(need: ReadPoll, p: PollResult) -> bool {
    match need {
        ReadPoll::NoPoll => p is Nothing,
        ReadPoll::Pad => p is Pad,
        ReadPoll::Extended => p is Extended,
        ReadPoll::Wiimote => p is Wiimote,
        ReadPoll::Keyboard => p is Keyboard,
        ReadPoll::Mouse => p is Mouse,
    }
}

/// Which poll reading `len` bytes from `file` needs.
pub fn read_poll(file: &VfsFile, len: usize, kind: DeviceKind) -> (r: ReadPoll)
    ensures
        r == poll_needed(*file, len as int, kind),
{
    match file {
        VfsFile::Controller { .. } => {
            if len < REPORT_LEN {
                ReadPoll::NoPoll
            } else {
                match std_poll_for(kind) {
                    StdPoll::Wiimote => ReadPoll::Wiimote,
                    StdPoll::Extended => ReadPoll::Extended,
                    StdPoll::Nothing => ReadPoll::NoPoll,
                    StdPoll::Standard => ReadPoll::Pad,
                }
            }
        },
        VfsFile::Keyboard { .. } => if len < REPORT_LEN {
            ReadPoll::NoPoll
        } else {
            ReadPoll::Keyboard
        },
        VfsFile::Mouse { .. } => {
            if len < REPORT_LEN {
                ReadPoll::NoPoll
            } else if kind.has_wiimote() {
                ReadPoll::Wiimote
            } else {
                ReadPoll::Mouse
            }
        },
        VfsFile::Wiimote { .. } => if len < WII_REPORT_LEN {
            ReadPoll::NoPoll
        } else {
            ReadPoll::Wiimote
        },
        _ => ReadPoll::NoPoll,
    }
}

/// The standard-controller report of a poll result: the pad synthesised
/// from a WiiMote, an extended pad, a standard pad, or all zero when
/// nothing answered.
pub open spec fn controller_report(p: PollResult) -> ControllerState {
    match p {
        PollResult::Wiimote(w) => ControllerState {
            connected: w.connected,
            ext_buttons: w.ext_buttons,
            ..ControllerState::spec_from_pad(w.pad)
        },
        PollResult::Extended(e) => ControllerState { ext_buttons: e.ext_buttons, ..ControllerState::spec_from_pad(e.base) },
        PollResult::Pad(PadResult::Ready(pad)) => ControllerState::spec_from_pad(pad),
        _ => controller_zero(),
    }
}

/// The keyboard report of a keyboard poll.
pub open spec fn kbd_report(k: crate::hal::si::KbdState) -> KbdState {
    KbdState { modifiers: k.modifiers, _reserved: 0, keys: k.keys, connected: k.connected, _pad: [0u8, 0, 0, 0, 0, 0, 0] }
}

/// The mouse report of a mouse poll, or of a WiiMote used as a pointer.
pub open spec fn mouse_report(p: PollResult) -> MouseState {
    match p {
        PollResult::Wiimote(w) => MouseState {
            buttons: (w.wii_buttons % 0x100) as u8 & 0x0F,
            absolute: 1,
            dx: (if w.ir_x == 0xFFFF { -1 } else { crate::hal::si::as_i16(w.ir_x as int) }) as i16,
            dy: (if w.ir_y == 0xFFFF { -1 } else { crate::hal::si::as_i16(w.ir_y as int) }) as i16,
            scroll_y: 0,
            scroll_x: 0,
            connected: w.connected,
            _pad: [0u8, 0, 0, 0, 0, 0, 0],
        },
        PollResult::Mouse(m) => MouseState {
            buttons: m.buttons,
            absolute: 0,
            dx: m.dx,
            dy: m.dy,
            scroll_y: m.scroll_y,
            scroll_x: m.scroll_x,
            connected: m.connected,
            _pad: [0u8, 0, 0, 0, 0, 0, 0],
        },
        _ => MouseState {
            buttons: 0,
            absolute: 0,
            dx: 0,
            dy: 0,
            scroll_y: 0,
            scroll_x: 0,
            connected: 0,
            _pad: [0u8, 0, 0, 0, 0, 0, 0],
        },
    }
}

/// The WiiMote report of a WiiMote poll.
pub open spec fn wii_report(w: crate::hal::si::WiimoteState) -> WiimoteState {
    WiimoteState {
        buttons: w.pad.buttons,
        stick_x: w.pad.stick_x,
        stick_y: w.pad.stick_y,
        cstick_x: w.pad.cstick_x,
        cstick_y: w.pad.cstick_y,
        trigger_l: w.pad.trigger_l,
        trigger_r: w.pad.trigger_r,
        ext_buttons: w.ext_buttons,
        extension: w.extension,
        wii_buttons: w.wii_buttons,
        ir_x: w.ir_x,
        ir_y: w.ir_y,
        accel_x: w.accel_x,
        accel_y: w.accel_y,
        accel_z: w.accel_z,
        connected: w.connected,
        _pad: [0u8, 0, 0, 0],
    }
}

/// The bytes a read of HID file `f` delivers for poll result `p`.
pub open spec fn report_bytes(f: VfsFile, p: PollResult) -> Seq<u8> {
    match f {
        VfsFile::Controller { .. } => controller_report(p).spec_bytes(),
        VfsFile::Keyboard { .. } => match p {
            PollResult::Keyboard(k) => kbd_report(k).spec_bytes(),
            _ => Seq::empty(),
        },
        VfsFile::Mouse { .. } => mouse_report(p).spec_bytes(),
        VfsFile::Wiimote { .. } => match p {
            PollResult::Wiimote(w) => wii_report(w).spec_bytes(),
            _ => Seq::empty(),
        },
        _ => Seq::empty(),
    }
}

/// The report length of HID file `f`.
pub open spec fn report_len(f: VfsFile) -> int {
    if f is Wiimote { WII_REPORT_LEN as int } else { REPORT_LEN as int }
}

/// Copy `src` over the start of `buf`.
fn copy_into(buf: &mut [u8], src: &[u8])
    requires
        src@.len() <= old(buf)@.len(),
    ensures
        final(buf)@ == src@ + old(buf)@.subrange(src@.len() as int, old(buf)@.len() as int),
{
    let n = src.len();
    let mut i: usize = 0;
    while i < n
        invariant
            n == src@.len(),
            n <= buf@.len(),
            buf@.len() == old(buf)@.len(),
            i <= n,
            forall|k: int| 0 <= k < i ==> buf@[k] == src@[k],
            forall|k: int| i <= k < buf@.len() ==> buf@[k] == old(buf)@[k],
        decreases n - i,
    {
        buf[i] = src[i];
        i = i + 1;
    }
    assert(buf@ =~= src@ + old(buf)@.subrange(n as int, old(buf)@.len() as int));
}

/// The report of a HID file for a poll result.
fn hid_report(file: &VfsFile, polled: &PollResult) -> (r: Vec<u8>)
    requires
        file is Controller || file is Keyboard || file is Mouse || file is Wiimote,
        file is Keyboard ==> polled is Keyboard,
        file is Wiimote ==> polled is Wiimote,
    ensures
        r@ == report_bytes(*file, *polled),
        r@.len() == report_len(*file),
{
    match file {
        VfsFile::Controller { .. } => {
            let st = match polled {
                PollResult::Wiimote(w) => controller_from_wiimote(w),
                PollResult::Extended(e) => ControllerState::from_extended(e),
                PollResult::Pad(PadResult::Ready(pad)) => ControllerState::from_pad(pad),
                _ => ControllerState::zeroed(),
            };
            assert(st == controller_report(*polled));
            vstd::slice::slice_to_vec(st.to_bytes().as_slice())
        },
        VfsFile::Keyboard { .. } => {
            let st = match polled {
                PollResult::Keyboard(k) => KbdState::from_raw(k),
                _ => KbdState::from_raw(&crate::hal::si::KbdState { modifiers: 0, keys: [0u8; 6], connected: 0 }),
            };
            vstd::slice::slice_to_vec(st.to_bytes().as_slice())
        },
        VfsFile::Mouse { .. } => {
            let st = match polled {
                PollResult::Wiimote(w) => MouseState::from_wiimote(w),
                PollResult::Mouse(m) => MouseState::from_raw(m),
                _ => MouseState {
                    buttons: 0,
                    absolute: 0,
                    dx: 0,
                    dy: 0,
                    scroll_y: 0,
                    scroll_x: 0,
                    connected: 0,
                    _pad: [0u8, 0, 0, 0, 0, 0, 0],
                },
            };
            assert(st == mouse_report(*polled));
            vstd::slice::slice_to_vec(st.to_bytes().as_slice())
        },
        _ => {
            let st = match polled {
                PollResult::Wiimote(w) => WiimoteState::from_raw(w),
                _ => WiimoteState::zeroed(),
            };
            vstd::slice::slice_to_vec(st.to_bytes().as_slice())
        },
    }
}

/// Read from an open device file into `buf`. `kind` is the device on the
/// file's port and `polled` the result of the poll [`read_poll`] asked
/// for. `/dev/null` gives nothing, `/dev/zero` zeros; a HID file fills
/// the start of `buf` with its report, or refuses a buffer shorter than
/// the report with `InvalidArg`. A free descriptor is `InvalidFd`.
pub fn do_read(file: &mut VfsFile, buf: &mut [u8], kind: DeviceKind, polled: PollResult) -> (r: Result<usize>)
    requires
        !(*old(file) is Volume),
        poll_fits(poll_needed(*old(file), old(buf)@.len() as int, kind), polled),
    ensures
        final(buf)@.len() == old(buf)@.len(),
        match *old(file) {
            VfsFile::Empty => r == Err::<usize, Error>(Error::InvalidFd) && final(buf)@ == old(buf)@ && *final(file)
                == *old(file),
            VfsFile::Null => r == Ok::<usize, Error>(0) && final(buf)@ == old(buf)@ && *final(file) == *old(file),
            VfsFile::Zero { pos } => {
                &&& r == Ok::<usize, Error>(old(buf)@.len() as usize)
                &&& final(buf)@ == Seq::new(old(buf)@.len(), |i: int| 0u8)
                &&& *final(file) == (VfsFile::Zero { pos: ((pos + old(buf)@.len()) % 0x1_0000_0000_0000_0000) as u64 })
            },
            _ => {
                &&& *final(file) == *old(file)
                &&& if old(buf)@.len() < report_len(*old(file)) {
                    r == Err::<usize, Error>(Error::InvalidArg) && final(buf)@ == old(buf)@
                } else {
                    &&& r == Ok::<usize, Error>(report_len(*old(file)) as usize)
                    &&& final(buf)@ == report_bytes(*old(file), polled) + old(buf)@.subrange(
                        report_len(*old(file)),
                        old(buf)@.len() as int,
                    )
                }
            },
        },
{
    match file {
        VfsFile::Empty => Err(Error::InvalidFd),
        VfsFile::Null => read_null_zero(file, buf),
        VfsFile::Zero { .. } => read_null_zero(file, buf),
        _ => {
            let want = if matches!(file, VfsFile::Wiimote { .. }) { WII_REPORT_LEN } else { REPORT_LEN };
            if buf.len() < want {
                return Err(Error::InvalidArg);
            }
            let rep = hid_report(file, &polled);
            copy_into(buf, rep.as_slice());
            Ok(want)
        },
    }
}

/// Write to an open device file: `/dev/null` accepts everything, the
/// other devices are read-only, and a free descriptor is `InvalidFd`.
pub fn do_write(file: &VfsFile, len: usize) -> (r: Result<usize>)
    requires
        !(*file is Volume),
    ensures
        r == (match *file {
            VfsFile::Empty => Err::<usize, Error>(Error::InvalidFd),
            VfsFile::Null => Ok::<usize, Error>(len),
            _ => Err::<usize, Error>(Error::ReadOnly),
        }),
{
    match file {
        VfsFile::Empty => Err(Error::InvalidFd),
        VfsFile::Null => Ok(len),
        _ => Err(Error::ReadOnly),
    }
}

} // verus!

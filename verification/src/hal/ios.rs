//! Wii input through IOS: USB HID keyboards and mice on the rear ports
//! (boot-protocol reports), and WiiMotes through the Bluetooth module's
//! shared state buffer. The IPC itself is done by the caller; this module
//! chooses the devices, builds the request arguments and decodes what
//! came back.

use vstd::prelude::*;
use super::si::{KbdState, MouseState, PadState, WiimoteState, as_i8};

verus! {

/// HID protocol of a boot keyboard.
pub const USB_PROTOCOL_KEYBOARD: u8 = 0x01;
/// HID protocol of a boot mouse.
pub const USB_PROTOCOL_MOUSE: u8 = 0x02;
/// Handle of an unused device-table entry, and of no device.
pub const NO_HANDLE: u32 = 0xFFFF_FFFF;

/// One entry of the HID device table IOS fills.
#[derive(Clone, Copy, Debug, PartialEq, Eq, Structural)]
pub struct UsbHidDevice {
    pub vid: u16,
    pub pid: u16,
    /// 1 for a boot interface.
    pub subclass: u8,
    /// 1 keyboard, 2 mouse.
    pub protocol: u8,
    /// IOS device handle; `NO_HANDLE` for an unused entry.
    pub handle: u32,
}

/// Handle of the first used entry from `i` on with protocol `p`, or
/// `NO_HANDLE`.
pub open spec fn first_with(devs: Seq<UsbHidDevice>, p: u8, i: int) -> u32
    decreases devs.len() - i,
{
    if i < 0 || i >= devs.len() {
        NO_HANDLE
    } else if devs[i].handle != NO_HANDLE && devs[i].protocol == p {
        devs[i].handle
    } else {
        first_with(devs, p, i + 1)
    }
}

/// The devices to use: the first keyboard and the first mouse of the
/// table (their handles, `NO_HANDLE` when absent). Each of them is switched
/// to the boot protocol.
pub fn select_hid(devs: &[UsbHidDevice]) -> (r: (u32, u32))
    ensures
        r.0 == first_with(devs@, USB_PROTOCOL_KEYBOARD, 0),
        r.1 == first_with(devs@, USB_PROTOCOL_MOUSE, 0),
{
    let mut kbd = NO_HANDLE;
    let mut mouse = NO_HANDLE;
    let mut i = devs.len();
    while i > 0
        invariant
            i <= devs@.len(),
            kbd == first_with(devs@, USB_PROTOCOL_KEYBOARD, i as int),
            mouse == first_with(devs@, USB_PROTOCOL_MOUSE, i as int),
        decreases i,
    {
        i = i - 1;
        let d = devs[i];
        if d.handle != NO_HANDLE && d.protocol == USB_PROTOCOL_KEYBOARD {
            kbd = d.handle;
        }
        if d.handle != NO_HANDLE && d.protocol == USB_PROTOCOL_MOUSE {
            mouse = d.handle;
        }
    }
    (kbd, mouse)
}

/// Whether the scan found a keyboard or a mouse.
pub fn hid_found(kbd: u32, mouse: u32) -> (r: bool)
    ensures
        r == (kbd != NO_HANDLE || mouse != NO_HANDLE),
{
    kbd != NO_HANDLE || mouse != NO_HANDLE
}

/// The arguments of a report read: the handle big-endian, report type 1
/// (input), report id 0.
pub open spec fn spec_read_args(handle: u32) -> Seq<u8> {
    seq![
        (handle / 0x100_0000) as u8,
        ((handle / 0x1_0000) % 0x100) as u8,
        ((handle / 0x100) % 0x100) as u8,
        (handle % 0x100) as u8,
        1u8,
        0u8,
        0u8,
        0u8,
    ]
}

pub fn read_args(handle: u32) -> (r: [u8; 8])
    ensures
        r@ == spec_read_args(handle),
{
    let r = [
        (handle / 0x100_0000) as u8,
        ((handle / 0x1_0000) % 0x100) as u8,
        ((handle / 0x100) % 0x100) as u8,
        (handle % 0x100) as u8,
        1u8,
        0u8,
        0u8,
        0u8,
    ];
    assert(r@ =~= spec_read_args(handle));
    r
}

/// The handle of a set-protocol request, big-endian.
pub fn protocol_args(handle: u32) -> (r: [u8; 4])
    ensures
        r@ == spec_read_args(handle).subrange(0, 4),
{
    let r = [
        (handle / 0x100_0000) as u8,
        ((handle / 0x1_0000) % 0x100) as u8,
        ((handle / 0x100) % 0x100) as u8,
        (handle % 0x100) as u8,
    ];
    assert(r@ =~= spec_read_args(handle).subrange(0, 4));
    r
}

/// The keyboard state of a boot keyboard report: modifiers, then the six
/// key codes after the reserved byte.
pub fn decode_usb_kbd(rep: &[u8; 8]) -> (r: KbdState)
    ensures
        r.modifiers == rep@[0],
        r.keys@ == rep@.subrange(2, 8),
        r.connected == 1,
{
    let r = KbdState { modifiers: rep[0], keys: [rep[2], rep[3], rep[4], rep[5], rep[6], rep[7]], connected: 1 };
    assert(r.keys@ =~= rep@.subrange(2, 8));
    r
}

fn byte_i8(v: u8) -> (r: i8)
    ensures
        r == as_i8(v),
{
    if v >= 0x80 { (v as i16 - 0x100) as i8 } else { v as i8 }
}

/// The mouse state of a boot mouse report of `len` bytes: buttons, signed
/// movement, and the scroll bytes when the report carried them.
pub open spec fn spec_usb_mouse(rep: Seq<u8>, len: i32) -> MouseState {
    MouseState {
        buttons: rep[0],
        dx: as_i8(rep[1]) as i16,
        dy: as_i8(rep[2]) as i16,
        scroll_y: if len >= 4 { as_i8(rep[3]) as i8 } else { 0 },
        scroll_x: if len >= 5 { as_i8(rep[4]) as i8 } else { 0 },
        connected: 1,
    }
}

/// A USB boot-mouse report: buttons in byte 0, X and Y motion as signed
/// bytes 1 and 2, and the vertical and horizontal wheel as signed bytes 3
/// and 4 when the report is long enough to carry them (else no motion).
pub proof fn usb_mouse_law(rep: Seq<u8>, len: i32)
    requires
        rep.len() == 8,
    ensures
        ({
            let m = spec_usb_mouse(rep, len);
            &&& m.buttons == rep[0]
            &&& m.dx == rep[1] - (if rep[1] >= 0x80 { 0x100int } else { 0 })
            &&& m.dy == rep[2] - (if rep[2] >= 0x80 { 0x100int } else { 0 })
            &&& m.scroll_y == (if len >= 4 { rep[3] - (if rep[3] >= 0x80 { 0x100int } else { 0 }) } else { 0 })
            &&& m.scroll_x == (if len >= 5 { rep[4] - (if rep[4] >= 0x80 { 0x100int } else { 0 }) } else { 0 })
            &&& m.connected == 1
        }),
{
}

pub fn decode_usb_mouse(rep: &[u8; 8], len: i32) -> (r: MouseState)
    ensures
        r == spec_usb_mouse(rep@, len),
{
    MouseState {
        buttons: rep[0],
        dx: byte_i8(rep[1]) as i16,
        dy: byte_i8(rep[2]) as i16,
        scroll_y: if len >= 4 { byte_i8(rep[3]) } else { 0 },
        scroll_x: if len >= 5 { byte_i8(rep[4]) } else { 0 },
        connected: 1,
    }
}

/// One WiiMote channel of the Bluetooth module's state buffer.
#[derive(Clone, Copy, Debug, PartialEq, Eq, Structural)]
pub struct WpadChannel {
    /// 0 when connected.
    pub err: i32,
    pub pad_buttons: u16,
    pub ext_buttons: u8,
    pub extension: u8,
    pub wii_buttons: u16,
    pub stick_x: u8,
    pub stick_y: u8,
    pub cstick_x: u8,
    pub cstick_y: u8,
    pub trigger_l: u8,
    pub trigger_r: u8,
    pub ir_x: u16,
    pub ir_y: u16,
    pub accel_x: u8,
    pub accel_y: u8,
    pub accel_z: u8,
}

/// The state of a connected channel.
pub open spec fn spec_channel_state(c: WpadChannel) -> WiimoteState {
    WiimoteState {
        pad: PadState {
            buttons: c.pad_buttons,
            stick_x: c.stick_x,
            stick_y: c.stick_y,
            cstick_x: c.cstick_x,
            cstick_y: c.cstick_y,
            trigger_l: c.trigger_l,
            trigger_r: c.trigger_r,
        },
        ext_buttons: c.ext_buttons,
        extension: c.extension,
        wii_buttons: c.wii_buttons,
        ir_x: c.ir_x,
        ir_y: c.ir_y,
        accel_x: c.accel_x,
        accel_y: c.accel_y,
        accel_z: c.accel_z,
        connected: 1,
    }
}

/// The WiiMote on `channel` (0 to 3): nothing before the module is set
/// up, for another channel, or when the channel reports an error.
pub fn wpad_read(ready: bool, channels: &[WpadChannel; 4], channel: u8) -> (r: Option<WiimoteState>)
    ensures
        r == (if !ready || channel >= 4 || channels@[channel as int].err != 0 {
            None::<WiimoteState>
        } else {
            Some(spec_channel_state(channels@[channel as int]))
        }),
{
    if !ready || channel >= 4 {
        return None;
    }
    let c = channels[channel as usize];
    if c.err != 0 {
        return None;
    }
    Some(WiimoteState {
        pad: PadState {
            buttons: c.pad_buttons,
            stick_x: c.stick_x,
            stick_y: c.stick_y,
            cstick_x: c.cstick_x,
            cstick_y: c.cstick_y,
            trigger_l: c.trigger_l,
            trigger_r: c.trigger_r,
        },
        ext_buttons: c.ext_buttons,
        extension: c.extension,
        wii_buttons: c.wii_buttons,
        ir_x: c.ir_x,
        ir_y: c.ir_y,
        accel_x: c.accel_x,
        accel_y: c.accel_y,
        accel_z: c.accel_z,
        connected: 1,
    })
}

/// Whether a WiiMote is connected on `channel`.
pub fn wpad_connected(ready: bool, channels: &[WpadChannel; 4], channel: u8) -> (r: bool)
    ensures
        r == (ready && channel < 4 && channels@[channel as int].err == 0),
{
    if !ready || channel >= 4 {
        return false;
    }
    channels[channel as usize].err == 0
}


// ─── IPC requests ────────────────────────────────────────────────────────────

/// IPC command numbers.
pub const IPC_OPEN: u32 = 1;
pub const IPC_CLOSE: u32 = 2;
pub const IPC_IOCTL: u32 = 6;
pub const IPC_IOCTLV: u32 = 7;
/// Reply-ready flag of the IPC control register.
pub const IPC_Y1: u32 = 4;
/// Result of a request IOS never answered.
pub const IOS_TIMEOUT: i32 = -29;

/// An IPC request or reply as IOS reads and writes it.
#[derive(Clone, Copy, Debug)]
pub struct IpcMsg {
    pub cmd: u32,
    pub result: i32,
    pub fd: i32,
    pub args: [u32; 5],
}

/// The physical address IOS sees for a virtual address: MEM1 at
/// `0x8000_0000` maps to 0, MEM2 at `0x9000_0000` to `0x1000_0000`.
pub fn to_phys(virt: usize) -> (r: u32)
    ensures
        r == virt as int % 0x2000_0000,
{
    let r = (virt & 0x1FFF_FFFF) as u32;
    assert(r == virt as int % 0x2000_0000) by (bit_vector)
        requires
            r == (virt & 0x1FFF_FFFF) as u32,
    ;
    r
}

/// The 32-byte cache lines covering `[addr, addr + len)`: the first
/// line's address and the address past the last.
pub fn cache_range(addr: usize, len: usize) -> (r: (usize, usize))
    requires
        addr + len + 31 <= usize::MAX,
    ensures
        r.0 == addr - addr % 32,
        r.1 == (addr + len + 31) - (addr + len + 31) % 32,
{
    let start = addr & !31usize;
    let e = addr + len + 31;
    let end = e & !31usize;
    assert(start == addr - addr % 32) by (bit_vector)
        requires
            start == addr & !31usize,
    ;
    assert(end == e - e % 32) by (bit_vector)
        requires
            end == e & !31usize,
    ;
    (start, end)
}

/// The request that opens the device whose NUL-terminated path is at
/// physical address `path_phys`.
pub fn open_msg(path_phys: u32, mode: u32) -> (r: IpcMsg)
    ensures
        r == (IpcMsg { cmd: IPC_OPEN, result: 0, fd: 0, args: [path_phys, mode, 0u32, 0u32, 0u32] }),
{
    IpcMsg { cmd: IPC_OPEN, result: 0, fd: 0, args: [path_phys, mode, 0, 0, 0] }
}

/// The request that closes `fd`.
pub fn close_msg(fd: i32) -> (r: IpcMsg)
    ensures
        r == (IpcMsg { cmd: IPC_CLOSE, result: 0, fd, args: [0u32, 0u32, 0u32, 0u32, 0u32] }),
{
    IpcMsg { cmd: IPC_CLOSE, result: 0, fd, args: [0, 0, 0, 0, 0] }
}

/// The ioctl request `cmd` on `fd` with an input and an output buffer at
/// the given physical addresses and lengths; an empty buffer is passed as
/// address 0.
pub fn ioctl_msg(fd: i32, cmd: u32, in_phys: u32, in_len: u32, out_phys: u32, out_len: u32) -> (r: IpcMsg)
    ensures
        r.cmd == IPC_IOCTL && r.result == 0 && r.fd == fd,
        r.args == [cmd, if in_len == 0 { 0 } else { in_phys }, in_len, if out_len == 0 { 0 } else { out_phys }, out_len],
{
    let a1 = if in_len == 0 { 0 } else { in_phys };
    let a3 = if out_len == 0 { 0 } else { out_phys };
    IpcMsg { cmd: IPC_IOCTL, result: 0, fd, args: [cmd, a1, in_len, a3, out_len] }
}

/// The path buffer of an open: the first 63 bytes of `path`, then zeros.
pub fn open_path(path: &[u8]) -> (r: [u8; 64])
    ensures
        ({
            let n = if path@.len() < 63 { path@.len() as int } else { 63 };
            r@ == path@.subrange(0, n) + Seq::new((64 - n) as nat, |i: int| 0u8)
        }),
{
    let mut buf = [0u8; 64];
    let n = if path.len() < 63 { path.len() } else { 63 };
    let mut i: usize = 0;
    while i < n
        invariant
            n <= 63,
            n <= path@.len(),
            i <= n,
            forall|k: int| 0 <= k < i ==> buf@[k] == path@[k],
            forall|k: int| i <= k < 64 ==> buf@[k] == 0,
        decreases n - i,
    {
        buf[i] = path[i];
        i = i + 1;
    }
    assert(buf@ =~= path@.subrange(0, n as int) + Seq::new((64 - n) as nat, |i: int| 0u8));
    buf
}

/// The vector table of an ioctlv: for each input buffer, then each output
/// buffer, its physical address and length; unused entries zero.
pub fn ioctlv_table(ins: &[(u32, u32)], outs: &[(u32, u32)]) -> (r: [u32; 32])
    requires
        ins@.len() + outs@.len() <= 16,
    ensures
        forall|i: int| 0 <= i < ins@.len() ==> r@[2 * i] == ins@[i].0 && r@[2 * i + 1] == ins@[i].1,
        forall|i: int| 0 <= i < outs@.len() ==> r@[2 * (ins@.len() + i)] == outs@[i].0 && r@[2 * (ins@.len() + i) + 1]
            == outs@[i].1,
        forall|j: int| 2 * (ins@.len() + outs@.len()) <= j < 32 ==> r@[j] == 0,
{
    let mut t = [0u32; 32];
    let mut i: usize = 0;
    while i < ins.len()
        invariant
            ins@.len() + outs@.len() <= 16,
            i <= ins@.len(),
            forall|k: int| 0 <= k < i ==> t@[2 * k] == ins@[k].0 && t@[2 * k + 1] == ins@[k].1,
            forall|j: int| 2 * i <= j < 32 ==> t@[j] == 0,
        decreases ins@.len() - i,
    {
        t[2 * i] = ins[i].0;
        t[2 * i + 1] = ins[i].1;
        i = i + 1;
    }
    let base = ins.len();
    let mut k: usize = 0;
    while k < outs.len()
        invariant
            ins@.len() + outs@.len() <= 16,
            base == ins@.len(),
            k <= outs@.len(),
            forall|a: int| 0 <= a < base ==> t@[2 * a] == ins@[a].0 && t@[2 * a + 1] == ins@[a].1,
            forall|a: int| 0 <= a < k ==> t@[2 * (base + a)] == outs@[a].0 && t@[2 * (base + a) + 1] == outs@[a].1,
            forall|j: int| 2 * (base + k) <= j < 32 ==> t@[j] == 0,
        decreases outs@.len() - k,
    {
        t[2 * (base + k)] = outs[k].0;
        t[2 * (base + k) + 1] = outs[k].1;
        k = k + 1;
    }
    t
}

/// The ioctlv request `cmd` on `fd`: the numbers of input and output
/// vectors, and the physical addresses of the input part of the vector
/// table (at `table_phys`) and of its output part.
pub fn ioctlv_msg(fd: i32, cmd: u32, n_in: u32, n_out: u32, table_phys: u32) -> (r: IpcMsg)
    requires
        n_in <= 16,
        table_phys + 8 * n_in <= u32::MAX,
    ensures
        r == (IpcMsg { cmd: IPC_IOCTLV, result: 0, fd, args: [cmd, n_in, table_phys, n_out, (table_phys + 8 * n_in) as u32] }),
{
    IpcMsg { cmd: IPC_IOCTLV, result: 0, fd, args: [cmd, n_in, table_phys, n_out, table_phys + 8 * n_in] }
}

/// What one poll of the IPC control register during a request means.
#[derive(Clone, Copy, Debug, PartialEq, Eq, Structural)]
pub enum IpcWait {
    /// The reply is ready.
    Reply,
    /// Poll again with this many polls left.
    Again(u32),
    /// Give up: `IOS_TIMEOUT`.
    TimedOut,
}

/// The step of waiting for a reply after reading control value `ctrl`
/// with `left` polls left.
pub fn ipc_wait(ctrl: u32, left: u32) -> (r: IpcWait)
    requires
        left >= 1,
    ensures
        r == (if ctrl & IPC_Y1 != 0 {
            IpcWait::Reply
        } else if left - 1 == 0 {
            IpcWait::TimedOut
        } else {
            IpcWait::Again((left - 1) as u32)
        }),
{
    if ctrl & IPC_Y1 != 0 {
        return IpcWait::Reply;
    }
    let l = left - 1;
    if l == 0 { IpcWait::TimedOut } else { IpcWait::Again(l) }
}

} // verus!

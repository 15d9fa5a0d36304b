use lib::hal::dvd::{check_read, read_command, ready_result, ready_step, DiscId, DvdError, ReadyStep, CMD_READ, DISC_MAGIC};
use lib::hal::fifo::GxFifo;
use lib::hal::gx::{CullMode, Primitive, VtxFmt};
use lib::hal::ios::{
    cache_range, close_msg, decode_usb_kbd, decode_usb_mouse, hid_found, ioctl_msg, ioctlv_table, open_path,
    protocol_args, read_args, select_hid, to_phys, wpad_connected, wpad_read, UsbHidDevice, WpadChannel, NO_HANDLE,
};
use lib::hal::si::{
    classify, decode_extended, decode_kbd, decode_mouse, decode_pad, decode_wiimote, poll_failure, transfer_csr,
    unpack_words, DeviceKind, PadResult, PadState, Port,
};
use lib::hal::storage::{scan, slot_info, DeviceType, SlotProbe, StorageKind};
use lib::hal::vi::{dcr, framebuffer_regs, ntsc_480i_mode, set_framebuffer, ViRegs};

#[test]
fn si_identify_classifies_devices() {
    assert_eq!(classify(0x09, 0x00, 0x00), DeviceKind::StandardPad);
    assert_eq!(
        classify(0x09, 0x80, 0x05),
        DeviceKind::ExtendedPad { has_keyboard: true, has_mouse: false, has_wiimote: true }
    );
    assert_eq!(classify(0x08, 0x20, 0x00), DeviceKind::PsoKeyboard);
    assert_eq!(classify(0x02, 0x00, 0x00), DeviceKind::Mouse);
    assert_eq!(classify(0xFF, 0x00, 0x00), DeviceKind::Absent);
    assert_eq!(classify(0x05, 0x06, 0x07), DeviceKind::Unknown(5, 6, 7));
    let ext = DeviceKind::ExtendedPad { has_keyboard: false, has_mouse: false, has_wiimote: true };
    assert!(ext.has_pad() && ext.has_mouse() && ext.has_wiimote() && !ext.has_keyboard());
    assert!(!DeviceKind::Absent.has_pad());
}

#[test]
fn si_replies_decode() {
    let p = decode_pad(&[0xC1, 0x23, 0x80, 0x7F, 0x10, 0xF0, 0x05, 0x06]);
    // The top two status bits of the button word are dropped.
    assert_eq!(p.buttons, 0x0123);
    assert!(p.pressed(0x0100) && !p.pressed(0x1000));
    assert_eq!(p.stick_x_centered(), 0);
    assert_eq!(p.stick_y_centered(), -1);
    assert_eq!(p.cstick_x_centered(), -112);
    assert_eq!(p.cstick_y_centered(), 112);
    assert_eq!((p.trigger_l, p.trigger_r), (5, 6));
    assert_eq!(PadState::zeroed().buttons, 0);

    let mut e = [0u8; 16];
    e[0] = 0x01;
    e[8] = 0x42;
    let x = decode_extended(&e);
    assert_eq!(x.base.buttons, 0x0100);
    assert_eq!(x.ext_buttons, 0x42);
    assert!(x.held_ext(0x02) && !x.held_ext(0x01));

    let k = decode_kbd(&[0x02, 0x03, 0x04, 0x05, 0x00, 0x00, 0x00]);
    assert_eq!(k.keys, [0x04, 0x05, 0, 0, 0, 0]);
    assert!(k.held(0x05) && k.modifier(0x02) && !k.modifier(0x01));
    let k2 = decode_kbd(&[0x00, 0x1E, 0x04, 0x00, 0x00, 0x00, 0x00]);
    assert_eq!(k2.keys[5], 0x1E);

    let m = decode_mouse(&[0x05, 0, 0xFF, 0xFE, 0x00, 0x03, 0xFF, 0x01]);
    assert_eq!((m.dx, m.dy, m.scroll_y, m.scroll_x), (-2, 3, -1, 1));
    assert!(m.left() && !m.right() && m.middle());

    let mut w = [0u8; 24];
    w[10] = 0x12;
    w[11] = 0x34;
    w[12] = 0x03;
    w[13] = 0xFF;
    w[14] = 0x03;
    w[15] = 0xFF;
    w[16] = 0x80;
    let wm = decode_wiimote(&w);
    assert_eq!(wm.wii_buttons, 0x1234);
    assert_eq!((wm.ir_x, wm.ir_y, wm.accel_x), (0x3FF, 0x3FF, 0x80));
    assert!(wm.ir_visible());
    assert_eq!(wm.connected, 1);
    w[12] = 0xFF;
    w[13] = 0xFF;
    assert!(!decode_wiimote(&w).ir_visible());
}

#[test]
fn si_transfer_words() {
    let mut buf = [0u8; 6];
    unpack_words(&[0x0102_0304, 0x0506_0708], &mut buf);
    assert_eq!(buf, [1, 2, 3, 4, 5, 6]);
    assert_eq!(transfer_csr(1, 3, 8), 0x8003_0803);
    assert_eq!(Port::P3.channel(), 2);
    assert_eq!(poll_failure(0x0008_0000, Port::P2), PadResult::NoController);
    assert_eq!(poll_failure(0x0008_0000, Port::P1), PadResult::Error);
}

#[test]
fn storage_inventory_in_probe_order() {
    let a = SlotProbe::MemCard(0x0000_0004, Some(0x0008_0000));
    let inv = scan(a, SlotProbe::Empty, Some(1000), true, 8);
    assert_eq!(inv.len(), 3);
    assert_eq!(inv[0].kind, StorageKind::MemCardSlotA);
    assert_eq!(inv[0].dev_type, DeviceType::MemoryCard(4));
    assert_eq!(inv[0].sector_count, 0x0008_0000 / 512);
    assert_eq!(inv[1].kind, StorageKind::SdCardSp2);
    assert_eq!(inv[1].sector_count, 1000);
    assert_eq!(inv[2].kind, StorageKind::DvdDisc);
    assert_eq!(inv[2].sector_size, 2048);
    assert!(inv[2].read_only);
    // The cap keeps the first entries.
    assert_eq!(scan(a, SlotProbe::Other(Some(5)), Some(1000), true, 2).len(), 2);
    assert_eq!(slot_info(SlotProbe::Other(None), StorageKind::SdCardSlotB, StorageKind::MemCardSlotB), None);
    assert_eq!(StorageKind::DvdDisc.name(), "DVD Disc");
}

#[test]
fn dvd_requests() {
    assert_eq!(check_read(0x8000_0000, 64, false), Ok(()));
    assert_eq!(check_read(0x8000_0010, 64, false), Err(DvdError::AlignmentError));
    assert_eq!(check_read(0x8000_0000, 33, true), Err(DvdError::AlignmentError));
    assert_eq!(check_read(0x8000_0000, 64, true), Err(DvdError::CoverOpen));
    assert_eq!(read_command(0x1000, 0x800, 0x8010_0000), (CMD_READ, 0x400, 0x800, 0x0010_0000));
    assert_eq!(ready_step(0x10, 0, 100), ReadyStep::Done(0x10));
    assert_eq!(ready_step(0x44, 0, 100), ReadyStep::Failed(0x04));
    assert_eq!(ready_step(0, 101, 100), ReadyStep::TimedOut);
    assert_eq!(ready_step(0, 100, 100), ReadyStep::Pending);
    assert_eq!(ready_result(ReadyStep::Failed(4)), Some(Err(DvdError::DriveError)));
    assert_eq!(ready_result(ReadyStep::TimedOut), Some(Err(DvdError::Timeout)));
    assert_eq!(ready_result(ReadyStep::Pending), None);

    let mut hdr = [0u8; 32];
    hdr[..6].copy_from_slice(b"GALE01");
    hdr[28..32].copy_from_slice(&DISC_MAGIC.to_be_bytes());
    let id = DiscId::from_bytes(&hdr);
    assert_eq!(&id.game_code, b"GALE");
    assert_eq!(&id.maker_code, b"01");
    assert!(id.is_valid());
    hdr[31] = 0;
    assert!(!DiscId::from_bytes(&hdr).is_valid());
}

#[test]
fn video_registers() {
    let m = ntsc_480i_mode();
    assert_eq!((m.fb_width, m.fb_height, m.vi_x_origin), (640, 480, 40));
    // NTSC, interlaced, enabled.
    assert_eq!(dcr(&m), 0x0005);
    let w = framebuffer_regs(0x8010_0000, 1280);
    assert_eq!(w, vec![(14, 0x0000), (15, 0x8000), (18, 0x0000), (19, 0x8028), (56, 640)]);
    let mut regs = ViRegs::new();
    set_framebuffer(&mut regs, 0x8010_0000, 1280);
    assert_eq!(regs.read(15), 0x8000);
    assert_eq!(regs.read(19), 0x8028);
    assert_eq!(regs.read(56), 640);
    assert_eq!(regs.read(0), 0);
}

#[test]
fn gx_command_stream() {
    let mut f = GxFifo::new();
    f.load_bp_reg(0x4500_0002);
    assert_eq!(f.bytes(), &[0x61, 0x45, 0x00, 0x00, 0x02]);
    let mut f = GxFifo::new();
    f.load_cp_reg(0x50, 0x0000_0600);
    assert_eq!(f.bytes(), &[0x08, 0x50, 0x00, 0x00, 0x06, 0x00]);
    let mut f = GxFifo::new();
    f.load_xf_reg(0x1018, 3);
    assert_eq!(f.bytes(), &[0x10, 0, 0, 0x10, 0x18, 0, 0, 0, 3]);
    let mut f = GxFifo::new();
    f.set_current_mtx(0x43);
    assert_eq!(f.bytes(), &[0x10, 0, 0, 0x10, 0x18, 0, 0, 0, 3]);
    let mut f = GxFifo::new();
    f.set_cull_mode(CullMode::Back);
    assert_eq!(f.bytes(), &[0x61, 0x00, 0x00, 0x40, 0x00]);
    let mut f = GxFifo::new();
    f.begin(Primitive::Quads, VtxFmt::Fmt0, 4);
    f.color3u8(1, 2, 3);
    assert_eq!(f.bytes(), &[0x80, 0x00, 0x04, 1, 2, 3, 0xFF]);
    let mut f = GxFifo::new();
    f.set_scissor(0, 0, 640, 480);
    assert_eq!(f.bytes(), &[0x61, 0x20, 0, 0, 0, 0x61, 0x21, 0x07, 0x7E, 0x7F]);
}

#[test]
fn ios_helpers() {
    let devs = [
        UsbHidDevice { vid: 1, pid: 1, subclass: 1, protocol: 2, handle: 7 },
        UsbHidDevice { vid: 1, pid: 2, subclass: 1, protocol: 1, handle: NO_HANDLE },
        UsbHidDevice { vid: 1, pid: 3, subclass: 1, protocol: 1, handle: 9 },
        UsbHidDevice { vid: 1, pid: 4, subclass: 1, protocol: 2, handle: 11 },
    ];
    assert_eq!(select_hid(&devs), (9, 7));
    assert_eq!(select_hid(&[]), (NO_HANDLE, NO_HANDLE));
    assert!(hid_found(9, NO_HANDLE));
    assert!(!hid_found(NO_HANDLE, NO_HANDLE));
    assert_eq!(read_args(0x0102_0304), [1, 2, 3, 4, 1, 0, 0, 0]);
    assert_eq!(protocol_args(0x0102_0304), [1, 2, 3, 4]);

    let k = decode_usb_kbd(&[0x02, 0, 4, 5, 6, 7, 8, 9]);
    assert_eq!(k.keys, [4, 5, 6, 7, 8, 9]);
    assert_eq!(k.modifiers, 2);
    let m = decode_usb_mouse(&[1, 0xFE, 3, 0xFF, 2, 0, 0, 0], 4);
    assert_eq!((m.dx, m.dy, m.scroll_y, m.scroll_x), (-2, 3, -1, 0));
    let m = decode_usb_mouse(&[1, 0xFE, 3, 0xFF, 2, 0, 0, 0], 5);
    assert_eq!(m.scroll_x, 2);

    let mut chans = [WpadChannel {
        err: -1,
        pad_buttons: 0,
        ext_buttons: 0,
        extension: 0,
        wii_buttons: 0,
        stick_x: 0,
        stick_y: 0,
        cstick_x: 0,
        cstick_y: 0,
        trigger_l: 0,
        trigger_r: 0,
        ir_x: 0,
        ir_y: 0,
        accel_x: 0,
        accel_y: 0,
        accel_z: 0,
    }; 4];
    chans[1].err = 0;
    chans[1].wii_buttons = 0x0800;
    assert_eq!(wpad_read(true, &chans, 1).map(|w| w.wii_buttons), Some(0x0800));
    assert_eq!(wpad_read(false, &chans, 1), None);
    assert_eq!(wpad_read(true, &chans, 0), None);
    assert_eq!(wpad_read(true, &chans, 4), None);
    assert!(wpad_connected(true, &chans, 1));
    assert!(!wpad_connected(true, &chans, 2));

    assert_eq!(to_phys(0x9000_1234), 0x1000_1234);
    assert_eq!(cache_range(0x8000_0010, 0x20), (0x8000_0000, 0x8000_0040));
    let c = close_msg(3);
    assert_eq!(c.fd, 3);
    let io = ioctl_msg(3, 9, 0x100, 0, 0x200, 8);
    assert_eq!(io.args, [9, 0, 0, 0x200, 8]);
    let p = open_path(b"/dev/usb/hid");
    assert_eq!(&p[..12], b"/dev/usb/hid");
    assert_eq!(p[12], 0);
    let t = ioctlv_table(&[(0x10, 4)], &[(0x20, 8)]);
    assert_eq!(&t[..4], &[0x10, 4, 0x20, 8]);
    assert_eq!(t[4], 0);
}

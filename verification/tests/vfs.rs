use lib::hal::si::{DeviceKind, KbdState, PadResult, PadState};
use lib::vfs::io::PollResult;
use lib::vfs::state::{OpenStep, PathOp, PathStep, Vfs};
use lib::vfs::{split_dev_path, Error, MountOptions, VolFs, O_CREAT, O_RDONLY};

fn sd2sp2_only() -> Vfs {
    Vfs::init([true, false, false, false, false, false])
}

#[test]
fn split_device_paths() {
    assert_eq!(split_dev_path("/dev/sd/sp/a/b"), Some(("/dev/sd/sp", "a/b")));
    assert_eq!(split_dev_path("/dev/null"), Some(("/dev/null", "")));
    assert_eq!(split_dev_path("/home/x"), None);
}

#[test]
fn null_and_zero_devices() {
    let mut v = sd2sp2_only();
    assert!(matches!(v.open("/dev/null", O_RDONLY), OpenStep::Done(Ok(0))));
    assert!(matches!(v.open("/dev/zero", O_RDONLY), OpenStep::Done(Ok(1))));
    assert_eq!(v.write(0, b"abc"), Ok(3));
    let mut buf = [7u8; 4];
    assert_eq!(v.read(0, &mut buf, DeviceKind::Absent, PollResult::Nothing), Ok(0));
    assert_eq!(buf, [7; 4]);
    assert_eq!(v.read(1, &mut buf, DeviceKind::Absent, PollResult::Nothing), Ok(4));
    assert_eq!(buf, [0; 4]);
    assert_eq!(v.tell(1), Ok(4));
    assert_eq!(v.seek(1, 100), Ok(100));
    assert_eq!(v.tell(1), Ok(100));
    assert_eq!(v.write(1, b"x"), Err(Error::ReadOnly));
    v.close(0);
    assert_eq!(v.write(0, b"abc"), Err(Error::InvalidFd));
    assert_eq!(v.tell(0), Err(Error::InvalidFd));
    // The freed descriptor is reused first.
    assert!(matches!(v.open("/dev/null", O_RDONLY), OpenStep::Done(Ok(0))));
}

#[test]
fn controller_report() {
    let mut v = sd2sp2_only();
    assert!(matches!(v.open("/dev/hid/p1/std", O_RDONLY), OpenStep::Done(Ok(0))));
    let pad = PadState { buttons: 0x0123, stick_x: 1, stick_y: 2, cstick_x: 3, cstick_y: 4, trigger_l: 5, trigger_r: 6 };
    let mut buf = [0xAAu8; 20];
    let r = v.read(0, &mut buf, DeviceKind::StandardPad, PollResult::Pad(PadResult::Ready(pad)));
    assert_eq!(r, Ok(16));
    assert_eq!(buf[..10], [0x01, 0x23, 1, 2, 3, 4, 5, 6, 1, 0]);
    assert_eq!(buf[16..], [0xAA; 4]);
    // A buffer shorter than the report is refused.
    let mut short = [0u8; 8];
    assert_eq!(v.read(0, &mut short, DeviceKind::StandardPad, PollResult::Nothing), Err(Error::InvalidArg));
    assert_eq!(v.write(0, b"x"), Err(Error::ReadOnly));
    assert_eq!(v.seek(0, 9), Ok(0));
}

#[test]
fn storage_opens_go_through_volumes() {
    let mut v = sd2sp2_only();
    assert!(matches!(v.open("/home/x", O_RDONLY), OpenStep::Done(Err(Error::NotFound))));
    assert!(matches!(v.open("/dev/bogus", O_RDONLY), OpenStep::Done(Err(Error::NotFound))));
    assert!(matches!(v.open("/dev/sd/m1/x", O_RDONLY), OpenStep::Done(Err(Error::NoDevice))));
    assert!(matches!(v.open("/dev/sd/sp", O_RDONLY), OpenStep::Done(Err(Error::WrongType))));
    assert!(matches!(v.open("/dev/sd/sp/a.txt", O_RDONLY), OpenStep::Mount { create: false }));
    assert!(matches!(v.create("/dev/sd/sp/a.txt"), OpenStep::Mount { create: true }));
    assert_eq!(v.open_from_volume(0, Ok(10)), Err(Error::NoDevice));

    v.vols.set_mounted(0, "/dev/sd/sp", MountOptions::default_opts(), VolFs::Fat);
    assert!(v.is_mounted("/dev/sd/sp"));
    assert!(matches!(v.open("/dev/sd/sp/a.txt", O_CREAT), OpenStep::OnVolume { vol_idx: 0, create: true }));
    assert_eq!(v.open_from_volume(0, Err(Error::NotFound)), Err(Error::NotFound));
    let fd = v.open_from_volume(0, Ok(10)).unwrap();
    assert_eq!(v.size(fd), Ok(10));
    assert_eq!(v.seek(fd, 11), Err(Error::InvalidArg));
    assert_eq!(v.seek(fd, 10), Ok(10));
    // A volume with open files cannot be unmounted.
    assert_eq!(v.unmount("/dev/sd/sp"), Err(Error::Busy));
    v.close(fd);
    assert_eq!(v.unmount("/dev/sd/sp"), Ok(()));
    assert!(!v.is_mounted("/dev/sd/sp"));
}

#[test]
fn path_operations() {
    let v = sd2sp2_only();
    assert_eq!(v.path_step("/dev/sd/sp/a", PathOp::Stat), PathStep::Mount);
    assert_eq!(v.path_step("/dev/sd/sp", PathOp::Stat), PathStep::Refused(Error::WrongType));
    assert_eq!(v.path_step("/dev/sd/sp", PathOp::Mkdir), PathStep::Refused(Error::InvalidArg));
    assert_eq!(v.path_step("/dev/sd/sp", PathOp::ReadDir), PathStep::Mount);
    assert_eq!(v.path_step("/dev/sd/m1/a", PathOp::Stat), PathStep::Refused(Error::NoDevice));
    assert_eq!(v.path_step("/tmp/a", PathOp::Stat), PathStep::Refused(Error::NotFound));
    assert!(v.is_present("/dev/sd/sp"));
    assert!(!v.is_present("/dev/dvd"));
    assert!(v.is_present("/dev/null"));
}

#[test]
fn hid_paths_open_their_own_reports() {
    let mut v = sd2sp2_only();
    assert!(matches!(v.open("/dev/hid/p2/kbd", O_RDONLY), OpenStep::Done(Ok(0))));
    let k = KbdState { modifiers: 0x02, keys: [4, 5, 0, 0, 0, 0], connected: 1 };
    let mut buf = [0u8; 16];
    let r = v.read(0, &mut buf, DeviceKind::Absent, PollResult::Keyboard(k));
    assert_eq!(r, Ok(16));
    assert_eq!(buf[..9], [0x02, 0, 4, 5, 0, 0, 0, 0, 1]);
    assert!(matches!(v.open("/dev/hid/p2/wii", O_RDONLY), OpenStep::Done(Ok(1))));
    // A WiiMote report is 24 bytes: a 16-byte buffer is refused.
    assert_eq!(v.read(1, &mut buf, DeviceKind::Absent, PollResult::Nothing), Err(Error::InvalidArg));
}

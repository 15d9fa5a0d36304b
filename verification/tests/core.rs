use lib::bytes::{rd_be16, rd_be24, rd_be32, rd_le16, rd_le32, rd_le64, wr_be16, wr_be32, wr_le16, wr_le32};
use lib::dkdol_fs::ext2::layout::crc32c;
use lib::gfx::console::Console;
use lib::gfx::{Xfb, YcbcrPair, BLACK, WHITE};
use lib::heap::{align_up, GcAllocator};
use lib::rt::exception::{dispatch, exc_to_idx, stub_words, Exception};
use lib::rt::irq::{msr_without_ee, IrqState, MSR_EE};
use lib::rt::timer::{delay_ms, delay_us, millis, tbr64_from, ticks, Timer, DEC_60HZ_GC, TB_HZ, TB_HZ_WII};
use lib::text::{bytes_eq, bytes_eq_ci, count_kept_before_trailing, count_leading, find_from, rfind, split_str, upper_byte, utf8_str};

#[test]
fn byte_readers_decode_both_orders() {
    let b = [0x12u8, 0x34, 0x56, 0x78, 0x9A, 0xBC, 0xDE, 0xF0];
    assert_eq!(rd_le16(&b, 0), 0x3412);
    assert_eq!(rd_le32(&b, 0), 0x7856_3412);
    assert_eq!(rd_le64(&b, 0), 0xF0DE_BC9A_7856_3412);
    assert_eq!(rd_be16(&b, 1), 0x3456);
    assert_eq!(rd_be24(&b, 0), 0x12_3456);
    assert_eq!(rd_be32(&b, 4), 0x9ABC_DEF0);
}

#[test]
fn byte_writers_round_trip() {
    let mut b = [0u8; 8];
    wr_le32(&mut b, 0, 0xDEAD_BEEF);
    assert_eq!(b[..4], [0xEF, 0xBE, 0xAD, 0xDE]);
    assert_eq!(rd_le32(&b, 0), 0xDEAD_BEEF);
    wr_be32(&mut b, 4, 0x0102_0304);
    assert_eq!(b[4..], [1, 2, 3, 4]);
    wr_le16(&mut b, 0, 0xABCD);
    assert_eq!(rd_le16(&b, 0), 0xABCD);
    wr_be16(&mut b, 2, 0xABCD);
    assert_eq!(rd_be16(&b, 2), 0xABCD);
    assert_eq!(b[4..], [1, 2, 3, 4]);
}

#[test]
fn crc32c_check_value() {
    assert_eq!(crc32c(0, b"123456789"), 0xE306_9283);
    assert_eq!(crc32c(0, b""), 0);
    // Continuing from a seed equals one pass over the whole input.
    let part = crc32c(0, b"1234");
    assert_eq!(crc32c(part, b"56789"), 0xE306_9283);
}

#[test]
fn text_helpers() {
    assert_eq!(upper_byte(b'a'), b'A');
    assert_eq!(upper_byte(b'Z'), b'Z');
    assert_eq!(upper_byte(b'{'), b'{');
    assert_eq!(count_leading(b"//a/b", b'/'), 2);
    assert_eq!(count_kept_before_trailing(b"NAME   ", b' '), 4);
    assert_eq!(find_from(b"a/b/c", 2, b'/'), 3);
    assert_eq!(find_from(b"abc", 0, b'/'), 3);
    assert_eq!(rfind(b"a/b/c", b'/'), Some(3));
    assert_eq!(rfind(b"abc", b'/'), None);
    assert!(bytes_eq_ci(b"Hello", b"hELLO"));
    assert!(!bytes_eq_ci(b"Hello", b"Hell"));
    assert!(bytes_eq(b"abc", b"abc"));
    assert!(!bytes_eq(b"abc", b"abC"));
    assert_eq!(split_str("dev/sd", 3), ("dev", "/sd"));
    assert_eq!(utf8_str(b"ok"), Some("ok"));
    assert_eq!(utf8_str(&[0xFF, 0xFE]), None);
}

#[test]
fn heap_alloc_and_free_merge_back() {
    let mut h = GcAllocator::new();
    assert_eq!(h.free_bytes(), 0);
    h.init(0x1000, 0x11000);
    assert_eq!(h.free_bytes(), 0x10000 - 32);
    let a = h.allocate(100, 8);
    assert_eq!(a, Some(0x1020));
    assert_eq!(h.free_bytes(), 0x10000 - 160 - 32);
    let b = h.allocate(64, 64);
    assert_eq!(b, Some(0x10C0));
    h.dealloc(0x1020);
    h.dealloc(0x10C0);
    // Freed neighbours merge into the original single block.
    assert_eq!(h.free_bytes(), 0x10000 - 32);
    assert_eq!(h.allocate(100, 8), Some(0x1020));
}

#[test]
fn heap_refuses_what_does_not_fit() {
    let mut h = GcAllocator::new();
    assert_eq!(h.allocate(16, 8), None);
    h.init(0x1000, 0x1100);
    assert_eq!(h.allocate(0x200, 8), None);
    // Requests larger than any heap, or aligned past it, are refused.
    assert_eq!(h.allocate(usize::MAX, 8), None);
    assert_eq!(h.allocate(16, 1usize << (usize::BITS - 1)), None);
    assert_eq!(h.free_bytes(), 0x100 - 32);
    // A second init is ignored.
    h.init(0x8000, 0x9000);
    assert_eq!(h.free_bytes(), 0x100 - 32);
    h.dealloc(0);
    assert_eq!(h.free_bytes(), 0x100 - 32);
}

#[test]
fn align_up_rounds() {
    assert_eq!(align_up(0, 32), 0);
    assert_eq!(align_up(1, 32), 32);
    assert_eq!(align_up(64, 32), 64);
    assert_eq!(align_up(65, 32), 96);
}

#[test]
fn timer_counts_and_converts() {
    let mut t = Timer::init(DEC_60HZ_GC);
    for _ in 0..60 {
        assert_eq!(t.on_decrementer(), DEC_60HZ_GC);
    }
    assert_eq!(ticks(&t), 60);
    assert_eq!(millis(&t, TB_HZ), 1000);
    // The same count on the Wii's faster time base is less wall time.
    assert_eq!(millis(&t, TB_HZ_WII), 666);
    let mut w = Timer { reload: 1, ticks: u32::MAX };
    w.on_decrementer();
    assert_eq!(w.ticks, 0);
}

#[test]
fn timebase_and_delays() {
    assert_eq!(tbr64_from(1, 5, 1), Some(0x1_0000_0005));
    assert_eq!(tbr64_from(1, 5, 2), None);
    assert!(!delay_ms(1000, 1000 + 40_499, 1, TB_HZ));
    assert!(delay_ms(1000, 1000 + 40_500, 1, TB_HZ));
    // One millisecond on the Wii takes 60 750 ticks.
    assert!(!delay_ms(0, 40_500, 1, TB_HZ_WII));
    assert!(delay_ms(0, 60_750, 1, TB_HZ_WII));
    // The counter wrapping around still counts the elapsed ticks.
    assert!(delay_ms(u64::MAX - 10, 40_500, 1, TB_HZ));
    assert!(delay_us(0, 41, 1, TB_HZ));
    assert!(!delay_us(0, 40, 1, TB_HZ));
    assert!(delay_us(0, 61, 1, TB_HZ_WII));
    assert!(!delay_us(0, 60, 1, TB_HZ_WII));
    // Monotone: once a delay has passed it stays passed.
    assert!(delay_ms(0, 81_000, 2, TB_HZ) && delay_ms(0, 90_000, 2, TB_HZ));
}

#[test]
fn exceptions_map_to_vectors() {
    assert_eq!(Exception::Dsi.code(), 0x300);
    assert_eq!(Exception::SystemCall.code(), 0xC00);
    assert_eq!(Exception::at(14), Exception::ThermalMgmt);
    assert_eq!(exc_to_idx(0x900), Some(8));
    assert_eq!(exc_to_idx(0x1700), Some(14));
    assert_eq!(exc_to_idx(0xA00), None);
    for i in 0..15 {
        assert_eq!(exc_to_idx(Exception::at(i).code()), Some(i));
    }
    let mut reg = [false; 15];
    reg[2] = true;
    let d = dispatch(0x300, &reg);
    assert!(!d.tick);
    assert_eq!(d.handler, Some(2));
    let d = dispatch(0x900, &reg);
    assert!(d.tick);
    assert_eq!(d.handler, None);
    let w = stub_words(0x8000_1234, 0x700);
    assert_eq!(w[0], 0x7C12_43A6);
    assert_eq!(w[1], 0x3C00_8000);
    assert_eq!(w[2], 0x6000_1234);
    assert_eq!(w[4], 0x3800_0700);
    assert_eq!(w[5], 0x4E80_0420);
    assert_eq!(w[31], 0x6000_0000);
}

#[test]
fn interrupt_state() {
    assert_eq!(msr_without_ee(0x0000_B032), 0x0000_3032);
    assert_eq!(msr_without_ee(0x0000_3032), 0x0000_3032);
    assert!(IrqState(0x8000).was_enabled());
    assert!(!IrqState(0x3032).was_enabled());
    // Clearing then putting back the saved bit restores the register.
    let msr = 0x0000_B032u32;
    assert_eq!(msr_without_ee(msr) | (msr & MSR_EE), msr);
}

#[test]
fn framebuffer_and_console() {
    let mut x = Xfb::new(16, 16);
    assert_eq!(x.byte_len(), 512);
    x.clear(YcbcrPair::black());
    assert_eq!(x.word(0), BLACK);
    x.write_pair(2, 1, YcbcrPair::white());
    assert_eq!(x.word(8 + 1), WHITE);
    assert_eq!(YcbcrPair::new(1, 2, 3, 4).0, 0x0102_0304);

    let mut font = vec![[0u8; 8]; 256];
    font[b'A' as usize] = [0xFF; 8];
    let mut c = Console::new(Xfb::new(16, 16), font);
    c.clear();
    c.print(b"A");
    assert_eq!(c.cursor(), (1, 0));
    assert_eq!(c.xfb().word(0), WHITE);
    assert_eq!(c.xfb().word(4), BLACK);
    c.print(b"B");
    assert_eq!(c.cursor(), (0, 1));
    c.print_str("\rA\n");
    // The bottom row scrolled up: the glyph drawn on row 1 is now on row 0.
    assert_eq!(c.cursor(), (0, 1));
    assert_eq!(c.xfb().word(0), WHITE);
    assert_eq!(c.xfb().word(8 * 8), BLACK);
}

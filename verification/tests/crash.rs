use lib::crash::fmt::{push_dec, push_dec02, push_hex8};
use lib::crash::{dsi_cause, exception_name, scroll_step, LineBuffer, LINE_LEN, MAX_LINES};
use lib::gfx::YcbcrPair;
use lib::rt::exception::Exception;

#[test]
fn dsi_causes_highest_bit_wins() {
    assert_eq!(dsi_cause(0x4000_0000), "page fault (no translation)");
    assert_eq!(dsi_cause(0x8000_0000 | 0x4000_0000), "direct-store error");
    assert_eq!(dsi_cause(0x0A00_0000), "protection violation (store to RO)");
    assert_eq!(dsi_cause(0x0020_0000), "TLB miss on store");
    assert_eq!(dsi_cause(0), "unknown DSI cause");
    assert_eq!(exception_name(Exception::Dsi), "Dsi");
    assert_eq!(exception_name(Exception::SystemReset), "SystemReset");
}

#[test]
fn number_formatting() {
    let mut out = Vec::new();
    push_hex8(&mut out, 0x8000_1ABC);
    assert_eq!(out, b"80001ABC");
    let mut out = Vec::new();
    push_dec(&mut out, 0);
    push_dec(&mut out, 1234);
    assert_eq!(out, b"01234");
    let mut out = Vec::new();
    push_dec02(&mut out, 7);
    assert_eq!(out, b"07");
}

#[test]
fn line_buffer_truncates_and_caps() {
    let mut b = LineBuffer::new();
    b.push(YcbcrPair::white(), "hello");
    assert_eq!(b.count(), 1);
    let (c, l) = b.line(0);
    assert_eq!(c.0, YcbcrPair::white().0);
    assert_eq!(l.len(), LINE_LEN);
    assert_eq!(&l[..6], b"hello\0");
    let long = "x".repeat(100);
    b.push(YcbcrPair::black(), &long);
    let (_, l) = b.line(1);
    assert!(l.iter().all(|&x| x == b'x'));
    for _ in 0..300 {
        b.push(YcbcrPair::white(), "more");
    }
    assert_eq!(b.count(), MAX_LINES);
}

#[test]
fn scrolling_stays_in_range() {
    assert_eq!(scroll_step(0, 100, true, false), 3);
    assert_eq!(scroll_step(44, 100, true, false), 45);
    assert_eq!(scroll_step(45, 100, true, false), 45);
    assert_eq!(scroll_step(2, 100, false, true), 0);
    assert_eq!(scroll_step(10, 100, true, true), 10);
    // A report that fits on one screen does not scroll.
    assert_eq!(scroll_step(0, 20, true, false), 0);
}

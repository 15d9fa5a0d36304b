//! Decrementer-based system timer.
//!
//! The decrementer and the time base count at the bus clock / 4: 40.5 MHz
//! on GameCube, 60.75 MHz on Wii. The decrementer interrupts when it
//! crosses zero; each interrupt is one tick. A 60 Hz tick on GameCube
//! reloads it with `40_500_000 / 60 = 675_000`. Conversions to wall time
//! take the platform's rate.

use vstd::prelude::*;

verus! {

/// Decrementer reload value for 60 Hz on GameCube.
pub const DEC_60HZ_GC: u32 = 675_000;
/// Decrementer reload value for 50 Hz (PAL) on GameCube.
pub const DEC_50HZ_GC: u32 = 810_000;
/// Time-base ticks per second on GameCube.
pub const TB_HZ: u64 = 40_500_000;
/// Time-base ticks per second on Wii.
pub const TB_HZ_WII: u64 = 60_750_000;

/// The tick counter and the decrementer reload value.
#[derive(Clone, Copy, Debug, PartialEq, Eq, Structural)]
pub struct Timer {
    pub reload: u32,
    pub ticks: u32,
}

impl Timer {
    /// Start counting from 0 with decrementer reload `reload_value`.
    pub fn init(reload_value: u32) -> (r: Self)
        ensures
            r.reload == reload_value,
            r.ticks == 0,
    {
        Timer { reload: reload_value, ticks: 0 }
    }

    /// One decrementer interrupt: one more tick (wrapping at 2^32). Returns
    /// the value to reload the decrementer with.
    pub fn on_decrementer(&mut self) -> (r: u32)
        ensures
            r == old(self).reload,
            final(self).reload == old(self).reload,
            final(self).ticks == (old(self).ticks + 1) % 0x1_0000_0000,
    {
        self.ticks = if self.ticks == u32::MAX { 0 } else { self.ticks + 1 };
        self.reload
    }
}

/// Ticks counted since `init`.
pub fn ticks(t: &Timer) -> (r: u32)
    ensures
        r == t.ticks,
{
    t.ticks
}

/// Approximate milliseconds since `init` with the time base ticking at
/// `tb_hz` per second: ticks × reload × 1000 (kept modulo 2^64) divided by
/// the rate, truncated to 32 bits.
pub fn millis(t: &Timer, tb_hz: u64) -> (r: u32)
    requires
        tb_hz > 0,
    ensures
        r == (((t.ticks as int * t.reload as int * 1000) % 0x1_0000_0000_0000_0000 / tb_hz as int)
            % 0x1_0000_0000) as u32,
{
    proof {
        assert(t.ticks as int * t.reload as int * 1000 <= 0xFFFF_FFFF * 0xFFFF_FFFF * 1000) by (nonlinear_arith)
            requires
                t.ticks <= 0xFFFF_FFFF,
                t.reload <= 0xFFFF_FFFF,
        ;
    }
    let numer: u128 = (t.ticks as u128 * t.reload as u128 * 1000) % 0x1_0000_0000_0000_0000;
    ((numer / tb_hz as u128) % 0x1_0000_0000) as u32
}

/// The 64-bit time base from two reads of its upper half around one of
/// its lower half; `None` when the upper half changed in between (the
/// reads must be retried).
pub fn tbr64_from(hi0: u32, lo: u32, hi1: u32) -> (r: Option<u64>)
    ensures
        hi0 == hi1 ==> r == Some((hi0 as int * 0x1_0000_0000 + lo as int) as u64),
        hi0 != hi1 ==> r is None,
{
    if hi0 == hi1 {
        Some(hi0 as u64 * 0x1_0000_0000 + lo as u64)
    } else {
        None
    }
}

/// Time-base ticks to wait for `ms` milliseconds at `tb_hz` ticks per
/// second (rounded up).
pub open spec fn ms_ticks(ms: u32, tb_hz: u64) -> int {
    (ms as int * tb_hz as int + 999) / 1000
}

/// Time-base ticks to wait for `us` microseconds at `tb_hz` ticks per
/// second (rounded up: 41 per microsecond at 40.5 MHz).
pub open spec fn us_ticks(us: u32, tb_hz: u64) -> int {
    (us as int * tb_hz as int + 999_999) / 1_000_000
}

/// Time-base ticks from `start` to `now`, across a wrap of the counter.
pub open spec fn elapsed(start: u64, now: u64) -> int {
    (now as int - start as int + 0x1_0000_0000_0000_0000) % 0x1_0000_0000_0000_0000
}

fn elapsed_exec(start: u64, now: u64) -> (r: u64)
    ensures
        r == elapsed(start, now),
{
    if now >= start { now - start } else { (u64::MAX - start) + now + 1 }
}

/// Whether a busy wait of `ms` milliseconds begun at time base `start`
/// is over at time base `now`, the time base ticking at `tb_hz`.
pub fn delay_ms(start: u64, now: u64, ms: u32, tb_hz: u64) -> (r: bool)
    ensures
        r == (elapsed(start, now) >= ms_ticks(ms, tb_hz)),
{
    proof {
        assert(ms as int * tb_hz as int <= 0xFFFF_FFFF * 0xFFFF_FFFF_FFFF_FFFF) by (nonlinear_arith)
            requires
                ms <= 0xFFFF_FFFF,
                tb_hz <= 0xFFFF_FFFF_FFFF_FFFF,
        ;
    }
    let needed: u128 = (ms as u128 * tb_hz as u128 + 999) / 1000;
    elapsed_exec(start, now) as u128 >= needed
}

/// Whether a busy wait of `us` microseconds begun at time base `start`
/// is over at time base `now`, the time base ticking at `tb_hz`.
pub fn delay_us(start: u64, now: u64, us: u32, tb_hz: u64) -> (r: bool)
    ensures
        r == (elapsed(start, now) >= us_ticks(us, tb_hz)),
{
    proof {
        assert(us as int * tb_hz as int <= 0xFFFF_FFFF * 0xFFFF_FFFF_FFFF_FFFF) by (nonlinear_arith)
            requires
                us <= 0xFFFF_FFFF,
                tb_hz <= 0xFFFF_FFFF_FFFF_FFFF,
        ;
    }
    let needed: u128 = (us as u128 * tb_hz as u128 + 999_999) / 1_000_000;
    elapsed_exec(start, now) as u128 >= needed
}

/// Waiting longer never undoes a finished wait: once over at `now`, a
/// wait is over at any later time base that has not run past a full
/// counter period.
pub proof fn delay_monotone_law(start: u64, now: u64, later: u64, ms: u32, tb_hz: u64)
    requires
        elapsed(start, now) >= ms_ticks(ms, tb_hz),
        elapsed(start, now) <= elapsed(start, later),
    ensures
        elapsed(start, later) >= ms_ticks(ms, tb_hz),
{
}

} // verus!

//! The video interface: display modes, the register block and the register
//! values that select a framebuffer and a display configuration.

use vstd::prelude::*;

verus! {

/// Number of 16-bit VI registers.
pub const VI_REG_COUNT: usize = 64;

/// Supported TV standards.
#[derive(Clone, Copy, PartialEq, Eq, Debug, Structural)]
pub enum TvMode {
    /// 480 lines, 60 Hz.
    Ntsc,
    /// 576 lines, 50 Hz.
    Pal,
    /// NTSC lines with a PAL subcarrier.
    Mpal,
}

/// Scan mode.
#[derive(Clone, Copy, PartialEq, Eq, Debug, Structural)]
pub enum ScanMode {
    /// Two fields per frame.
    Interlaced,
    /// A full frame each vsync.
    Progressive,
}

/// A display configuration.
#[derive(Clone, Copy, PartialEq, Eq, Debug, Structural)]
pub struct VideoMode {
    pub tv: TvMode,
    pub scan: ScanMode,
    /// Active width in pixels (a multiple of 16).
    pub fb_width: u32,
    /// Active height in lines.
    pub fb_height: u32,
    /// Horizontal origin in VI pixels.
    pub vi_x_origin: u16,
    /// Vertical origin in VI lines.
    pub vi_y_origin: u16,
    /// Output width.
    pub vi_width: u16,
    /// Output height in lines.
    pub vi_height: u16,
}

/// NTSC 480i, the standard mode: 640×480 centred in 720 pixels.
pub fn ntsc_480i_mode() -> (r: VideoMode)
    ensures
        r == (VideoMode {
            tv: TvMode::Ntsc,
            scan: ScanMode::Interlaced,
            fb_width: 640,
            fb_height: 480,
            vi_x_origin: 40,
            vi_y_origin: 0,
            vi_width: 640,
            vi_height: 480,
        }),
{
    VideoMode {
        tv: TvMode::Ntsc,
        scan: ScanMode::Interlaced,
        fb_width: 640,
        fb_height: 480,
        vi_x_origin: 40,
        vi_y_origin: 0,
        vi_width: 640,
        vi_height: 480,
    }
}

/// The VI register block.
pub struct ViRegs {
    regs: [u16; 64],
}

impl ViRegs {
    pub closed spec fn spec_regs(&self) -> Seq<u16> {
        self.regs@
    }

    /// A block with every register zero.
    pub fn new() -> (r: ViRegs)
        ensures
            r.spec_regs() == Seq::new(64, |i: int| 0u16),
    {
        let r = ViRegs { regs: [0u16; 64] };
        assert(r.regs@ =~= Seq::new(64, |i: int| 0u16));
        r
    }

    /// Register `n`.
    pub fn read(&self, n: usize) -> (r: u16)
        requires
            n < VI_REG_COUNT,
        ensures
            r == self.spec_regs()[n as int],
    {
        self.regs[n]
    }

    /// Set register `n`.
    pub fn write(&mut self, n: usize, val: u16)
        requires
            n < VI_REG_COUNT,
        ensures
            final(self).spec_regs() == old(self).spec_regs().update(n as int, val),
    {
        self.regs[n] = val;
    }
}

/// The address of a register block, shared between contexts of a
/// single-core program.
pub struct SyncPtr(pub usize);

impl SyncPtr {
    /// The address.
    pub fn get(&self) -> (r: usize)
        ensures
            r == self.0,
    {
        self.0
    }
}

/// The register writes that point the display at the framebuffer at
/// address `xfb` (its bottom field `stride` bytes further): top and bottom
/// field base addresses in 32-byte units, high and low halves, and the
/// framebuffer width.
pub open spec fn fb_plan(xfb: u32, stride: u32) -> Seq<(usize, u16)> {
    let phys = xfb as int % 0x2000_0000;
    let t = phys / 32;
    let b = (phys + stride) / 32;
    seq![
        (14usize, ((t / 0x1_0000) % 0x100) as u16),
        (15usize, (t % 0x1_0000) as u16),
        (18usize, ((b / 0x1_0000) % 0x100) as u16),
        (19usize, (b % 0x1_0000) as u16),
        (56usize, 640u16),
    ]
}

/// The framebuffer register writes, in order.
pub fn framebuffer_regs(xfb: u32, stride: u32) -> (r: Vec<(usize, u16)>)
    requires
        xfb as int % 0x2000_0000 + stride <= u32::MAX,
    ensures
        r@ == fb_plan(xfb, stride),
{
    let phys = xfb & 0x1FFF_FFFF;
    assert(phys == xfb % 0x2000_0000) by (bit_vector)
        requires
            phys == xfb & 0x1FFF_FFFF,
    ;
    let t = phys >> 5u32;
    let b = (phys + stride) >> 5u32;
    let bs = phys + stride;
    assert(t == phys / 32) by (bit_vector)
        requires
            t == phys >> 5u32,
    ;
    assert(b == bs / 32) by (bit_vector)
        requires
            b == bs >> 5u32,
    ;
    let t_hi = ((t >> 16u32) & 0xFF) as u16;
    let t_lo = (t & 0xFFFF) as u16;
    let b_hi = ((b >> 16u32) & 0xFF) as u16;
    let b_lo = (b & 0xFFFF) as u16;
    assert(t_hi == (t / 0x1_0000) % 0x100 && t_lo == t % 0x1_0000) by (bit_vector)
        requires
            t_hi == ((t >> 16u32) & 0xFF) as u16,
            t_lo == (t & 0xFFFF) as u16,
    ;
    assert(b_hi == (b / 0x1_0000) % 0x100 && b_lo == b % 0x1_0000) by (bit_vector)
        requires
            b_hi == ((b >> 16u32) & 0xFF) as u16,
            b_lo == (b & 0xFFFF) as u16,
    ;
    let r = vec![(14usize, t_hi), (15usize, t_lo), (18usize, b_hi), (19usize, b_lo), (56usize, 640u16)];
    assert(r@ =~= fb_plan(xfb, stride));
    r
}

/// Point the display at the framebuffer at address `xfb`.
pub fn set_framebuffer(regs: &mut ViRegs, xfb: u32, stride: u32)
    requires
        xfb as int % 0x2000_0000 + stride <= u32::MAX,
    ensures
        final(regs).spec_regs() == old(regs).spec_regs().update(14, fb_plan(xfb, stride)[0].1).update(
            15,
            fb_plan(xfb, stride)[1].1,
        ).update(18, fb_plan(xfb, stride)[2].1).update(19, fb_plan(xfb, stride)[3].1).update(56, 640u16),
{
    let w = framebuffer_regs(xfb, stride);
    regs.write(14, w[0].1);
    regs.write(15, w[1].1);
    regs.write(18, w[2].1);
    regs.write(19, w[3].1);
    regs.write(56, w[4].1);
}

/// The display configuration register for `mode`: the TV standard in
/// bits 8–9, interlace in bit 2, enable in bit 0.
pub open spec fn spec_dcr(mode: VideoMode) -> u16 {
    let tv: u16 = match mode.tv {
        TvMode::Ntsc => 0,
        TvMode::Pal => 1,
        TvMode::Mpal => 2,
    };
    let il: u16 = match mode.scan {
        ScanMode::Interlaced => 1,
        ScanMode::Progressive => 0,
    };
    (tv * 0x100 + il * 4 + 1) as u16
}

/// The display configuration register enables the display (bit 0), sets
/// interlace in bit 2 for interlaced scan, and names the TV standard in
/// bits 8–9: NTSC 0, PAL 1, MPAL 2; every other bit is clear.
pub proof fn dcr_law(mode: VideoMode)
    ensures
        spec_dcr(mode) % 2 == 1,
        (spec_dcr(mode) / 2) % 2 == 0,
        (spec_dcr(mode) / 4) % 2 == (if mode.scan == ScanMode::Interlaced { 1int } else { 0 }),
        (spec_dcr(mode) % 0x100) / 8 == 0,
        spec_dcr(mode) / 0x100 == (match mode.tv {
            TvMode::Ntsc => 0int,
            TvMode::Pal => 1,
            TvMode::Mpal => 2,
        }),
{
}

/// The display configuration register value for `mode`.
pub fn dcr(mode: &VideoMode) -> (r: u16)
    ensures
        r == spec_dcr(*mode),
{
    let vi_mode: u16 = match mode.tv {
        TvMode::Ntsc => 0,
        TvMode::Pal => 1,
        TvMode::Mpal => 2,
    };
    let interlace: u16 = match mode.scan {
        ScanMode::Interlaced => 1,
        ScanMode::Progressive => 0,
    };
    let r = (vi_mode << 8u16) | (interlace << 2u16) | 0x0001;
    assert(r == vi_mode * 0x100 + interlace * 4 + 1) by (bit_vector)
        requires
            vi_mode <= 2,
            interlace <= 1,
            r == (vi_mode << 8u16) | (interlace << 2u16) | 0x0001,
    ;
    r
}


/// Video timing of a TV standard.
#[derive(Clone, Copy, PartialEq, Eq, Debug, Structural)]
pub struct Timing {
    /// Equalization pulses.
    pub equ: u8,
    /// Active video lines per field.
    pub acv: u16,
    pub prb_odd: u16,
    pub prb_even: u16,
    pub psb_odd: u16,
    pub psb_even: u16,
    pub bs1: u8,
    pub bs2: u8,
    pub bs3: u8,
    pub bs4: u8,
    pub be1: u16,
    pub be2: u16,
    pub be3: u16,
    pub be4: u16,
    /// Half lines per frame.
    pub nhlines: u16,
    /// Half-line width.
    pub hlw: u16,
    pub hsy: u8,
    pub hcs: u8,
    pub hce: u8,
    pub hbe640: u16,
    pub hbs640: u16,
}

/// `n` modulo 2^16.
pub open spec fn wrap16(n: int) -> u16 {
    (n % 0x1_0000) as u16
}

/// The register writes that configure the VI for `mode` with `timing`, in
/// order: a reset pulse, horizontal timing, equalization, vertical
/// blanking of both fields, burst blanking, display interrupts, and last
/// the display configuration.
pub open spec fn configure_plan(mode: VideoMode, t: Timing) -> Seq<(usize, u16)> {
    let acv2m2 = wrap16(wrap16(t.acv * 2) - 2 + 0x1_0000);
    seq![
        (1usize, 0x0002u16),
        (1usize, 0x0000u16),
        (2usize, (t.hcs as int * 0x100 + t.hce as int) as u16),
        (3usize, t.hlw),
        (4usize, wrap16(t.hbs640 * 2)),
        (5usize, wrap16(t.hbe640 * 0x80) | (t.hsy as u16)),
        (0usize, t.equ as u16),
        (6usize, wrap16(t.psb_odd + 2)),
        (7usize, wrap16(t.prb_odd + acv2m2)),
        (8usize, wrap16(t.psb_even + 2)),
        (9usize, wrap16(t.prb_even + acv2m2)),
        (10usize, wrap16(t.be3 * 0x20) | (t.bs3 as u16)),
        (11usize, wrap16(t.be1 * 0x20) | (t.bs1 as u16)),
        (12usize, wrap16(t.be4 * 0x20) | (t.bs4 as u16)),
        (13usize, wrap16(t.be2 * 0x20) | (t.bs2 as u16)),
        (24usize, 0x1000u16 | wrap16(t.nhlines / 2 + 1)),
        (25usize, wrap16(t.hlw + 1)),
        (26usize, 0x1001u16),
        (27usize, 0x0001u16),
        (36usize, 0x2828u16),
        (1usize, spec_dcr(mode)),
    ]
}

/// Registers `regs` after the writes `w`, in order.
pub open spec fn after_writes(regs: Seq<u16>, w: Seq<(usize, u16)>) -> Seq<u16>
    decreases w.len(),
{
    if w.len() == 0 {
        regs
    } else {
        after_writes(regs, w.drop_last()).update(w.last().0 as int, w.last().1)
    }
}

fn shl16(v: u16, k: u32) -> (r: u16)
    requires
        k == 1 || k == 5 || k == 7,
    ensures
        r == wrap16(v * (if k == 1 { 2int } else if k == 5 { 32int } else { 128int })),
{
    let r = ((v as u32) << k) as u16;
    if k == 1 {
        assert(r == ((v as u32 * 2) % 0x1_0000) as u16) by (bit_vector)
            requires
                r == ((v as u32) << k) as u16,
                k == 1,
        ;
    } else if k == 5 {
        assert(r == ((v as u32 * 32) % 0x1_0000) as u16) by (bit_vector)
            requires
                r == ((v as u32) << k) as u16,
                k == 5,
        ;
    } else {
        assert(r == ((v as u32 * 128) % 0x1_0000) as u16) by (bit_vector)
            requires
                r == ((v as u32) << k) as u16,
                k == 7,
        ;
    }
    r
}

/// Configure the VI for `mode` with `timing`.
pub fn configure(regs: &mut ViRegs, mode: &VideoMode, timing: &Timing)
    ensures
        final(regs).spec_regs() == after_writes(old(regs).spec_regs(), configure_plan(*mode, *timing)),
{
    let t = timing;
    let acv2 = shl16(t.acv, 1);
    let acv2m2 = acv2.wrapping_sub(2);
    assert(acv2m2 == wrap16(wrap16(t.acv * 2) - 2 + 0x1_0000));
    let v2 = (t.hcs as u16) * 0x100 + t.hce as u16;
    let v6 = t.psb_odd.wrapping_add(2);
    assert(v6 == wrap16(t.psb_odd + 2));
    let v7 = t.prb_odd.wrapping_add(acv2m2);
    assert(v7 == wrap16(t.prb_odd + acv2m2));
    let v8 = t.psb_even.wrapping_add(2);
    assert(v8 == wrap16(t.psb_even + 2));
    let v9 = t.prb_even.wrapping_add(acv2m2);
    assert(v9 == wrap16(t.prb_even + acv2m2));
    let half = (t.nhlines / 2).wrapping_add(1);
    assert(half == wrap16(t.nhlines / 2 + 1));
    let v25 = t.hlw.wrapping_add(1);
    assert(v25 == wrap16(t.hlw + 1));
    let w: Vec<(usize, u16)> = vec![
        (1usize, 0x0002u16),
        (1usize, 0x0000u16),
        (2usize, v2),
        (3usize, t.hlw),
        (4usize, shl16(t.hbs640, 1)),
        (5usize, shl16(t.hbe640, 7) | (t.hsy as u16)),
        (0usize, t.equ as u16),
        (6usize, v6),
        (7usize, v7),
        (8usize, v8),
        (9usize, v9),
        (10usize, shl16(t.be3, 5) | (t.bs3 as u16)),
        (11usize, shl16(t.be1, 5) | (t.bs1 as u16)),
        (12usize, shl16(t.be4, 5) | (t.bs4 as u16)),
        (13usize, shl16(t.be2, 5) | (t.bs2 as u16)),
        (24usize, 0x1000u16 | half),
        (25usize, v25),
        (26usize, 0x1001u16),
        (27usize, 0x0001u16),
        (36usize, 0x2828u16),
        (1usize, dcr(mode)),
    ];
    assert(w@ =~= configure_plan(*mode, *timing));
    let mut i: usize = 0;
    while i < w.len()
        invariant
            i <= w@.len(),
            w@ == configure_plan(*mode, *timing),
            forall|k: int| 0 <= k < w@.len() ==> (#[trigger] w@[k]).0 < VI_REG_COUNT,
            regs.spec_regs() == after_writes(old(regs).spec_regs(), w@.subrange(0, i as int)),
        decreases w@.len() - i,
    {
        regs.write(w[i].0, w[i].1);
        assert(w@.subrange(0, i + 1).drop_last() =~= w@.subrange(0, i as int));
        i = i + 1;
    }
    assert(w@.subrange(0, i as int) =~= w@);
}

} // verus!

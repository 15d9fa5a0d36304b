//! The graphics command stream: the bytes the CPU writes to the GX FIFO
//! through the write-gather pipe, and the register loads that set up
//! vertex formats, the rasteriser, the pixel engine, the texture
//! environment and the EFB-to-XFB copy.
//!
//! Commands are big-endian: a BP register load is `0x61` and the 32-bit
//! word (register address in the top byte); a CP load `0x08`, the
//! address and the word; an XF load `0x10`, the address word and the
//! value.

use vstd::prelude::*;
use crate::bytes::{be16_bytes, be32_bytes};
use super::gx::{primitive_code_law, vtx_fmt_code_law, BlendFactor, BlendMode, Compare, CullMode, PixelFmt, Primitive, VtxFmt, CA_RASA, CA_ZERO, CC_RASC, CC_ZERO};

verus! {

/// A BP register load.
pub open spec fn bp(v: u32) -> Seq<u8> {
    seq![0x61u8] + be32_bytes(v)
}

/// A CP register load.
pub open spec fn cp(addr: u8, v: u32) -> Seq<u8> {
    seq![0x08u8, addr] + be32_bytes(v)
}

/// An XF register load.
pub open spec fn xf(addr: u16, v: u32) -> Seq<u8> {
    seq![0x10u8] + be32_bytes(addr as u32) + be32_bytes(v)
}

/// Register loads as the command processor reads them: a BP load is opcode
/// 0x61 then the 32-bit value (register address in its top byte), a CP
/// load opcode 0x08, the register byte, then the value, and an XF load
/// opcode 0x10, a 32-bit word with the register count less one (zero for
/// one register) in its top half and the address in its bottom half, then
/// the value; every word big-endian, so its four bytes give the word back.
pub proof fn register_load_law(addr8: u8, addr16: u16, v: u32)
    ensures
        bp(v) == seq![0x61u8, (v / 0x100_0000) as u8, ((v / 0x1_0000) % 0x100) as u8, ((v / 0x100) % 0x100) as u8, (v % 0x100) as u8],
        cp(addr8, v) == seq![0x08u8, addr8, (v / 0x100_0000) as u8, ((v / 0x1_0000) % 0x100) as u8, ((v / 0x100) % 0x100) as u8, (v
            % 0x100) as u8],
        xf(addr16, v) == seq![0x10u8, 0u8, 0u8, (addr16 / 0x100) as u8, (addr16 % 0x100) as u8, (v / 0x100_0000) as u8, ((v
            / 0x1_0000) % 0x100) as u8, ((v / 0x100) % 0x100) as u8, (v % 0x100) as u8],
        bp(v)[1] * 0x100_0000 + bp(v)[2] * 0x1_0000 + bp(v)[3] * 0x100 + bp(v)[4] == v,
{
    assert(bp(v) =~= seq![0x61u8, (v / 0x100_0000) as u8, ((v / 0x1_0000) % 0x100) as u8, ((v / 0x100) % 0x100) as u8, (v % 0x100) as u8]);
    assert(cp(addr8, v) =~= seq![0x08u8, addr8, (v / 0x100_0000) as u8, ((v / 0x1_0000) % 0x100) as u8, ((v / 0x100) % 0x100) as u8, (v
        % 0x100) as u8]);
    let a = addr16 as u32;
    assert(a / 0x100_0000 == 0 && (a / 0x1_0000) % 0x100 == 0 && (a / 0x100) % 0x100 == addr16 / 0x100 && a % 0x100
        == addr16 % 0x100);
    assert(xf(addr16, v) =~= seq![0x10u8, 0u8, 0u8, (addr16 / 0x100) as u8, (addr16 % 0x100) as u8, (v / 0x100_0000) as u8, ((v
        / 0x1_0000) % 0x100) as u8, ((v / 0x100) % 0x100) as u8, (v % 0x100) as u8]);
    let q1 = v as int / 0x100;
    let q2 = q1 / 0x100;
    vstd::arithmetic::div_mod::lemma_fundamental_div_mod(v as int, 0x100);
    vstd::arithmetic::div_mod::lemma_fundamental_div_mod(q1, 0x100);
    vstd::arithmetic::div_mod::lemma_fundamental_div_mod(q2, 0x100);
    vstd::arithmetic::div_mod::lemma_div_denominator(v as int, 0x100, 0x100);
    vstd::arithmetic::div_mod::lemma_div_denominator(q1, 0x100, 0x100);
    vstd::arithmetic::div_mod::lemma_div_denominator(v as int, 0x100, 0x1_0000);
    assert(q2 / 0x100 < 0x100);
    vstd::arithmetic::div_mod::lemma_small_mod((q2 / 0x100) as nat, 0x100);
}

/// The command stream written so far.
pub struct GxFifo {
    bytes: Vec<u8>,
}

impl View for GxFifo {
    type V = Seq<u8>;

    closed spec fn view(&self) -> Seq<u8> {
        self.bytes@
    }
}

/// The opcode byte `begin` writes names its primitive and vertex format
/// alone: its top five bits are the primitive's code and its low three the
/// format's, so two different (primitive, format) pairs never share it.
pub proof fn draw_opcode_law(p: Primitive, f: VtxFmt, q: Primitive, g: VtxFmt)
    ensures
        (p.spec_code() | (f.spec_code() & 7)) & 0xF8 == p.spec_code(),
        (p.spec_code() | (f.spec_code() & 7)) & 7 == f.spec_code(),
        (p.spec_code() | (f.spec_code() & 7)) == (q.spec_code() | (g.spec_code() & 7)) ==> p == q && f == g,
{
    primitive_code_law(p, q);
    primitive_code_law(q, p);
    vtx_fmt_code_law(f, g);
    vtx_fmt_code_law(g, f);
    let a = p.spec_code();
    let b = f.spec_code();
    let c = q.spec_code();
    let d = g.spec_code();
    assert((a | (b & 7)) & 0xF8 == a && (a | (b & 7)) & 7 == b && (c | (d & 7)) & 0xF8 == c && (c | (d & 7)) & 7 == d)
        by (bit_vector)
        requires
            a & 7 == 0,
            b < 8,
            c & 7 == 0,
            d < 8,
    ;
}

impl GxFifo {
    /// An empty stream.
    pub fn new() -> (r: Self)
        ensures
            r@ == Seq::<u8>::empty(),
    {
        GxFifo { bytes: Vec::new() }
    }

    /// The bytes written.
    pub fn bytes(&self) -> (r: &[u8])
        ensures
            r@ == self@,
    {
        self.bytes.as_slice()
    }

    pub fn write8(&mut self, v: u8)
        ensures
            final(self)@ == old(self)@.push(v),
    {
        self.bytes.push(v);
    }

    pub fn write16(&mut self, v: u16)
        ensures
            final(self)@ == old(self)@ + be16_bytes(v),
    {
        self.bytes.push((v / 0x100) as u8);
        self.bytes.push((v % 0x100) as u8);
        assert(self@ =~= old(self)@ + be16_bytes(v));
    }

    pub fn write32(&mut self, v: u32)
        ensures
            final(self)@ == old(self)@ + be32_bytes(v),
    {
        self.bytes.push((v / 0x100_0000) as u8);
        self.bytes.push(((v / 0x1_0000) % 0x100) as u8);
        self.bytes.push(((v / 0x100) % 0x100) as u8);
        self.bytes.push((v % 0x100) as u8);
        assert(self@ =~= old(self)@ + be32_bytes(v));
    }

    /// Load a BP register: address in the top byte of `val`.
    pub fn load_bp_reg(&mut self, val: u32)
        ensures
            final(self)@ == old(self)@ + bp(val),
    {
        self.write8(0x61);
        self.write32(val);
        assert(self@ =~= old(self)@ + bp(val));
    }

    /// Load CP register `addr`.
    pub fn load_cp_reg(&mut self, addr: u8, val: u32)
        ensures
            final(self)@ == old(self)@ + cp(addr, val),
    {
        self.write8(0x08);
        self.write8(addr);
        self.write32(val);
        assert(self@ =~= old(self)@ + cp(addr, val));
    }

    /// Load XF register `addr`.
    pub fn load_xf_reg(&mut self, addr: u16, val: u32)
        ensures
            final(self)@ == old(self)@ + xf(addr, val),
    {
        self.write8(0x10);
        self.write32(addr as u32);
        self.write32(val);
        assert(self@ =~= old(self)@ + xf(addr, val));
    }

    /// Start loading `count` consecutive XF registers from `addr`; the
    /// values follow.
    pub fn load_xf_regs(&mut self, addr: u16, count: u16)
        requires
            count >= 1,
        ensures
            final(self)@ == old(self)@ + seq![0x10u8] + be32_bytes(((count - 1) * 0x1_0000 + addr) as u32),
    {
        self.write8(0x10);
        self.write32((count - 1) as u32 * 0x1_0000 + addr as u32);
        assert(self@ =~= old(self)@ + seq![0x10u8] + be32_bytes(((count - 1) * 0x1_0000 + addr) as u32));
    }

    /// Invalidate the vertex cache.
    pub fn inv_vtx_cache(&mut self)
        ensures
            final(self)@ == old(self)@.push(0x48),
    {
        self.write8(0x48);
    }

    // ── Vertex descriptors and formats ──────────────────────────────────

    /// No vertex attribute.
    pub fn clear_vtx_desc(&mut self)
        ensures
            final(self)@ == old(self)@ + cp(0x50, 0) + cp(0x60, 0),
    {
        self.load_cp_reg(0x50, 0);
        self.load_cp_reg(0x60, 0);
    }

    /// Position and colour 0, both direct; one colour per vertex.
    pub fn set_vtx_desc_pos_clr0(&mut self)
        ensures
            final(self)@ == old(self)@ + cp(0x50, 0x2200) + cp(0x60, 0) + xf(0x1008, 1),
    {
        self.load_cp_reg(0x50, 0x2200);
        self.load_cp_reg(0x60, 0);
        self.load_xf_reg(0x1008, 0x01);
    }

    /// Position only, direct.
    pub fn set_vtx_desc_pos_only(&mut self)
        ensures
            final(self)@ == old(self)@ + cp(0x50, 0x0200) + cp(0x60, 0) + xf(0x1008, 0),
    {
        self.load_cp_reg(0x50, 0x0200);
        self.load_cp_reg(0x60, 0);
        self.load_xf_reg(0x1008, 0x00);
    }

    /// Vertex format `fmt`: XYZ float positions and RGBA8 colours.
    pub fn set_vtx_fmt_pos_xyz_f32_clr_rgba8(&mut self, fmt: VtxFmt)
        ensures
            final(self)@ == old(self)@ + cp((0x70 + fmt.spec_code()) as u8, 0x4001_6009) + cp(
                (0x80 + fmt.spec_code()) as u8,
                0x8000_0000,
            ) + cp((0x90 + fmt.spec_code()) as u8, 0),
    {
        let f = fmt.code();
        self.load_cp_reg(0x70 + f, 0x4000_0000 + 5 * 0x4000 + 0x2000 + 4 * 2 + 1);
        self.load_cp_reg(0x80 + f, 0x8000_0000);
        self.load_cp_reg(0x90 + f, 0);
    }

    /// Vertex format `fmt`: XYZ float positions only.
    pub fn set_vtx_fmt_pos_xyz_f32(&mut self, fmt: VtxFmt)
        ensures
            final(self)@ == old(self)@ + cp((0x70 + fmt.spec_code()) as u8, 0x4000_0009) + cp(
                (0x80 + fmt.spec_code()) as u8,
                0x8000_0000,
            ) + cp((0x90 + fmt.spec_code()) as u8, 0),
    {
        let f = fmt.code();
        self.load_cp_reg(0x70 + f, 0x4000_0000 + 4 * 2 + 1);
        self.load_cp_reg(0x80 + f, 0x8000_0000);
        self.load_cp_reg(0x90 + f, 0);
    }

    /// Use position matrix `pnidx` (its low 6 bits).
    pub fn set_current_mtx(&mut self, pnidx: u32)
        ensures
            final(self)@ == old(self)@ + xf(0x1018, pnidx % 64),
    {
        let v = pnidx & 0x3F;
        assert(v == pnidx % 64) by (bit_vector)
            requires
                v == pnidx & 0x3F,
        ;
        self.load_xf_reg(0x1018, v);
    }

    // ── Rasteriser and pixel engine ──────────────────────────────────────

    /// Scissor box of `w`×`h` pixels at (`x`, `y`): corners packed as
    /// `y << 10 | x`.
    pub fn set_scissor(&mut self, x: u32, y: u32, w: u32, h: u32)
        requires
            1 <= x + w <= u32::MAX,
            1 <= y + h <= u32::MAX,
        ensures
            final(self)@ == old(self)@ + bp(0x2000_0000 | ((y << 10u32) | x)) + bp(
                0x2100_0000 | ((((y + h - 1) as u32) << 10u32) | ((x + w - 1) as u32)),
            ),
    {
        self.load_bp_reg(0x2000_0000 | ((y << 10u32) | x));
        self.load_bp_reg(0x2100_0000 | (((y + h - 1) << 10u32) | (x + w - 1)));
    }

    /// Back-face culling: GEN_MODE with the mode in bits 13–14.
    pub fn set_cull_mode(&mut self, mode: CullMode)
        ensures
            final(self)@ == old(self)@ + bp((mode.spec_code() as int * 0x2000) as u32),
    {
        self.load_bp_reg(mode.code() as u32 * 0x2000);
    }

    /// Depth test: enable in bit 0, the comparison in bits 1–3, depth
    /// writes in bit 4.
    pub fn set_z_mode(&mut self, enable: bool, func: Compare, update: bool)
        ensures
            final(self)@ == old(self)@ + bp(
                (0x4000_0000 + (if enable { 1int } else { 0 }) + func.spec_code() as int * 2 + (if update {
                    16int
                } else {
                    0
                })) as u32,
            ),
    {
        let e: u32 = if enable { 1 } else { 0 };
        let u: u32 = if update { 16 } else { 0 };
        self.load_bp_reg(0x4000_0000 + e + func.code() as u32 * 2 + u);
    }

    /// Blending: blend (bit 0, also for subtract), logic op (bit 1),
    /// subtract (bit 11), destination factor in bits 5–7, source factor in
    /// bits 8–10.
    pub fn set_blend_mode(&mut self, mode: BlendMode, src: BlendFactor, dst: BlendFactor)
        ensures
            final(self)@ == old(self)@ + bp(
                (0x4100_0000 + (if mode is Blend || mode is Subtract { 1int } else { 0 }) + (if mode is Subtract {
                    0x800int
                } else {
                    0
                }) + (if mode is Logic { 2int } else { 0 }) + dst.spec_code() as int * 0x20 + src.spec_code() as int
                    * 0x100) as u32,
            ),
    {
        let mut val: u32 = 0;
        if matches!(mode, BlendMode::Blend | BlendMode::Subtract) {
            val = val + 1;
        }
        if matches!(mode, BlendMode::Subtract) {
            val = val + 0x800;
        }
        if matches!(mode, BlendMode::Logic) {
            val = val + 2;
        }
        val = val + dst.code() as u32 * 0x20;
        val = val + src.code() as u32 * 0x100;
        self.load_bp_reg(0x4100_0000 + val);
    }

    /// Pixel format of the embedded framebuffer.
    pub fn set_pixel_fmt(&mut self, fmt: PixelFmt)
        ensures
            final(self)@ == old(self)@ + bp((0x4300_0000 + fmt.spec_code() as int) as u32),
    {
        self.load_bp_reg(0x4300_0000 + fmt.code() as u32);
    }

    // ── Texture environment and colour channels ─────────────────────────

    /// `n` active TEV stages (1 to 16).
    pub fn set_num_tev_stages(&mut self, n: u8)
        requires
            n >= 1,
        ensures
            final(self)@ == old(self)@ + bp(((n - 1) % 16) as u32),
    {
        self.load_bp_reg(((n - 1) % 16) as u32);
    }

    /// TEV stage 0 passes the vertex colour and alpha through: inputs A, B
    /// and C zero, D the rasterised value, clamped, to the previous
    /// register.
    pub fn set_tev_passthrough_vtx_color(&mut self)
        ensures
            final(self)@ == old(self)@ + bp(0xC008_FFFA) + bp(0xC108_FFD0),
    {
        let color_env: u32 = CC_ZERO as u32 * 0x1000 + CC_ZERO as u32 * 0x100 + CC_ZERO as u32 * 0x10 + CC_RASC as u32
            + 0x8_0000;
        self.load_bp_reg(0xC000_0000 + color_env);
        let alpha_env: u32 = CA_ZERO as u32 * 0x2000 + CA_ZERO as u32 * 0x400 + CA_ZERO as u32 * 0x80 + CA_RASA as u32
            * 0x10 + 0x8_0000;
        self.load_bp_reg(0xC100_0000 + alpha_env);
    }

    /// TEV stage 0 reads colour channel 0 and no texture.
    pub fn set_tev_order_vtx_only(&mut self)
        ensures
            final(self)@ == old(self)@ + bp(0xE000_01CF),
    {
        self.load_bp_reg(0xE000_0000 + 0xF + 0x7 * 0x40);
    }

    /// `n` colour channels out of the transform unit.
    pub fn set_num_color_chans(&mut self, n: u8)
        ensures
            final(self)@ == old(self)@ + xf(0x100E, n as u32),
    {
        self.load_xf_reg(0x100E, n as u32);
    }

    /// Colour channel 0 (colour and alpha) takes the vertex colour, no
    /// lighting.
    pub fn set_chan_ctrl_vtx_color(&mut self)
        ensures
            final(self)@ == old(self)@ + xf(0x100F, 2) + xf(0x1011, 2),
    {
        self.load_xf_reg(0x100F, 2);
        self.load_xf_reg(0x1011, 2);
    }

    /// `n` texture-coordinate generators.
    pub fn set_num_tex_gens(&mut self, n: u32)
        ensures
            final(self)@ == old(self)@ + xf(0x103F, n),
    {
        self.load_xf_reg(0x103F, n);
    }

    // ── EFB to XFB copy ──────────────────────────────────────────────────

    /// The colour and depth the copy clears to.
    pub fn set_copy_clear(&mut self, r: u8, g: u8, b: u8, a: u8, z: u32)
        ensures
            final(self)@ == old(self)@ + bp((0x4F00_0000 + a as int * 0x100 + r as int) as u32) + bp(
                (0x5000_0000 + g as int * 0x100 + b as int) as u32,
            ) + bp((0x5100_0000 + z as int % 0x100_0000) as u32),
    {
        self.load_bp_reg(0x4F00_0000 + a as u32 * 0x100 + r as u32);
        self.load_bp_reg(0x5000_0000 + g as u32 * 0x100 + b as u32);
        self.load_bp_reg(0x5100_0000 + z % 0x100_0000);
    }

    /// The EFB region copied: top-left corner, then size less one, each
    /// packed as `y << 10 | x`.
    pub fn set_disp_copy_src(&mut self, x: u16, y: u16, w: u16, h: u16)
        requires
            w >= 1,
            h >= 1,
        ensures
            final(self)@ == old(self)@ + bp(0x4900_0000 | ((y as u32) << 10u32) | (x as u32)) + bp(
                0x4A00_0000 | (((h - 1) as u32) << 10u32) | ((w - 1) as u32),
            ),
    {
        self.load_bp_reg(0x4900_0000 | ((y as u32) << 10u32) | (x as u32));
        self.load_bp_reg(0x4A00_0000 | (((h - 1) as u32) << 10u32) | ((w - 1) as u32));
    }

    /// The copy's destination stride: `w / 16`, 10 bits.
    pub fn set_disp_copy_dst(&mut self, w: u16, h: u16)
        ensures
            final(self)@ == old(self)@ + bp((0x4B00_0000 + (w / 16) % 0x400) as u32),
    {
        self.load_bp_reg(0x4B00_0000 + (w as u32 / 16) % 0x400);
    }

    /// Copy the EFB to the framebuffer at physical address `dest_phys`,
    /// clearing the EFB after it when `clear` is set (with depth testing
    /// forced to always-pass and blending off meanwhile, then restored).
    pub fn copy_disp(&mut self, dest_phys: u32, clear: bool)
        ensures
            final(self)@ == old(self)@ + (if clear { bp(0x400F_000F) + bp(0x4100_0000) } else { Seq::empty() }) + bp(
                (0x4B00_0000 + (dest_phys / 32) % 0x100_0000) as u32,
            ) + bp(if clear { 0x5200_4803u32 } else { 0x5200_4003u32 }) + (if clear {
                bp(0x4000_0007) + bp(0x4100_0000)
            } else {
                Seq::empty()
            }),
    {
        let ghost s0 = self@;
        if clear {
            self.load_bp_reg(0x400F_000F);
            self.load_bp_reg(0x4100_0000);
        }
        let ghost s1 = self@;
        self.load_bp_reg(0x4B00_0000 + (dest_phys / 32) % 0x100_0000);
        self.load_bp_reg(if clear { 0x5200_4803 } else { 0x5200_4003 });
        if clear {
            self.load_bp_reg(0x4000_0007);
            self.load_bp_reg(0x4100_0000);
        }
        assert(s1 =~= s0 + (if clear { bp(0x400F_000F) + bp(0x4100_0000) } else { Seq::empty() }));
        assert(self@ =~= s0 + (if clear { bp(0x400F_000F) + bp(0x4100_0000) } else { Seq::empty() }) + bp(
            (0x4B00_0000 + (dest_phys / 32) % 0x100_0000) as u32,
        ) + bp(if clear { 0x5200_4803u32 } else { 0x5200_4003u32 }) + (if clear {
            bp(0x4000_0007) + bp(0x4100_0000)
        } else {
            Seq::empty()
        }));
    }

    // ── Drawing ──────────────────────────────────────────────────────────

    /// Start a primitive of `count` vertices in format `fmt`.
    pub fn begin(&mut self, prim: Primitive, fmt: VtxFmt, count: u16)
        ensures
            final(self)@ == old(self)@ + seq![prim.spec_code() | (fmt.spec_code() & 7)] + be16_bytes(count),
    {
        self.write8(prim.code() | (fmt.code() & 7));
        self.write16(count);
        assert(self@ =~= old(self)@ + seq![prim.spec_code() | (fmt.spec_code() & 7)] + be16_bytes(count));
    }

    /// A vertex colour, RGBA8.
    pub fn color4u8(&mut self, r: u8, g: u8, b: u8, a: u8)
        ensures
            final(self)@ == old(self)@ + seq![r, g, b, a],
    {
        let packed: u32 = r as u32 * 0x100_0000 + g as u32 * 0x1_0000 + b as u32 * 0x100 + a as u32;
        assert((packed / 0x100_0000) as u8 == r && ((packed / 0x1_0000) % 0x100) as u8 == g && ((packed / 0x100) % 0x100)
            as u8 == b && (packed % 0x100) as u8 == a) by (bit_vector)
            requires
                packed == r as u32 * 0x100_0000 + g as u32 * 0x1_0000 + b as u32 * 0x100 + a as u32,
        ;
        self.write32(packed);
        assert(be32_bytes(packed) =~= seq![r, g, b, a]);
    }

    /// A vertex colour, opaque.
    pub fn color3u8(&mut self, r: u8, g: u8, b: u8)
        ensures
            final(self)@ == old(self)@ + seq![r, g, b, 0xFFu8],
    {
        self.color4u8(r, g, b, 0xFF);
    }
}

} // verus!

//! Framebuffer graphics: YCbCr pixel pairs, the external framebuffer the
//! video interface scans out, and a scrolling text console drawn into it.
//!
//! The framebuffer stores two pixels per 32-bit word as `[Y0, Cb, Y1, Cr]`
//! (big-endian); both pixels share the chroma.

use vstd::prelude::*;

pub mod console;

verus! {

/// A pixel pair in YCbCr 4:2:2: `[Y0, Cb, Y1, Cr]`.
#[derive(Clone, Copy, Debug, PartialEq, Eq, Structural)]
pub struct YcbcrPair(pub u32);

/// The word of a pixel pair from its components.
pub open spec fn pair_word(y0: u8, cb: u8, y1: u8, cr: u8) -> u32 {
    (y0 as int * 0x100_0000 + cb as int * 0x1_0000 + y1 as int * 0x100 + cr as int) as u32
}

/// A pixel-pair word holds its four components big-endian: the left
/// pixel's luma in the top byte, then blue chroma, the right pixel's luma,
/// and red chroma in the low byte.
pub proof fn pair_word_law(y0: u8, cb: u8, y1: u8, cr: u8)
    ensures
        pair_word(y0, cb, y1, cr) / 0x100_0000 == y0,
        (pair_word(y0, cb, y1, cr) / 0x1_0000) % 0x100 == cb,
        (pair_word(y0, cb, y1, cr) / 0x100) % 0x100 == y1,
        pair_word(y0, cb, y1, cr) % 0x100 == cr,
{
    let w = y0 as int * 0x100_0000 + cb as int * 0x1_0000 + y1 as int * 0x100 + cr as int;
    assert(0 <= w < 0x1_0000_0000);
    vstd::arithmetic::div_mod::lemma_fundamental_div_mod_converse(w, 0x100_0000, y0 as int, cb as int * 0x1_0000 + y1 as int
        * 0x100 + cr as int);
    vstd::arithmetic::div_mod::lemma_fundamental_div_mod_converse(w, 0x1_0000, y0 as int * 0x100 + cb as int, y1 as int
        * 0x100 + cr as int);
    vstd::arithmetic::div_mod::lemma_fundamental_div_mod_converse(y0 as int * 0x100 + cb as int, 0x100, y0 as int, cb as int);
    vstd::arithmetic::div_mod::lemma_fundamental_div_mod_converse(w, 0x100, y0 as int * 0x1_0000 + cb as int * 0x100
        + y1 as int, cr as int);
    vstd::arithmetic::div_mod::lemma_fundamental_div_mod_converse(y0 as int * 0x1_0000 + cb as int * 0x100 + y1 as int,
        0x100, y0 as int * 0x100 + cb as int, y1 as int);
}

impl YcbcrPair {
    /// A pixel pair from its components.
    pub fn new(y0: u8, cb: u8, y1: u8, cr: u8) -> (r: Self)
        ensures
            r.0 == pair_word(y0, cb, y1, cr),
    {
        YcbcrPair(y0 as u32 * 0x100_0000 + cb as u32 * 0x1_0000 + y1 as u32 * 0x100 + cr as u32)
    }

    /// White (Y=235, Cb=Cr=128).
    pub fn white() -> (r: Self)
        ensures
            r.0 == WHITE,
    {
        YcbcrPair(WHITE)
    }

    /// Black (Y=16, Cb=Cr=128).
    pub fn black() -> (r: Self)
        ensures
            r.0 == BLACK,
    {
        YcbcrPair(BLACK)
    }

    /// Grey (Y=128, Cb=Cr=128).
    pub fn grey() -> (r: Self)
        ensures
            r.0 == GREY,
    {
        YcbcrPair(GREY)
    }
}

/// Colour words (BT.601 conversions of the named RGB colours).
pub const BLACK: u32 = 0x1080_1080;
pub const WHITE: u32 = 0xEB80_EB80;
pub const GREY: u32 = 0x8080_8080;
pub const RED: u32 = 0x515A_51F0;
pub const GREEN: u32 = 0x9136_9122;
pub const BLUE: u32 = 0x29F0_296E;
pub const YELLOW: u32 = 0xD210_D292;
pub const CYAN: u32 = 0xAAA6_AA10;
pub const MAGENTA: u32 = 0x6ACA_6ADE;
pub const DARK_GREY: u32 = 0x4680_4680;
pub const LIGHT_GREY: u32 = 0xB480_B480;

/// External framebuffer: `height` scanlines of `width / 2` words.
pub struct Xfb {
    words: Vec<u32>,
    width: u32,
    height: u32,
    stride: u32,
}

impl Xfb {
    pub closed spec fn spec_words(&self) -> Seq<u32> {
        self.words@
    }

    pub closed spec fn spec_width(&self) -> u32 {
        self.width
    }

    pub closed spec fn spec_height(&self) -> u32 {
        self.height
    }

    /// Words per scanline.
    pub open spec fn spec_stride(&self) -> int {
        self.spec_width() as int / 2
    }

    /// Width even, sizes fitting 32 bits, one word per pixel pair.
    pub closed spec fn wf(&self) -> bool {
        &&& self.width % 2 == 0
        &&& self.width as int * self.height as int * 2 <= u32::MAX
        &&& self.stride == self.width / 2
        &&& self.words@.len() == self.stride as int * self.height as int
    }

    /// An all-zero framebuffer of `width` × `height` pixels.
    pub fn new(width: u32, height: u32) -> (r: Self)
        requires
            width % 2 == 0,
            width as int * height as int * 2 <= u32::MAX,
        ensures
            r.wf(),
            r.spec_width() == width,
            r.spec_height() == height,
            r.spec_words() == Seq::new((width / 2) as nat * height as nat, |i: int| 0u32),
    {
        let stride = width / 2;
        proof {
            assert(stride as int * height as int <= width as int * height as int) by (nonlinear_arith)
                requires
                    stride as int <= width as int,
            ;
        }
        let n = (stride * height) as usize;
        let words = vec![0u32; n];
        assert(words@ =~= Seq::new((width / 2) as nat * height as nat, |i: int| 0u32));
        Xfb { words, width, height, stride }
    }

    /// Width in pixels.
    pub fn width(&self) -> (r: u32)
        ensures
            r == self.spec_width(),
    {
        self.width
    }

    /// Height in scanlines.
    pub fn height(&self) -> (r: u32)
        ensures
            r == self.spec_height(),
    {
        self.height
    }

    /// Size in bytes.
    pub fn byte_len(&self) -> (r: usize)
        requires
            self.wf(),
        ensures
            r == self.spec_width() as int * self.spec_height() as int * 2,
    {
        (self.width * self.height * 2) as usize
    }

    /// Word `i` of the framebuffer.
    pub fn word(&self, i: usize) -> (r: u32)
        requires
            self.wf(),
            i < self.spec_words().len(),
        ensures
            r == self.spec_words()[i as int],
    {
        self.words[i]
    }

    /// Fill the framebuffer with `color`.
    pub fn clear(&mut self, color: YcbcrPair)
        requires
            old(self).wf(),
        ensures
            final(self).wf(),
            final(self).spec_width() == old(self).spec_width(),
            final(self).spec_height() == old(self).spec_height(),
            final(self).spec_words() == Seq::new(old(self).spec_words().len(), |i: int| color.0),
    {
        let n = self.words.len();
        let mut i: usize = 0;
        while i < n
            invariant
                n == self.words@.len(),
                self.wf(),
                self.width == old(self).width,
                self.height == old(self).height,
                i <= n,
                forall|k: int| 0 <= k < i ==> self.words@[k] == color.0,
            decreases n - i,
        {
            self.words.set(i, color.0);
            i = i + 1;
        }
        assert(self.words@ =~= Seq::new(old(self).spec_words().len(), |i: int| color.0));
    }

    /// Write the pixel pair at even column `col` of scanline `row`.
    pub fn write_pair(&mut self, col: u32, row: u32, color: YcbcrPair)
        requires
            old(self).wf(),
            row < old(self).spec_height(),
            col / 2 < old(self).spec_stride(),
        ensures
            final(self).wf(),
            final(self).spec_width() == old(self).spec_width(),
            final(self).spec_height() == old(self).spec_height(),
            final(self).spec_words() == old(self).spec_words().update(
                row as int * old(self).spec_stride() + col as int / 2,
                color.0,
            ),
    {
        proof {
            assert(row as int * self.stride as int + col as int / 2 < self.stride as int * self.height as int) by (nonlinear_arith)
                requires
                    row < self.height,
                    col as int / 2 < self.stride as int,
            ;
            assert(self.stride as int * self.height as int <= self.width as int * self.height as int) by (nonlinear_arith)
                requires
                    self.stride as int <= self.width as int,
            ;
            assert(row as int * self.stride as int <= self.stride as int * self.height as int) by (nonlinear_arith)
                requires
                    row < self.height,
            ;
        }
        let offset = (row * self.stride + col / 2) as usize;
        self.words.set(offset, color.0);
    }

    /// Replace the words in a range (used by the console).
    pub(crate) fn set_word(&mut self, i: usize, w: u32)
        requires
            old(self).wf(),
            i < old(self).spec_words().len(),
        ensures
            final(self).wf(),
            final(self).spec_width() == old(self).spec_width(),
            final(self).spec_height() == old(self).spec_height(),
            final(self).spec_words() == old(self).spec_words().update(i as int, w),
    {
        self.words.set(i, w);
    }
}

} // verus!

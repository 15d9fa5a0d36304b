//! Scrolling text console drawn into the framebuffer with 8×8 glyphs: a
//! 640×480 framebuffer gives 80 columns by 60 rows.
//!
//! `\n` starts a new line, `\r` returns to column 0, any other byte draws
//! its glyph and advances; reaching the bottom scrolls the framebuffer up
//! by one text row, filling the new row with the background colour.

use vstd::prelude::*;
use vstd::string::StringSliceAdditionalSpecFns;
use crate::gfx::{Xfb, YcbcrPair};
use crate::text::str_bytes;
use vstd::arithmetic::div_mod::{lemma_fundamental_div_mod_converse};

verus! {

/// Glyph width and height in pixels.
pub const GLYPH_W: u32 = 8;
pub const GLYPH_H: u32 = 8;

/// Bit `k` (7 = leftmost pixel) of a glyph row.
pub open spec fn glyph_bit(bits: u8, k: int) -> bool {
    (bits as int / vstd::arithmetic::power2::pow2(k as nat) as int) % 2 == 1
}

/// The framebuffer word for pixel pair `pair` (0 to 3) of a glyph row:
/// luma and blue chroma from the left pixel's colour, luma and red chroma
/// from the right pixel's.
pub open spec fn glyph_word(bits: u8, pair: int, fg: u32, bg: u32) -> u32 {
    let left = if glyph_bit(bits, 7 - 2 * pair) { fg } else { bg };
    let right = if glyph_bit(bits, 6 - 2 * pair) { fg } else { bg };
    ((left as int / 0x1_0000) * 0x1_0000 + right as int % 0x1_0000) as u32
}

/// `words` with the glyph `g` drawn in text cell (`col`, `row`) of a
/// framebuffer `stride` words wide.
pub open spec fn draw_spec(words: Seq<u32>, stride: int, col: int, row: int, g: Seq<u8>, fg: u32, bg: u32) -> Seq<u32> {
    Seq::new(words.len(), |i: int| {
        let rr = i / stride - row * 8;
        let cc = i % stride - col * 4;
        if 0 <= rr < 8 && 0 <= cc < 4 { glyph_word(g[rr], cc, fg, bg) } else { words[i] }
    })
}

/// `words` scrolled up by one text row (8 scanlines of `stride` words),
/// the bottom row filled with `bg`.
pub open spec fn scroll_spec(words: Seq<u32>, stride: int, bg: u32) -> Seq<u32> {
    Seq::new(words.len(), |i: int| if i + stride * 8 < words.len() { words[i + stride * 8] } else { bg })
}

/// The state of a console.
pub struct ConsoleView {
    pub words: Seq<u32>,
    pub col: u32,
    pub row: u32,
    pub cols: u32,
    pub rows: u32,
    pub fg: u32,
    pub bg: u32,
    pub stride: int,
}

/// Move to the next line, scrolling at the bottom.
pub open spec fn next_line_spec(v: ConsoleView) -> ConsoleView {
    if v.row + 1 >= v.rows {
        ConsoleView { words: scroll_spec(v.words, v.stride, v.bg), row: (v.rows - 1) as u32, ..v }
    } else {
        ConsoleView { row: (v.row + 1) as u32, ..v }
    }
}

/// Print byte `c` with font `font`.
pub open spec fn putchar_spec(v: ConsoleView, font: Seq<[u8; 8]>, c: u8) -> ConsoleView {
    if c == 0x0A {
        next_line_spec(ConsoleView { col: 0, ..v })
    } else if c == 0x0D {
        ConsoleView { col: 0, ..v }
    } else {
        let drawn = ConsoleView {
            words: draw_spec(v.words, v.stride, v.col as int, v.row as int, font[c as int]@, v.fg, v.bg),
            ..v
        };
        if v.col + 1 >= v.cols {
            next_line_spec(ConsoleView { col: 0, ..drawn })
        } else {
            ConsoleView { col: (v.col + 1) as u32, ..drawn }
        }
    }
}

/// Print the bytes of `s` in order.
pub open spec fn print_spec(v: ConsoleView, font: Seq<[u8; 8]>, s: Seq<u8>) -> ConsoleView
    decreases s.len(),
{
    if s.len() == 0 { v } else { putchar_spec(print_spec(v, font, s.drop_last()), font, s.last()) }
}

/// Scrolling text console over an owned framebuffer.
pub struct Console {
    xfb: Xfb,
    font: Vec<[u8; 8]>,
    col: u32,
    row: u32,
    cols: u32,
    rows: u32,
    fg: YcbcrPair,
    bg: YcbcrPair,
}

impl View for Console {
    type V = ConsoleView;

    closed spec fn view(&self) -> ConsoleView {
        ConsoleView {
            words: self.xfb.spec_words(),
            col: self.col,
            row: self.row,
            cols: self.cols,
            rows: self.rows,
            fg: self.fg.0,
            bg: self.bg.0,
            stride: self.xfb.spec_stride(),
        }
    }
}

impl Console {
    /// The glyphs.
    pub closed spec fn spec_font(&self) -> Seq<[u8; 8]> {
        self.font@
    }

    /// A console that can draw: its framebuffer holds at least one text
    /// cell and the cursor is inside the text area.
    pub closed spec fn wf(&self) -> bool {
        &&& self.xfb.wf()
        &&& self.font@.len() == 256
        &&& self.cols == self.xfb.spec_width() / GLYPH_W
        &&& self.rows == self.xfb.spec_height() / GLYPH_H
        &&& self.cols >= 1
        &&& self.rows >= 1
        &&& self.col < self.cols
        &&& self.row < self.rows
    }

    /// A console over `xfb` drawing with the 256 glyphs of `font`, white on
    /// black, cursor at the top left.
    pub fn new(xfb: Xfb, font: Vec<[u8; 8]>) -> (r: Self)
        requires
            xfb.wf(),
            font@.len() == 256,
            xfb.spec_width() >= 8,
            xfb.spec_height() >= 8,
        ensures
            r.wf(),
            r@.words == xfb.spec_words(),
            r@.col == 0 && r@.row == 0,
            r@.cols == xfb.spec_width() / 8,
            r@.rows == xfb.spec_height() / 8,
            r@.fg == crate::gfx::WHITE && r@.bg == crate::gfx::BLACK,
            r@.stride == xfb.spec_stride(),
            r.spec_font() == font@,
    {
        let cols = xfb.width() / GLYPH_W;
        let rows = xfb.height() / GLYPH_H;
        Console { xfb, font, col: 0, row: 0, cols, rows, fg: YcbcrPair::white(), bg: YcbcrPair::black() }
    }

    /// The framebuffer.
    pub fn xfb(&self) -> (r: &Xfb)
        ensures
            r.spec_words() == self@.words,
    {
        &self.xfb
    }

    /// Cursor position (column, row) in text cells.
    pub fn cursor(&self) -> (r: (u32, u32))
        ensures
            r == (self@.col, self@.row),
    {
        (self.col, self.row)
    }

    /// Set the text colour.
    pub fn set_fg(&mut self, color: YcbcrPair)
        ensures
            final(self)@ == (ConsoleView { fg: color.0, ..old(self)@ }),
            final(self).spec_font() == old(self).spec_font(),
            old(self).wf() ==> final(self).wf(),
    {
        self.fg = color;
    }

    /// Set the background colour.
    pub fn set_bg(&mut self, color: YcbcrPair)
        ensures
            final(self)@ == (ConsoleView { bg: color.0, ..old(self)@ }),
            final(self).spec_font() == old(self).spec_font(),
            old(self).wf() ==> final(self).wf(),
    {
        self.bg = color;
    }

    /// Fill the screen with the background colour and home the cursor.
    pub fn clear(&mut self)
        requires
            old(self).wf(),
        ensures
            final(self).wf(),
            final(self).spec_font() == old(self).spec_font(),
            final(self)@ == (ConsoleView {
                words: Seq::new(old(self)@.words.len(), |i: int| old(self)@.bg),
                col: 0,
                row: 0,
                ..old(self)@
            }),
    {
        let bg = self.bg;
        self.xfb.clear(bg);
        self.col = 0;
        self.row = 0;
    }

    /// Scroll the framebuffer up by one text row.
    fn scroll_up(&mut self)
        requires
            old(self).wf(),
        ensures
            final(self).wf(),
            final(self).spec_font() == old(self).spec_font(),
            final(self)@ == (ConsoleView { words: scroll_spec(old(self)@.words, old(self)@.stride, old(self)@.bg), ..old(self)@ }),
    {
        let w = self.xfb.width();
        let h = self.xfb.height();
        let stride = (w / 2) as usize;
        let ghost old_words = self@.words;
        proof {
            assert(stride as int * h as int <= w as int * h as int) by (nonlinear_arith)
                requires
                    stride as int <= w as int,
            ;
            assert(stride as int * 8 <= stride as int * h as int) by (nonlinear_arith)
                requires
                    8 <= h,
            ;
        }
        let total = stride * h as usize;
        let shift = stride * 8;
        let bg = self.bg.0;
        let mut i: usize = 0;
        while i < total - shift
            invariant
                self.xfb.wf(),
                self.font@ == old(self).font@,
                self.xfb.spec_width() == w,
                self.xfb.spec_height() == h,
                self.col == old(self).col,
                self.row == old(self).row,
                self.cols == old(self).cols,
                self.rows == old(self).rows,
                self.fg == old(self).fg,
                self.bg == old(self).bg,
                bg == self.bg.0,
                stride == self.xfb.spec_stride(),
                total == old_words.len(),
                shift == stride * 8,
                shift <= total,
                self.xfb.spec_words().len() == total,
                i <= total - shift,
                forall|k: int| 0 <= k < i ==> self.xfb.spec_words()[k] == old_words[k + shift],
                forall|k: int| i <= k < total ==> self.xfb.spec_words()[k] == old_words[k],
            decreases total - shift - i,
        {
            let v = self.xfb.word(i + shift);
            self.xfb.set_word(i, v);
            i = i + 1;
        }
        while i < total
            invariant
                self.xfb.wf(),
                self.font@ == old(self).font@,
                self.xfb.spec_width() == w,
                self.xfb.spec_height() == h,
                self.col == old(self).col,
                self.row == old(self).row,
                self.cols == old(self).cols,
                self.rows == old(self).rows,
                self.fg == old(self).fg,
                self.bg == old(self).bg,
                bg == self.bg.0,
                stride == self.xfb.spec_stride(),
                total == old_words.len(),
                shift == stride * 8,
                shift <= total,
                self.xfb.spec_words().len() == total,
                total - shift <= i <= total,
                forall|k: int| 0 <= k < total - shift ==> self.xfb.spec_words()[k] == old_words[k + shift],
                forall|k: int| total - shift <= k < i ==> self.xfb.spec_words()[k] == bg,
            decreases total - i,
        {
            self.xfb.set_word(i, bg);
            i = i + 1;
        }
        assert(self.xfb.spec_words() =~= scroll_spec(old_words, stride as int, bg));
    }

    /// Move to the next line, scrolling at the bottom.
    fn next_line(&mut self)
        requires
            old(self).wf(),
        ensures
            final(self).wf(),
            final(self).spec_font() == old(self).spec_font(),
            final(self)@ == next_line_spec(old(self)@),
    {
        if self.row + 1 >= self.rows {
            self.scroll_up();
            self.row = self.rows - 1;
        } else {
            self.row = self.row + 1;
        }
    }

    /// Draw the glyph of `c` in the cursor cell.
    fn draw_glyph(&mut self, c: u8)
        requires
            old(self).wf(),
        ensures
            final(self).wf(),
            final(self).spec_font() == old(self).spec_font(),
            final(self)@ == (ConsoleView {
                words: draw_spec(
                    old(self)@.words,
                    old(self)@.stride,
                    old(self)@.col as int,
                    old(self)@.row as int,
                    old(self).spec_font()[c as int]@,
                    old(self)@.fg,
                    old(self)@.bg,
                ),
                ..old(self)@
            }),
    {
        let bitmap = self.font[c as usize];
        let w = self.xfb.width();
        let h = self.xfb.height();
        let stride = (w / 2) as usize;
        let fg = self.fg.0;
        let bg = self.bg.0;
        let col = self.col as usize;
        let row = self.row as usize;
        let ghost old_words = self@.words;
        let ghost target = draw_spec(old_words, stride as int, col as int, row as int, bitmap@, fg, bg);
        proof {
            assert(stride as int * h as int <= w as int * h as int) by (nonlinear_arith)
                requires
                    stride as int <= w as int,
            ;
            assert(col * 4 + 4 <= stride) by (nonlinear_arith)
                requires
                    col < w as int / 8,
                    stride == w as int / 2,
            ;
            assert(row * 8 + 8 <= h) by (nonlinear_arith)
                requires
                    row < h as int / 8,
            ;
        }
        let mut r: usize = 0;
        while r < 8
            invariant
                self.xfb.wf(),
                self.font@ == old(self).font@,
                self.xfb.spec_width() == w,
                self.xfb.spec_height() == h,
                self.col == old(self).col,
                self.row == old(self).row,
                self.cols == old(self).cols,
                self.rows == old(self).rows,
                self.fg == old(self).fg,
                self.bg == old(self).bg,
                stride == w as int / 2,
                stride as int * h as int <= w as int * h as int,
                w as int * h as int * 2 <= u32::MAX,
                col * 4 + 4 <= stride,
                row * 8 + 8 <= h,
                col == self.col,
                row == self.row,
                fg == self.fg.0,
                bg == self.bg.0,
                old_words == old(self)@.words,
                target == draw_spec(old_words, stride as int, col as int, row as int, bitmap@, fg, bg),
                self.xfb.spec_words().len() == old_words.len(),
                old_words.len() == stride as int * h as int,
                r <= 8,
                forall|i: int| 0 <= i < old_words.len() && i / (stride as int) < row * 8 + r ==> self.xfb.spec_words()[i] == target[i],
                forall|i: int| 0 <= i < old_words.len() && i / (stride as int) >= row * 8 + r ==> self.xfb.spec_words()[i] == old_words[i],
            decreases 8 - r,
        {
            let bits = bitmap[r];
            let mut pair: usize = 0;
            while pair < 4
                invariant
                    self.xfb.wf(),
                    self.font@ == old(self).font@,
                    self.xfb.spec_width() == w,
                    self.xfb.spec_height() == h,
                    self.col == old(self).col,
                    self.row == old(self).row,
                    self.cols == old(self).cols,
                    self.rows == old(self).rows,
                    self.fg == old(self).fg,
                    self.bg == old(self).bg,
                    stride == w as int / 2,
                    stride as int * h as int <= w as int * h as int,
                    w as int * h as int * 2 <= u32::MAX,
                    col * 4 + 4 <= stride,
                    row * 8 + 8 <= h,
                    r < 8,
                    bits == bitmap@[r as int],
                    fg == self.fg.0,
                    bg == self.bg.0,
                    target == draw_spec(old_words, stride as int, col as int, row as int, bitmap@, fg, bg),
                    self.xfb.spec_words().len() == old_words.len(),
                    old_words.len() == stride as int * h as int,
                    pair <= 4,
                    forall|i: int| 0 <= i < old_words.len() && i / (stride as int) < row * 8 + r ==> self.xfb.spec_words()[i] == target[i],
                    forall|i: int| 0 <= i < old_words.len() && i / (stride as int) == row * 8 + r && i % (stride as int) < col * 4 + pair ==> self.xfb.spec_words()[i] == target[i],
                    forall|i: int| 0 <= i < old_words.len() && i / (stride as int) == row * 8 + r && i % (stride as int) >= col * 4 + pair ==> self.xfb.spec_words()[i] == old_words[i],
                    forall|i: int| 0 <= i < old_words.len() && i / (stride as int) > row * 8 + r ==> self.xfb.spec_words()[i] == old_words[i],
                decreases 4 - pair,
            {
                let word = glyph_word_exec(bits, pair, fg, bg);
                let line = row * 8 + r;
                proof {
                    assert(line * stride + col * 4 + pair < stride * h) by (nonlinear_arith)
                        requires
                            line < h,
                            col * 4 + pair < stride,
                    ;
                    assert(line * stride <= stride * h) by (nonlinear_arith)
                        requires
                            line < h,
                    ;
                }
                let idx = line * stride + col * 4 + pair;
                proof {
                    lemma_fundamental_div_mod_converse(idx as int, stride as int, line as int, (col * 4 + pair) as int);
                }
                let ghost before = self.xfb.spec_words();
                self.xfb.set_word(idx, word);
                proof {
                    assert forall|i: int| 0 <= i < old_words.len() && i / (stride as int) == row * 8 + r && i % (stride as int) < col * 4 + pair + 1 implies self.xfb.spec_words()[i] == target[i] by {
                        if i != idx {
                            vstd::arithmetic::div_mod::lemma_fundamental_div_mod(i, stride as int);
                            assert(i % (stride as int) < col * 4 + pair);
                            assert(before[i] == target[i]);
                        }
                    }
                }
                pair = pair + 1;
            }
            proof {
                assert forall|i: int| 0 <= i < old_words.len() && i / (stride as int) == row * 8 + r implies self.xfb.spec_words()[i] == target[i] by {
                    let cc = i % (stride as int);
                    if cc < col * 4 {
                    } else if cc >= col * 4 + 4 {
                        assert(self.xfb.spec_words()[i] == old_words[i]);
                    }
                }
            }
            r = r + 1;
        }
        assert(self.xfb.spec_words() =~= target);
    }

    /// Print one byte: `\n` starts a new line, `\r` returns to column 0,
    /// anything else draws its glyph and advances.
    pub fn putchar(&mut self, c: u8)
        requires
            old(self).wf(),
        ensures
            final(self).wf(),
            final(self).spec_font() == old(self).spec_font(),
            final(self)@ == putchar_spec(old(self)@, old(self).spec_font(), c),
    {
        if c == 0x0A {
            self.col = 0;
            self.next_line();
        } else if c == 0x0D {
            self.col = 0;
        } else {
            self.draw_glyph(c);
            if self.col + 1 >= self.cols {
                self.col = 0;
                self.next_line();
            } else {
                self.col = self.col + 1;
            }
        }
    }

    /// Print bytes as text.
    pub fn print(&mut self, s: &[u8])
        requires
            old(self).wf(),
        ensures
            final(self).wf(),
            final(self).spec_font() == old(self).spec_font(),
            final(self)@ == print_spec(old(self)@, old(self).spec_font(), s@),
    {
        let mut i: usize = 0;
        while i < s.len()
            invariant
                self.wf(),
                self.spec_font() == old(self).spec_font(),
                i <= s@.len(),
                self@ == print_spec(old(self)@, old(self).spec_font(), s@.subrange(0, i as int)),
            decreases s@.len() - i,
        {
            assert(s@.subrange(0, i + 1).drop_last() =~= s@.subrange(0, i as int));
            self.putchar(s[i]);
            i = i + 1;
        }
        assert(s@.subrange(0, i as int) =~= s@);
    }

    /// Print a string.
    pub fn print_str(&mut self, s: &str)
        requires
            old(self).wf(),
        ensures
            final(self).wf(),
            final(self).spec_font() == old(self).spec_font(),
            final(self)@ == print_spec(old(self)@, old(self).spec_font(), s.spec_bytes()),
    {
        self.print(str_bytes(s));
    }
}

fn glyph_word_exec(bits: u8, pair: usize, fg: u32, bg: u32) -> (r: u32)
    requires
        pair < 4,
    ensures
        r == glyph_word(bits, pair as int, fg, bg),
{
    let kl: u32 = (7 - 2 * pair) as u32;
    let kr: u32 = (6 - 2 * pair) as u32;
    let dl: u32 = if kl == 7 { 128 } else if kl == 5 { 32 } else if kl == 3 { 8 } else { 2 };
    let dr: u32 = if kr == 6 { 64 } else if kr == 4 { 16 } else if kr == 2 { 4 } else { 1 };
    proof {
        vstd::arithmetic::power2::lemma2_to64();
    }
    let left = if (bits as u32 / dl) % 2 == 1 { fg } else { bg };
    let right = if (bits as u32 / dr) % 2 == 1 { fg } else { bg };
    (left / 0x1_0000) * 0x1_0000 + right % 0x1_0000
}

/// The cursor stays inside the text area whatever is printed.
pub proof fn cursor_law(v: ConsoleView, font: Seq<[u8; 8]>, s: Seq<u8>)
    requires
        v.cols >= 1,
        v.rows >= 1,
        v.col < v.cols,
        v.row < v.rows,
    ensures
        print_spec(v, font, s).col < v.cols,
        print_spec(v, font, s).row < v.rows,
        print_spec(v, font, s).cols == v.cols,
        print_spec(v, font, s).rows == v.rows,
        print_spec(v, font, s).words.len() == v.words.len(),
    decreases s.len(),
{
    if s.len() > 0 {
        cursor_law(v, font, s.drop_last());
    }
}

} // verus!

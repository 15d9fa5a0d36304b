//! Crash screen: the report of a fatal exception (cause, registers and a
//! back-chain stack trace) as coloured text lines, and its scrollable
//! display.
//!
//! The report is built into a [`LineBuffer`] of at most 256 lines of 80
//! bytes. The stack is walked through a word reader supplied by the
//! caller, since reading the stack is raw memory access.

use vstd::prelude::*;
use vstd::string::StringSliceAdditionalSpecFns;
use crate::gfx::{YcbcrPair, pair_word, BLACK, CYAN, DARK_GREY, LIGHT_GREY, RED, WHITE, YELLOW};
use crate::gfx::console::{Console, ConsoleView, print_spec};
use crate::rt::exception::{ExcCtx, Exception};
use crate::text::{first_index, find_from, lemma_first_index_unique, str_bytes, utf8_str};
use self::fmt::{dec, dec02, dec_left2, dec_right3, hex8, push_bytes, push_dec, push_dec02, push_dec_left2, push_dec_right3, push_hex8, push_str};

pub mod fmt;

verus! {

/// Most lines a report holds.
pub const MAX_LINES: usize = 256;
/// Bytes per line.
pub const LINE_LEN: usize = 80;
/// Lowest and one past the highest stack address (MEM1).
pub const STACK_BOTTOM: u32 = 0x8000_0000;
pub const STACK_TOP: u32 = 0x8180_0000;
/// Most frames the stack walk follows.
pub const MAX_FRAMES: u32 = 32;
/// Text rows shown at once.
pub const VISIBLE_ROWS: usize = 60;
/// Rows the scroll limit leaves for the header.
pub const ROWS_PER_SCREEN: i32 = 55;

/// A report line: its colour and its 80 stored bytes.
pub type Line = (YcbcrPair, Seq<u8>);

/// `n` spaces.
pub open spec fn spaces(n: int) -> Seq<u8> {
    Seq::new(n as nat, |i: int| 32u8)
}

/// How many bytes of `s` fit a line.
pub open spec fn fit(s: Seq<u8>) -> int {
    if s.len() < LINE_LEN { s.len() as int } else { LINE_LEN as int }
}

/// The stored bytes of a line written as a string: its first 80 bytes, a
/// NUL when shorter, the rest blank.
pub open spec fn str_line(s: Seq<u8>) -> Seq<u8> {
    if fit(s) < LINE_LEN {
        s.subrange(0, fit(s)) + seq![0u8] + spaces(LINE_LEN - fit(s) - 1)
    } else {
        s.subrange(0, LINE_LEN as int)
    }
}

/// The stored bytes of a line written as formatted text: its first 80
/// bytes, the rest blank.
pub open spec fn text_line(s: Seq<u8>) -> Seq<u8> {
    s.subrange(0, fit(s)) + spaces(LINE_LEN - fit(s))
}

/// The first 256 lines of `s`.
pub open spec fn capped(s: Seq<Line>) -> Seq<Line> {
    if s.len() > MAX_LINES { s.subrange(0, MAX_LINES as int) } else { s }
}

pub proof fn lemma_capped_push(s: Seq<Line>, x: Line)
    ensures
        capped(capped(s).push(x)) == capped(s.push(x)),
{
    assert(capped(capped(s).push(x)) =~= capped(s.push(x)));
}

pub proof fn lemma_capped_concat(s: Seq<Line>, t: Seq<Line>)
    ensures
        capped(capped(s) + t) == capped(s + t),
{
    assert(capped(capped(s) + t) =~= capped(s + t));
}

fn blank_line() -> (r: Vec<u8>)
    ensures
        r@ == spaces(LINE_LEN as int),
{
    let mut v: Vec<u8> = Vec::new();
    let mut i: usize = 0;
    while i < LINE_LEN
        invariant
            i <= LINE_LEN,
            v@ == spaces(i as int),
        decreases LINE_LEN - i,
    {
        v.push(32);
        i = i + 1;
        assert(v@ =~= spaces(i as int));
    }
    v
}

/// The crash report: up to 256 coloured lines.
pub struct LineBuffer {
    lines: Vec<Vec<u8>>,
    colors: Vec<YcbcrPair>,
}

impl View for LineBuffer {
    type V = Seq<Line>;

    closed spec fn view(&self) -> Seq<Line> {
        Seq::new(self.lines@.len(), |i: int| (self.colors@[i], self.lines@[i]@))
    }
}

impl LineBuffer {
    pub closed spec fn wf(&self) -> bool {
        &&& self.lines@.len() == self.colors@.len()
        &&& self.lines@.len() <= MAX_LINES
        &&& forall|i: int| 0 <= i < self.lines@.len() ==> (#[trigger] self.lines@[i])@.len() == LINE_LEN
    }

    /// An empty report.
    pub fn new() -> (r: Self)
        ensures
            r.wf(),
            r@ == Seq::<Line>::empty(),
    {
        let r = LineBuffer { lines: Vec::new(), colors: Vec::new() };
        assert(r@ =~= Seq::<Line>::empty());
        r
    }

    /// Number of lines.
    pub fn count(&self) -> (r: usize)
        requires
            self.wf(),
        ensures
            r == self@.len(),
    {
        self.lines.len()
    }

    /// Line `i`: its colour and stored bytes.
    pub fn line(&self, i: usize) -> (r: (YcbcrPair, &[u8]))
        requires
            self.wf(),
            i < self@.len(),
        ensures
            r.0 == self@[i as int].0,
            r.1@ == self@[i as int].1,
    {
        (self.colors[i], self.lines[i].as_slice())
    }

    fn append(&mut self, color: YcbcrPair, line: Vec<u8>)
        requires
            old(self).wf(),
            line@.len() == LINE_LEN,
        ensures
            final(self).wf(),
            final(self)@ == capped(old(self)@.push((color, line@))),
    {
        if self.lines.len() >= MAX_LINES {
            assert(capped(old(self)@.push((color, line@))) =~= old(self)@);
            return;
        }
        self.lines.push(line);
        self.colors.push(color);
        assert(self@ =~= old(self)@.push((color, line@)));
    }

    /// Add a line holding the string `s`: its first 80 bytes, NUL
    /// terminated when shorter. A full report is left as it is.
    pub fn push(&mut self, color: YcbcrPair, s: &str)
        requires
            old(self).wf(),
        ensures
            final(self).wf(),
            final(self)@ == capped(old(self)@.push((color, str_line(s.spec_bytes())))),
    {
        let b = str_bytes(s);
        let mut line = blank_line();
        let n = if b.len() < LINE_LEN { b.len() } else { LINE_LEN };
        let mut i: usize = 0;
        while i < n
            invariant
                n <= LINE_LEN,
                n <= b@.len(),
                i <= n,
                line@.len() == LINE_LEN,
                forall|k: int| 0 <= k < i ==> line@[k] == b@[k],
                forall|k: int| i <= k < LINE_LEN ==> line@[k] == 32u8,
            decreases n - i,
        {
            line.set(i, b[i]);
            i = i + 1;
        }
        if n < LINE_LEN {
            line.set(n, 0);
        }
        assert(line@ =~= str_line(b@));
        self.append(color, line);
    }

    /// Add a line holding the formatted text `text`: its first 80 bytes,
    /// the rest blank. A full report is left as it is.
    pub fn push_fmt(&mut self, color: YcbcrPair, text: &[u8])
        requires
            old(self).wf(),
        ensures
            final(self).wf(),
            final(self)@ == capped(old(self)@.push((color, text_line(text@)))),
    {
        let mut w = LineWriter::new();
        w.write_bytes(text);
        proof {
            w.lemma_line();
        }
        let line = w.into_line();
        assert(line@ =~= text_line(text@));
        self.append(color, line);
    }
}

/// Writes text into one line, dropping what does not fit.
pub struct LineWriter {
    buf: Vec<u8>,
    pos: usize,
}

impl LineWriter {
    pub closed spec fn wf(&self) -> bool {
        self.buf@.len() == LINE_LEN && self.pos <= LINE_LEN
    }

    /// What has been written so far.
    pub closed spec fn written(&self) -> Seq<u8> {
        self.buf@.subrange(0, self.pos as int)
    }

    /// Nothing is stored past what was written.
    pub closed spec fn blank_after(&self) -> bool {
        forall|k: int| self.pos <= k < LINE_LEN ==> self.buf@[k] == 32u8
    }

    /// The line the writer produces: what was written, then blanks.
    pub closed spec fn spec_line(&self) -> Seq<u8> {
        self.written() + spaces(LINE_LEN - self.pos)
    }

    /// An empty line.
    pub fn new() -> (r: Self)
        ensures
            r.wf(),
            r.written() == Seq::<u8>::empty(),
            r.spec_line() == spaces(LINE_LEN as int),
            r.blank_after(),
    {
        let r = LineWriter { buf: blank_line(), pos: 0 };
        assert(r.written() =~= Seq::<u8>::empty());
        assert(r.spec_line() =~= spaces(LINE_LEN as int));
        r
    }

    proof fn lemma_line(&self)
        requires
            self.wf(),
            self.blank_after(),
        ensures
            self.buf@ == self.spec_line(),
    {
        assert(self.buf@ =~= self.spec_line());
    }

    /// Write `b`: as many of its bytes as still fit.
    pub fn write_bytes(&mut self, b: &[u8])
        requires
            old(self).wf(),
        ensures
            final(self).wf(),
            ({
                let all = old(self).written() + b@;
                final(self).written() == all.subrange(0, if all.len() < LINE_LEN { all.len() as int } else { LINE_LEN as int })
            }),
            old(self).blank_after() ==> final(self).blank_after(),
    {
        let ghost w0 = old(self).written();
        let ghost all = w0 + b@;
        let mut i: usize = 0;
        while i < b.len()
            invariant
                self.wf(),
                i <= b@.len(),
                w0 == old(self).written(),
                w0.len() == old(self).pos,
                all == w0 + b@,
                self.pos as int == (if w0.len() + i < LINE_LEN { w0.len() + i } else { LINE_LEN as int }),
                forall|k: int| 0 <= k < self.pos ==> self.buf@[k] == all[k],
                forall|k: int| self.pos <= k < LINE_LEN ==> self.buf@[k] == old(self).buf@[k],
            ensures
                i == b@.len() || self.pos == LINE_LEN,
            decreases b@.len() - i,
        {
            if self.pos >= LINE_LEN {
                break;
            }
            self.buf.set(self.pos, b[i]);
            self.pos = self.pos + 1;
            i = i + 1;
        }
        assert(self.written() =~= all.subrange(0, if all.len() < LINE_LEN { all.len() as int } else { LINE_LEN as int }));
    }

    /// Write the string `s`: as many of its bytes as still fit.
    pub fn write_str(&mut self, s: &str)
        requires
            old(self).wf(),
        ensures
            final(self).wf(),
            ({
                let all = old(self).written() + s.spec_bytes();
                final(self).written() == all.subrange(0, if all.len() < LINE_LEN { all.len() as int } else { LINE_LEN as int })
            }),
            old(self).blank_after() ==> final(self).blank_after(),
    {
        self.write_bytes(str_bytes(s));
    }

    /// What has been written.
    pub fn text(&self) -> (r: &[u8])
        requires
            self.wf(),
        ensures
            r@ == self.written(),
    {
        let (head, _) = self.buf.as_slice().split_at(self.pos);
        head
    }

    fn into_line(self) -> (r: Vec<u8>)
        requires
            self.wf(),
        ensures
            r@.len() == LINE_LEN,
            r@ == self.buf@,
    {
        self.buf
    }
}


/// What a DSI exception's DSISR says happened: the highest cause bit
/// set wins.
pub open spec fn spec_dsi_cause(dsisr: u32) -> &'static str {
    if dsisr & (1u32 << 31u32) != 0 {
        "direct-store error"
    } else if dsisr & (1u32 << 30u32) != 0 {
        "page fault (no translation)"
    } else if dsisr & (1u32 << 27u32) != 0 {
        "protection violation (store to RO)"
    } else if dsisr & (1u32 << 26u32) != 0 {
        "protection violation (load from WO)"
    } else if dsisr & (1u32 << 25u32) != 0 {
        "lwarx/stwcx to cache-inhibited storage"
    } else if dsisr & (1u32 << 24u32) != 0 {
        "alignment exception in l/lfscx"
    } else if dsisr & (1u32 << 23u32) != 0 {
        "data address breakpoint"
    } else if dsisr & (1u32 << 22u32) != 0 {
        "TLB miss on load"
    } else if dsisr & (1u32 << 21u32) != 0 {
        "TLB miss on store"
    } else {
        "unknown DSI cause"
    }
}

/// Decode the cause of a DSI exception.
pub fn dsi_cause(dsisr: u32) -> (r: &'static str)
    ensures
        r == spec_dsi_cause(dsisr),
{
    if dsisr & (1u32 << 31u32) != 0 {
        return "direct-store error";
    }
    if dsisr & (1u32 << 30u32) != 0 {
        return "page fault (no translation)";
    }
    if dsisr & (1u32 << 27u32) != 0 {
        return "protection violation (store to RO)";
    }
    if dsisr & (1u32 << 26u32) != 0 {
        return "protection violation (load from WO)";
    }
    if dsisr & (1u32 << 25u32) != 0 {
        return "lwarx/stwcx to cache-inhibited storage";
    }
    if dsisr & (1u32 << 24u32) != 0 {
        return "alignment exception in l/lfscx";
    }
    if dsisr & (1u32 << 23u32) != 0 {
        return "data address breakpoint";
    }
    if dsisr & (1u32 << 22u32) != 0 {
        return "TLB miss on load";
    }
    if dsisr & (1u32 << 21u32) != 0 {
        return "TLB miss on store";
    }
    "unknown DSI cause"
}

/// The name an exception is reported under.
pub open spec fn spec_exc_name(e: Exception) -> &'static str {
    match e {
        Exception::SystemReset => "SystemReset",
        Exception::MachineCheck => "MachineCheck",
        Exception::Dsi => "Dsi",
        Exception::Isi => "Isi",
        Exception::ExternalInterrupt => "ExternalInterrupt",
        Exception::Alignment => "Alignment",
        Exception::Program => "Program",
        Exception::FpUnavailable => "FpUnavailable",
        Exception::Decrementer => "Decrementer",
        Exception::SystemCall => "SystemCall",
        Exception::Trace => "Trace",
        Exception::PerformanceMon => "PerformanceMon",
        Exception::InstructionDabr => "InstructionDabr",
        Exception::Smi => "Smi",
        Exception::ThermalMgmt => "ThermalMgmt",
    }
}

/// The name of an exception.
pub fn exception_name(e: Exception) -> (r: &'static str)
    ensures
        r == spec_exc_name(e),
{
    match e {
        Exception::SystemReset => "SystemReset",
        Exception::MachineCheck => "MachineCheck",
        Exception::Dsi => "Dsi",
        Exception::Isi => "Isi",
        Exception::ExternalInterrupt => "ExternalInterrupt",
        Exception::Alignment => "Alignment",
        Exception::Program => "Program",
        Exception::FpUnavailable => "FpUnavailable",
        Exception::Decrementer => "Decrementer",
        Exception::SystemCall => "SystemCall",
        Exception::Trace => "Trace",
        Exception::PerformanceMon => "PerformanceMon",
        Exception::InstructionDabr => "InstructionDabr",
        Exception::Smi => "Smi",
        Exception::ThermalMgmt => "ThermalMgmt",
    }
}

// ─── Stack walk ──────────────────────────────────────────────────────────────

/// A plausible stack pointer: non-zero, word aligned, inside MEM1.
pub open spec fn sp_ok(sp: u32) -> bool {
    sp != 0 && sp % 4 == 0 && STACK_BOTTOM <= sp && sp < STACK_TOP
}

/// The walk stops after the frame at `sp` with back-chain `prev` and
/// saved link register `lr`: at a null or all-ones return address, or a
/// back-chain that is null or points at itself.
pub open spec fn chain_ends(sp: u32, prev: u32, lr: u32) -> bool {
    lr == 0 || lr == 0xFFFF_FFFF || prev == 0 || prev == sp
}

/// The text of stack frame `depth` returning to `lr`.
pub open spec fn frame_text(depth: nat, lr: u32) -> Seq<u8> {
    let head = "   #".spec_bytes() + dec02(depth) + "  0x".spec_bytes() + hex8(lr);
    if STACK_BOTTOM <= lr && lr < STACK_TOP {
        head
    } else if lr == 0 || lr == 0xFFFF_FFFF {
        head + "  ← end of stack".spec_bytes()
    } else {
        head + "  ← outside MEM1".spec_bytes()
    }
}

/// A return address inside MEM1 is shown white, others dark grey.
pub open spec fn frame_color(lr: u32) -> YcbcrPair {
    if STACK_BOTTOM <= lr && lr < STACK_TOP { YcbcrPair(WHITE) } else { YcbcrPair(DARK_GREY) }
}

/// A line written as a string.
pub open spec fn str_item(c: u32, s: &str) -> Line {
    (YcbcrPair(c), str_line(s.spec_bytes()))
}

/// A line written as formatted text.
pub open spec fn text_item(c: u32, t: Seq<u8>) -> Line {
    (YcbcrPair(c), text_line(t))
}

/// The lines of the walk from the frame at `sp`, numbered from `depth`,
/// given the (back-chain, saved link register) pairs read: one line per
/// frame, and a note when 32 frames were shown without the chain ending.
pub open spec fn walk_lines(sp: u32, depth: nat, frames: Seq<(u32, u32)>) -> Seq<Line>
    decreases 33 - depth,
{
    if depth > MAX_FRAMES {
        seq![str_item(DARK_GREY, "   ... (truncated at 32 frames)")]
    } else if !sp_ok(sp) || frames.len() == 0 {
        Seq::empty()
    } else {
        let line = (frame_color(frames[0].1), text_line(frame_text(depth, frames[0].1)));
        if chain_ends(sp, frames[0].0, frames[0].1) {
            seq![line]
        } else {
            seq![line] + walk_lines(frames[0].0, depth + 1, frames.drop_first())
        }
    }
}

/// `frames` are exactly the pairs the walk from `sp`, at `depth`, reads.
pub open spec fn walk_complete(sp: u32, depth: nat, frames: Seq<(u32, u32)>) -> bool
    decreases 33 - depth,
{
    if depth > MAX_FRAMES || !sp_ok(sp) {
        frames.len() == 0
    } else {
        &&& frames.len() >= 1
        &&& if chain_ends(sp, frames[0].0, frames[0].1) {
            frames.len() == 1
        } else {
            walk_complete(frames[0].0, depth + 1, frames.drop_first())
        }
    }
}

/// Each pair of `frames` was read by `read_word` at the frame's stack
/// pointer (back-chain) and 4 bytes above it (saved link register), the
/// first frame being at `sp` and each next at the back-chain.
pub open spec fn reads_from<F: Fn(u32) -> u32>(read_word: F, sp: u32, frames: Seq<(u32, u32)>) -> bool
    decreases frames.len(),
{
    frames.len() == 0 || {
        &&& read_word.ensures((sp,), frames[0].0)
        &&& read_word.ensures(((sp + 4) as u32,), frames[0].1)
        &&& reads_from(read_word, frames[0].0, frames.drop_first())
    }
}

fn walk_from<F: Fn(u32) -> u32>(buf: &mut LineBuffer, sp: u32, depth: u32, read_word: &F) -> (r: Vec<(u32, u32)>)
    requires
        old(buf).wf(),
        1 <= depth <= MAX_FRAMES + 1,
        forall|a: u32| read_word.requires((a,)),
    ensures
        final(buf).wf(),
        final(buf)@ == capped(old(buf)@ + walk_lines(sp, depth as nat, r@)),
        walk_complete(sp, depth as nat, r@),
        reads_from(*read_word, sp, r@),
    decreases MAX_FRAMES + 1 - depth,
{
    if depth > MAX_FRAMES {
        buf.push(YcbcrPair(DARK_GREY), "   ... (truncated at 32 frames)");
        let r: Vec<(u32, u32)> = Vec::new();
        assert(old(buf)@ + walk_lines(sp, depth as nat, r@) =~= old(buf)@.push(
            str_item(DARK_GREY, "   ... (truncated at 32 frames)"),
        ));
        return r;
    }
    let aligned = sp & 3 == 0;
    assert(aligned == (sp % 4 == 0)) by (bit_vector)
        requires
            aligned == (sp & 3 == 0),
    ;
    if sp == 0 || !aligned || sp < STACK_BOTTOM || sp >= STACK_TOP {
        let r: Vec<(u32, u32)> = Vec::new();
        assert(old(buf)@ + walk_lines(sp, depth as nat, r@) =~= old(buf)@);
        return r;
    }
    let prev = read_word(sp);
    let lr = read_word(sp + 4);
    let mut text: Vec<u8> = Vec::new();
    push_str(&mut text, "   #");
    push_dec02(&mut text, depth as u64);
    push_str(&mut text, "  0x");
    push_hex8(&mut text, lr);
    let color = if STACK_BOTTOM <= lr && lr < STACK_TOP {
        YcbcrPair(WHITE)
    } else if lr == 0 || lr == 0xFFFF_FFFF {
        push_str(&mut text, "  ← end of stack");
        YcbcrPair(DARK_GREY)
    } else {
        push_str(&mut text, "  ← outside MEM1");
        YcbcrPair(DARK_GREY)
    };
    assert(text@ == frame_text(depth as nat, lr));
    buf.push_fmt(color, text.as_slice());
    let ghost line = (color, text_line(text@));
    let mut out: Vec<(u32, u32)> = Vec::new();
    out.push((prev, lr));
    if lr == 0 || lr == 0xFFFF_FFFF || prev == 0 || prev == sp {
        assert(old(buf)@ + walk_lines(sp, depth as nat, out@) =~= old(buf)@.push(line));
        assert(out@.drop_first() =~= Seq::<(u32, u32)>::empty());
        assert(reads_from(*read_word, prev, Seq::<(u32, u32)>::empty()));
        assert(read_word.ensures((sp,), prev));
        return out;
    }
    let ghost mid = buf@;
    let mut rest = walk_from(buf, prev, depth + 1, read_word);
    let ghost rest_frames = rest@;
    out.append(&mut rest);
    proof {
        assert(out@.drop_first() =~= rest_frames);
        assert(walk_lines(sp, depth as nat, out@) == seq![line] + walk_lines(prev, (depth + 1) as nat, rest_frames));
        lemma_capped_push(old(buf)@, line);
        lemma_capped_concat(old(buf)@.push(line), walk_lines(prev, (depth + 1) as nat, rest_frames));
        assert(old(buf)@.push(line) + walk_lines(prev, (depth + 1) as nat, rest_frames) =~= old(buf)@ + walk_lines(
            sp,
            depth as nat,
            out@,
        ));
    }
    out
}

/// The line naming the faulting instruction, frame 0 of the trace.
pub open spec fn pc_text(pc: u32) -> Seq<u8> {
    "   #00  0x".spec_bytes() + hex8(pc) + "  ← exception PC (SRR0)".spec_bytes()
}

/// Add the stack trace from the frame at `sp` to `buf`: the faulting
/// `pc` first, then the saved link register of each frame reached through
/// the back-chain, read with `read_word`. Returns the pairs read.
pub fn walk_stack<F: Fn(u32) -> u32>(buf: &mut LineBuffer, sp: u32, pc: u32, read_word: F) -> (r: Vec<(u32, u32)>)
    requires
        old(buf).wf(),
        forall|a: u32| read_word.requires((a,)),
    ensures
        final(buf).wf(),
        final(buf)@ == capped(old(buf)@ + seq![text_item(WHITE, pc_text(pc))] + walk_lines(sp, 1, r@)),
        walk_complete(sp, 1, r@),
        reads_from(read_word, sp, r@),
{
    let mut text: Vec<u8> = Vec::new();
    push_str(&mut text, "   #00  0x");
    push_hex8(&mut text, pc);
    push_str(&mut text, "  ← exception PC (SRR0)");
    buf.push_fmt(YcbcrPair(WHITE), text.as_slice());
    let ghost first = old(buf)@.push(text_item(WHITE, pc_text(pc)));
    let r = walk_from(buf, sp, 1, &read_word);
    proof {
        lemma_capped_concat(first, walk_lines(sp, 1, r@));
        assert(first =~= old(buf)@ + seq![text_item(WHITE, pc_text(pc))]);
    }
    r
}


// ─── The report ──────────────────────────────────────────────────────────────

/// The fault-address line of data faults.
pub open spec fn dar_text(ctx: ExcCtx) -> Seq<u8> {
    "  DAR:       0x".spec_bytes() + hex8(ctx.dar) + "    DSISR:      0x".spec_bytes() + hex8(ctx.dsisr)
}

/// Fault details: the data address and DSISR with their decoded cause for
/// DSI and alignment exceptions, the data address alone for a machine
/// check.
pub open spec fn fault_lines(exc: Exception, ctx: ExcCtx) -> Seq<Line> {
    match exc {
        Exception::Dsi | Exception::Alignment => seq![
            text_item(YELLOW, dar_text(ctx)),
            text_item(LIGHT_GREY, "  Cause: ".spec_bytes() + spec_dsi_cause(ctx.dsisr).spec_bytes()),
        ],
        Exception::MachineCheck => seq![text_item(YELLOW, dar_text(ctx))],
        _ => Seq::empty(),
    }
}

/// The banner naming the exception, the faulting PC and MSR, and the
/// fault details.
#[verifier::opaque]
pub open spec fn header_lines(exc: Exception, ctx: ExcCtx) -> Seq<Line> {
    seq![
        str_item(RED, "╔══════════════════════════════════════════════════════════╗"),
        text_item(RED, "  FATAL EXCEPTION — ".spec_bytes() + spec_exc_name(exc).spec_bytes()),
        str_item(RED, "╚══════════════════════════════════════════════════════════╝"),
        (YcbcrPair(pair_word(16, 128, 16, 128)), str_line("".spec_bytes())),
        text_item(
            YELLOW,
            "  PC (SRR0): 0x".spec_bytes() + hex8(ctx.srr0) + "    MSR (SRR1): 0x".spec_bytes() + hex8(ctx.srr1),
        ),
    ] + fault_lines(exc, ctx)
}

/// `r<n>=<value> ` for general-purpose register `n`.
pub open spec fn gpr_cell(n: nat, v: u32) -> Seq<u8> {
    "r".spec_bytes() + dec_left2(n) + "=".spec_bytes() + hex8(v) + " ".spec_bytes()
}

/// The cells of registers `base` to `base + n - 1`.
pub open spec fn gpr_cells(g: [u32; 32], base: int, n: int) -> Seq<u8>
    decreases n,
{
    if n <= 0 || base + n > 32 {
        Seq::empty()
    } else {
        gpr_cells(g, base, n - 1) + gpr_cell((base + n - 1) as nat, g[base + n - 1])
    }
}

/// Row `row` (0 to 3) of the register dump: eight registers.
pub open spec fn gpr_row(g: [u32; 32], row: int) -> Seq<u8> {
    "  ".spec_bytes() + gpr_cells(g, 8 * row, 8)
}

/// The special-purpose registers line.
pub open spec fn special_text(ctx: ExcCtx) -> Seq<u8> {
    "   LR =".spec_bytes() + hex8(ctx.lr) + "  CTR=".spec_bytes() + hex8(ctx.ctr) + "  CR =".spec_bytes() + hex8(ctx.cr)
        + "  XER=".spec_bytes() + hex8(ctx.xer)
}

/// The register dump and the stack-trace heading.
#[verifier::opaque]
pub open spec fn register_lines(ctx: ExcCtx) -> Seq<Line> {
    seq![
        str_item(DARK_GREY, "  ───────────────────────────────────────────────────────────"),
        str_item(CYAN, "  General-Purpose Registers:"),
        text_item(WHITE, gpr_row(ctx.gprs, 0)),
        text_item(WHITE, gpr_row(ctx.gprs, 1)),
        text_item(WHITE, gpr_row(ctx.gprs, 2)),
        text_item(WHITE, gpr_row(ctx.gprs, 3)),
        str_item(DARK_GREY, "  ───────────────────────────────────────────────────────────"),
        str_item(CYAN, "  Special Registers:"),
        text_item(WHITE, special_text(ctx)),
        str_item(DARK_GREY, "  ───────────────────────────────────────────────────────────"),
        str_item(CYAN, "  Stack Trace (return addresses, oldest last):"),
        str_item(DARK_GREY, "  (match against .map file or load .elf in Dolphin debugger)"),
    ]
}

/// The closing lines.
pub open spec fn footer_lines() -> Seq<Line> {
    seq![str_item(DARK_GREY, "  ───────────────────────────────────────────────────────────"), str_item(DARK_GREY, "  D-Up/D-Down: scroll  |  Reset to reboot")]
}

/// The whole report of exception `exc` with context `ctx`, the stack
/// walk having read `frames`.
pub open spec fn report_lines(exc: Exception, ctx: ExcCtx, frames: Seq<(u32, u32)>) -> Seq<Line> {
    capped(
        header_lines(exc, ctx) + register_lines(ctx) + seq![text_item(WHITE, pc_text(ctx.srr0))] + walk_lines(
            ctx.gprs[1],
            1,
            frames,
        ) + footer_lines(),
    )
}

fn report_header(buf: &mut LineBuffer, exc: Exception, ctx: &ExcCtx)
    requires
        old(buf).wf(),
    ensures
        final(buf).wf(),
        final(buf)@ == capped(old(buf)@ + header_lines(exc, *ctx)),
{
    reveal(header_lines);
    let ghost s0 = old(buf)@;
    buf.push(YcbcrPair(RED), "╔══════════════════════════════════════════════════════════╗");
    let mut t: Vec<u8> = Vec::new();
    push_str(&mut t, "  FATAL EXCEPTION — ");
    push_str(&mut t, exception_name(exc));
    buf.push_fmt(YcbcrPair(RED), t.as_slice());
    proof {
        lemma_capped_push(s0.push(str_item(RED, "╔══════════════════════════════════════════════════════════╗")), text_item(RED, t@));
    }
    buf.push(YcbcrPair(RED), "╚══════════════════════════════════════════════════════════╝");
    proof {
        lemma_capped_push(s0.push(str_item(RED, "╔══════════════════════════════════════════════════════════╗")).push(text_item(RED, t@)), str_item(RED, "╚══════════════════════════════════════════════════════════╝"));
    }
    let ghost s3 = s0.push(str_item(RED, "╔══════════════════════════════════════════════════════════╗")).push(text_item(RED, t@)).push(str_item(RED, "╚══════════════════════════════════════════════════════════╝"));
    buf.push(YcbcrPair::new(16, 128, 16, 128), "");
    let ghost blank = (YcbcrPair(pair_word(16, 128, 16, 128)), str_line("".spec_bytes()));
    proof {
        lemma_capped_push(s3, blank);
    }
    let mut p: Vec<u8> = Vec::new();
    push_str(&mut p, "  PC (SRR0): 0x");
    push_hex8(&mut p, ctx.srr0);
    push_str(&mut p, "    MSR (SRR1): 0x");
    push_hex8(&mut p, ctx.srr1);
    buf.push_fmt(YcbcrPair(YELLOW), p.as_slice());
    let ghost s5 = s3.push(blank).push(text_item(YELLOW, p@));
    proof {
        lemma_capped_push(s3.push(blank), text_item(YELLOW, p@));
    }
    match exc {
        Exception::Dsi | Exception::Alignment | Exception::MachineCheck => {
            let mut d: Vec<u8> = Vec::new();
            push_str(&mut d, "  DAR:       0x");
            push_hex8(&mut d, ctx.dar);
            push_str(&mut d, "    DSISR:      0x");
            push_hex8(&mut d, ctx.dsisr);
            buf.push_fmt(YcbcrPair(YELLOW), d.as_slice());
            proof {
                lemma_capped_push(s5, text_item(YELLOW, d@));
            }
            if !matches!(exc, Exception::MachineCheck) {
                let mut c: Vec<u8> = Vec::new();
                push_str(&mut c, "  Cause: ");
                push_str(&mut c, dsi_cause(ctx.dsisr));
                buf.push_fmt(YcbcrPair(LIGHT_GREY), c.as_slice());
                proof {
                    lemma_capped_push(s5.push(text_item(YELLOW, d@)), text_item(LIGHT_GREY, c@));
                    assert(s5.push(text_item(YELLOW, d@)).push(text_item(LIGHT_GREY, c@)) =~= s0 + header_lines(exc, *ctx));
                }
            } else {
                assert(s5.push(text_item(YELLOW, d@)) =~= s0 + header_lines(exc, *ctx));
            }
        },
        _ => {
            assert(s5 =~= s0 + header_lines(exc, *ctx));
        },
    }
}

fn gpr_cell_text(n: u64, v: u32) -> (r: Vec<u8>)
    ensures
        r@ == gpr_cell(n as nat, v),
{
    let mut t: Vec<u8> = Vec::new();
    push_str(&mut t, "r");
    push_dec_left2(&mut t, n);
    push_str(&mut t, "=");
    push_hex8(&mut t, v);
    push_str(&mut t, " ");
    t
}

/// The row of registers `8 * row` to `8 * row + 7`.
fn gpr_row_text(g: &[u32; 32], row: usize) -> (r: Vec<u8>)
    requires
        row < 4,
    ensures
        r@ == gpr_row(*g, row as int),
{
    let mut t: Vec<u8> = Vec::new();
    push_str(&mut t, "  ");
    let ghost head = t@;
    let base = 8 * row;
    let mut col: usize = 0;
    while col < 8
        invariant
            row < 4,
            base == 8 * row,
            col <= 8,
            head == "  ".spec_bytes(),
            t@ == head + gpr_cells(*g, base as int, col as int),
        decreases 8 - col,
    {
        let c = gpr_cell_text((base + col) as u64, g[base + col]);
        push_bytes(&mut t, c.as_slice());
        col = col + 1;
        assert(gpr_cells(*g, base as int, col as int) == gpr_cells(*g, base as int, col - 1) + gpr_cell(
            (base + col - 1) as nat,
            g[base + col - 1],
        ));
        assert(t@ =~= head + gpr_cells(*g, base as int, col as int));
    }
    t
}

fn report_registers(buf: &mut LineBuffer, ctx: &ExcCtx)
    requires
        old(buf).wf(),
    ensures
        final(buf).wf(),
        final(buf)@ == capped(old(buf)@ + register_lines(*ctx)),
{
    reveal(register_lines);
    let ghost mut acc = old(buf)@;
    buf.push(YcbcrPair(DARK_GREY), "  ───────────────────────────────────────────────────────────");
    proof {
        acc = acc.push(str_item(DARK_GREY, "  ───────────────────────────────────────────────────────────"));
    }
    buf.push(YcbcrPair(CYAN), "  General-Purpose Registers:");
    proof {
        lemma_capped_push(acc, str_item(CYAN, "  General-Purpose Registers:"));
        acc = acc.push(str_item(CYAN, "  General-Purpose Registers:"));
    }
    let mut row: usize = 0;
    while row < 4
        invariant
            row <= 4,
            buf.wf(),
            buf@ == capped(acc),
            acc == old(buf)@ + register_lines(*ctx).subrange(0, 2 + row as int),
        decreases 4 - row,
    {
        reveal(register_lines);
        let t = gpr_row_text(&ctx.gprs, row);
        buf.push_fmt(YcbcrPair(WHITE), t.as_slice());
        proof {
            lemma_capped_push(acc, text_item(WHITE, t@));
            acc = acc.push(text_item(WHITE, t@));
        }
        row = row + 1;
        assert(acc =~= old(buf)@ + register_lines(*ctx).subrange(0, 2 + row as int));
    }
    buf.push(YcbcrPair(DARK_GREY), "  ───────────────────────────────────────────────────────────");
    proof {
        lemma_capped_push(acc, str_item(DARK_GREY, "  ───────────────────────────────────────────────────────────"));
        acc = acc.push(str_item(DARK_GREY, "  ───────────────────────────────────────────────────────────"));
    }
    buf.push(YcbcrPair(CYAN), "  Special Registers:");
    proof {
        lemma_capped_push(acc, str_item(CYAN, "  Special Registers:"));
        acc = acc.push(str_item(CYAN, "  Special Registers:"));
    }
    let mut t: Vec<u8> = Vec::new();
    push_str(&mut t, "   LR =");
    push_hex8(&mut t, ctx.lr);
    push_str(&mut t, "  CTR=");
    push_hex8(&mut t, ctx.ctr);
    push_str(&mut t, "  CR =");
    push_hex8(&mut t, ctx.cr);
    push_str(&mut t, "  XER=");
    push_hex8(&mut t, ctx.xer);
    buf.push_fmt(YcbcrPair(WHITE), t.as_slice());
    proof {
        lemma_capped_push(acc, text_item(WHITE, t@));
        acc = acc.push(text_item(WHITE, t@));
    }
    buf.push(YcbcrPair(DARK_GREY), "  ───────────────────────────────────────────────────────────");
    proof {
        lemma_capped_push(acc, str_item(DARK_GREY, "  ───────────────────────────────────────────────────────────"));
        acc = acc.push(str_item(DARK_GREY, "  ───────────────────────────────────────────────────────────"));
    }
    buf.push(YcbcrPair(CYAN), "  Stack Trace (return addresses, oldest last):");
    proof {
        lemma_capped_push(acc, str_item(CYAN, "  Stack Trace (return addresses, oldest last):"));
        acc = acc.push(str_item(CYAN, "  Stack Trace (return addresses, oldest last):"));
    }
    buf.push(YcbcrPair(DARK_GREY), "  (match against .map file or load .elf in Dolphin debugger)");
    proof {
        lemma_capped_push(acc, str_item(DARK_GREY, "  (match against .map file or load .elf in Dolphin debugger)"));
        acc = acc.push(str_item(DARK_GREY, "  (match against .map file or load .elf in Dolphin debugger)"));
        assert(acc =~= old(buf)@ + register_lines(*ctx));
    }
}

proof fn lemma_assemble(e: Seq<Line>, h: Seq<Line>, g: Seq<Line>, p: Line, wl: Seq<Line>, a: Line, b: Line)
    ensures
        capped(capped(capped(capped(capped(e + h) + g) + seq![p] + wl).push(a)).push(b)) == capped(
            e + h + g + seq![p] + wl + seq![a, b],
        ),
{
    lemma_capped_concat(e + h, g);
    lemma_capped_concat(e + h + g, seq![p] + wl);
    assert(capped(e + h + g) + seq![p] + wl =~= capped(e + h + g) + (seq![p] + wl));
    assert(e + h + g + (seq![p] + wl) =~= e + h + g + seq![p] + wl);
    lemma_capped_push(e + h + g + seq![p] + wl, a);
    lemma_capped_push((e + h + g + seq![p] + wl).push(a), b);
    assert((e + h + g + seq![p] + wl).push(a).push(b) =~= e + h + g + seq![p] + wl + seq![a, b]);
}

/// Build the report of exception `exc` with saved context `ctx`, reading
/// the stack with `read_word`. Returns the report and the (back-chain,
/// saved link register) pairs the stack walk read.
pub fn crash_report<F: Fn(u32) -> u32>(exc: Exception, ctx: &ExcCtx, read_word: F) -> (r: (LineBuffer, Vec<(u32, u32)>))
    requires
        forall|a: u32| read_word.requires((a,)),
    ensures
        r.0.wf(),
        r.0@ == report_lines(exc, *ctx, r.1@),
        walk_complete(ctx.gprs[1], 1, r.1@),
        reads_from(read_word, ctx.gprs[1], r.1@),
{
    let mut buf = LineBuffer::new();
    let ghost e = buf@;
    report_header(&mut buf, exc, ctx);
    report_registers(&mut buf, ctx);
    let frames = walk_stack(&mut buf, ctx.gprs[1], ctx.srr0, read_word);
    buf.push(YcbcrPair(DARK_GREY), "  ───────────────────────────────────────────────────────────");
    buf.push(YcbcrPair(DARK_GREY), "  D-Up/D-Down: scroll  |  Reset to reboot");
    proof {
        let h = header_lines(exc, *ctx);
        let g = register_lines(*ctx);
        let p = text_item(WHITE, pc_text(ctx.srr0));
        let wl = walk_lines(ctx.gprs[1], 1, frames@);
        let a = str_item(DARK_GREY, "  ───────────────────────────────────────────────────────────");
        let b = str_item(DARK_GREY, "  D-Up/D-Down: scroll  |  Reset to reboot");
        lemma_assemble(e, h, g, p, wl, a, b);
        assert(e + h + g + seq![p] + wl + seq![a, b] =~= h + g + seq![p] + wl + footer_lines());
    }
    (buf, frames)
}


// ─── Display ─────────────────────────────────────────────────────────────────

/// Background of the crash screen: a very dark red.
pub open spec fn crash_bg() -> u32 {
    pair_word(10, 128, 10, 40)
}

/// The text of a stored line: up to its first NUL.
pub open spec fn upto_nul(l: Seq<u8>) -> Seq<u8> {
    match first_index(l, 0) {
        Some(i) => l.subrange(0, i),
        None => l,
    }
}

/// What a line shows: its text, or `???` when that is not UTF-8.
pub open spec fn shown(l: Seq<u8>) -> Seq<u8> {
    if vstd::utf8::valid_utf8(upto_nul(l)) { upto_nul(l) } else { "???".spec_bytes() }
}

/// The console after printing line `line` in its colour, then a newline.
pub open spec fn print_line(v: ConsoleView, font: Seq<[u8; 8]>, line: Line) -> ConsoleView {
    print_spec(print_spec(ConsoleView { fg: line.0.0, ..v }, font, shown(line.1)), font, "\n".spec_bytes())
}

/// The console after printing lines `start` to `i - 1`.
pub open spec fn printed(v: ConsoleView, font: Seq<[u8; 8]>, lines: Seq<Line>, start: int, i: int) -> ConsoleView
    decreases i - start,
{
    if i <= start { v } else { print_line(printed(v, font, lines, start, i - 1), font, lines[i - 1]) }
}

/// How far down a report of `count` lines (more than a screen) the view
/// starting at line `scroll` is, in percent, at most 100.
pub open spec fn scroll_pct(count: int, scroll: int) -> int {
    let p = (scroll * 100) / (count - VISIBLE_ROWS);
    if p < 100 { p } else { 100 }
}

/// The scroll indicator shown under a report longer than a screen.
pub open spec fn indicator(count: int, scroll: int) -> Seq<u8> {
    "  [".spec_bytes() + dec_right3(scroll_pct(count, scroll) as nat) + "% — ".spec_bytes() + dec(count as nat)
        + " lines total — D-Up/D-Down to scroll]".spec_bytes()
}

/// The console after drawing the screen of `lines` scrolled to `scroll`:
/// cleared to the crash background, up to 60 lines from `scroll` on, and
/// the indicator when the report is longer than a screen.
pub open spec fn screen_spec(v: ConsoleView, font: Seq<[u8; 8]>, lines: Seq<Line>, scroll: int) -> ConsoleView {
    let v0 = ConsoleView {
        words: Seq::new(v.words.len(), |i: int| crash_bg()),
        col: 0,
        row: 0,
        fg: WHITE,
        bg: crash_bg(),
        ..v
    };
    let end = if scroll + VISIBLE_ROWS < lines.len() { scroll + VISIBLE_ROWS } else { lines.len() as int };
    let v1 = printed(v0, font, lines, scroll, end);
    if lines.len() > VISIBLE_ROWS {
        print_spec(ConsoleView { fg: DARK_GREY, ..v1 }, font, indicator(lines.len() as int, scroll))
    } else {
        v1
    }
}

/// Draw the report `buf` scrolled to line `scroll` on the console.
pub fn render_screen(con: &mut Console, buf: &LineBuffer, scroll: usize)
    requires
        old(con).wf(),
        buf.wf(),
        scroll <= MAX_LINES,
    ensures
        final(con).wf(),
        final(con).spec_font() == old(con).spec_font(),
        final(con)@ == screen_spec(old(con)@, old(con).spec_font(), buf@, scroll as int),
{
    let bg = YcbcrPair::new(10, 128, 10, 40);
    con.set_fg(YcbcrPair(WHITE));
    con.set_bg(bg);
    con.clear();
    let ghost font = old(con).spec_font();
    let ghost v0 = con@;
    assert(v0 == (ConsoleView {
        words: Seq::new(old(con)@.words.len(), |i: int| crash_bg()),
        col: 0,
        row: 0,
        fg: WHITE,
        bg: crash_bg(),
        ..old(con)@
    })) by {
        assert(v0.words =~= Seq::new(old(con)@.words.len(), |i: int| crash_bg()));
    }
    let count = buf.count();
    let end0 = if scroll + VISIBLE_ROWS < count { scroll + VISIBLE_ROWS } else { count };
    let end = if end0 < scroll { scroll } else { end0 };
    let mut i = scroll;
    while i < end
        invariant
            con.wf(),
            buf.wf(),
            con.spec_font() == font,
            scroll <= i,
            i <= end,
            end0 <= count,
            end == end0 || i == end,
            count == buf@.len(),
            con@ == printed(v0, font, buf@, scroll as int, i as int),
        decreases end - i,
    {
        let (color, line) = buf.line(i);
        con.set_fg(color);
        let n = find_from(line, 0, 0);
        proof {
            lemma_first_index_unique(line@, 0, n as int);
        }
        let (head, _) = line.split_at(n);
        assert(head@ == upto_nul(line@));
        match utf8_str(head) {
            Some(s) => {
                proof {
                    vstd::utf8::encode_utf8_valid_utf8(s@);
                }
                con.print_str(s);
            },
            None => con.print_str("???"),
        }
        con.print_str("\n");
        assert(con@ == print_line(printed(v0, font, buf@, scroll as int, i as int), font, buf@[i as int]));
        i = i + 1;
    }
    assert(con@ == printed(v0, font, buf@, scroll as int, end0 as int));
    if count > VISIBLE_ROWS {
        con.set_fg(YcbcrPair(DARK_GREY));
        let pct0 = (scroll * 100) / (count - VISIBLE_ROWS);
        let pct = if pct0 < 100 { pct0 } else { 100 };
        let mut t: Vec<u8> = Vec::new();
        push_str(&mut t, "  [");
        push_dec_right3(&mut t, pct as u64);
        push_str(&mut t, "% — ");
        push_dec(&mut t, count as u64);
        push_str(&mut t, " lines total — D-Up/D-Down to scroll]");
        assert(pct as int == scroll_pct(count as int, scroll as int));
        assert(t@ =~= indicator(count as int, scroll as int));
        con.print(t.as_slice());
    }
}

/// Scroll limit: the last start line that still fills a screen, at
/// least 0.
pub open spec fn max_scroll(total: int) -> int {
    if total - ROWS_PER_SCREEN > 0 { total - ROWS_PER_SCREEN } else { 0 }
}

/// The new scroll position after a frame in which D-Down (`down`) and
/// D-Up (`up`) were pressed: down moves 3 lines but not past the limit,
/// up moves 3 lines back but not above the top.
pub open spec fn spec_scroll_step(scroll: int, total: int, down: bool, up: bool) -> int {
    let s1 = if down {
        let t = if scroll + 3 < total - ROWS_PER_SCREEN { scroll + 3 } else { total - ROWS_PER_SCREEN };
        if t > 0 { t } else { 0 }
    } else {
        scroll
    };
    if up {
        if s1 - 3 > 0 { s1 - 3 } else { 0 }
    } else {
        s1
    }
}

/// One scroll step of the crash display.
pub fn scroll_step(scroll: i32, total: i32, down: bool, up: bool) -> (r: i32)
    requires
        0 <= total <= MAX_LINES,
        -0x1000_0000 <= scroll <= 0x1000_0000,
    ensures
        r == spec_scroll_step(scroll as int, total as int, down, up),
{
    let mut s = scroll;
    if down {
        let t = if s + 3 < total - ROWS_PER_SCREEN { s + 3 } else { total - ROWS_PER_SCREEN };
        s = if t > 0 { t } else { 0 };
    }
    if up {
        s = if s - 3 > 0 { s - 3 } else { 0 };
    }
    s
}

/// Scrolling never leaves the report: from a position between the top
/// and the limit, any step stays between them.
pub proof fn scroll_range_law(scroll: int, total: int, down: bool, up: bool)
    requires
        0 <= total,
        0 <= scroll <= max_scroll(total),
    ensures
        0 <= spec_scroll_step(scroll, total, down, up) <= max_scroll(total),
{
}

} // verus!

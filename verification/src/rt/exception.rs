//! PowerPC exception vectors: their numbering, the saved register context,
//! the branch stub written into each vector, and dispatch.

use vstd::prelude::*;

verus! {

/// Register context saved when an exception is taken (192 bytes).
pub struct ExcCtx {
    pub gprs: [u32; 32],
    pub srr0: u32,
    pub srr1: u32,
    pub cr: u32,
    pub lr: u32,
    pub ctr: u32,
    pub xer: u32,
    pub dar: u32,
    pub dsisr: u32,
    pub exc_num: u32,
    pub _pad: [u32; 7],
}

/// The fifteen exception vectors.
#[derive(Debug, Clone, Copy, PartialEq, Eq, Structural)]
pub enum Exception {
    SystemReset,
    MachineCheck,
    Dsi,
    Isi,
    ExternalInterrupt,
    Alignment,
    Program,
    FpUnavailable,
    Decrementer,
    SystemCall,
    Trace,
    PerformanceMon,
    InstructionDabr,
    Smi,
    ThermalMgmt,
}

/// Number of exception vectors.
pub const NUM_EXC: usize = 15;

/// Vector address of the `i`-th exception, in table order.
pub open spec fn vector_of(i: int) -> u32 {
    if i == 0 { 0x0100 }
    else if i == 1 { 0x0200 }
    else if i == 2 { 0x0300 }
    else if i == 3 { 0x0400 }
    else if i == 4 { 0x0500 }
    else if i == 5 { 0x0600 }
    else if i == 6 { 0x0700 }
    else if i == 7 { 0x0800 }
    else if i == 8 { 0x0900 }
    else if i == 9 { 0x0C00 }
    else if i == 10 { 0x0D00 }
    else if i == 11 { 0x0F00 }
    else if i == 12 { 0x1300 }
    else if i == 13 { 0x1400 }
    else { 0x1700 }
}

/// Table position of each exception.
pub open spec fn index_of(e: Exception) -> int {
    match e {
        Exception::SystemReset => 0,
        Exception::MachineCheck => 1,
        Exception::Dsi => 2,
        Exception::Isi => 3,
        Exception::ExternalInterrupt => 4,
        Exception::Alignment => 5,
        Exception::Program => 6,
        Exception::FpUnavailable => 7,
        Exception::Decrementer => 8,
        Exception::SystemCall => 9,
        Exception::Trace => 10,
        Exception::PerformanceMon => 11,
        Exception::InstructionDabr => 12,
        Exception::Smi => 13,
        Exception::ThermalMgmt => 14,
    }
}

impl Exception {
    /// The vector address (also the number the stub reports).
    pub fn code(self) -> (r: u32)
        ensures
            r == vector_of(index_of(self)),
    {
        match self {
            Exception::SystemReset => 0x0100,
            Exception::MachineCheck => 0x0200,
            Exception::Dsi => 0x0300,
            Exception::Isi => 0x0400,
            Exception::ExternalInterrupt => 0x0500,
            Exception::Alignment => 0x0600,
            Exception::Program => 0x0700,
            Exception::FpUnavailable => 0x0800,
            Exception::Decrementer => 0x0900,
            Exception::SystemCall => 0x0C00,
            Exception::Trace => 0x0D00,
            Exception::PerformanceMon => 0x0F00,
            Exception::InstructionDabr => 0x1300,
            Exception::Smi => 0x1400,
            Exception::ThermalMgmt => 0x1700,
        }
    }

    /// The exception at table position `i`.
    pub fn at(i: usize) -> (r: Exception)
        requires
            i < NUM_EXC,
        ensures
            index_of(r) == i,
    {
        match i {
            0 => Exception::SystemReset,
            1 => Exception::MachineCheck,
            2 => Exception::Dsi,
            3 => Exception::Isi,
            4 => Exception::ExternalInterrupt,
            5 => Exception::Alignment,
            6 => Exception::Program,
            7 => Exception::FpUnavailable,
            8 => Exception::Decrementer,
            9 => Exception::SystemCall,
            10 => Exception::Trace,
            11 => Exception::PerformanceMon,
            12 => Exception::InstructionDabr,
            13 => Exception::Smi,
            _ => Exception::ThermalMgmt,
        }
    }
}

/// Table position of the exception with vector `num`.
pub open spec fn spec_exc_to_idx(num: u32) -> Option<int> {
    if exists|i: int| 0 <= i < NUM_EXC && vector_of(i) == num {
        Some(choose|i: int| 0 <= i < NUM_EXC && vector_of(i) == num)
    } else {
        None
    }
}

/// Table position of the exception with vector `num`, if any.
pub fn exc_to_idx(num: u32) -> (r: Option<usize>)
    ensures
        match r {
            Some(i) => i < NUM_EXC && vector_of(i as int) == num,
            None => forall|i: int| 0 <= i < NUM_EXC ==> vector_of(i) != num,
        },
{
    let mut i: usize = 0;
    while i < NUM_EXC
        invariant
            i <= NUM_EXC,
            forall|j: int| 0 <= j < i ==> vector_of(j) != num,
        decreases NUM_EXC - i,
    {
        if Exception::at(i).code() == num {
            return Some(i);
        }
        i = i + 1;
    }
    None
}

/// Vectors are distinct, so a vector names one table position, and every
/// exception's code maps back to its own position.
pub proof fn exc_code_law(e: Exception)
    ensures
        forall|i: int| 0 <= i < NUM_EXC && #[trigger] vector_of(i) == vector_of(index_of(e)) ==> i == index_of(e),
{
}

/// Each exception's code is its PowerPC 750 vector offset: system reset
/// 0x100, machine check 0x200, DSI 0x300, ISI 0x400, external interrupt
/// 0x500, alignment 0x600, program 0x700, FP unavailable 0x800,
/// decrementer 0x900, system call 0xC00, trace 0xD00, performance monitor
/// 0xF00, instruction breakpoint 0x1300, SMI 0x1400, thermal 0x1700; the
/// table runs in rising vector order, so distinct exceptions differ.
pub proof fn exc_vector_law(e: Exception, f: Exception)
    ensures
        e != f ==> vector_of(index_of(e)) != vector_of(index_of(f)),
        index_of(e) < index_of(f) ==> vector_of(index_of(e)) < vector_of(index_of(f)),
        e == Exception::SystemReset ==> vector_of(index_of(e)) == 0x100,
        e == Exception::MachineCheck ==> vector_of(index_of(e)) == 0x200,
        e == Exception::Dsi ==> vector_of(index_of(e)) == 0x300,
        e == Exception::Isi ==> vector_of(index_of(e)) == 0x400,
        e == Exception::ExternalInterrupt ==> vector_of(index_of(e)) == 0x500,
        e == Exception::Alignment ==> vector_of(index_of(e)) == 0x600,
        e == Exception::Program ==> vector_of(index_of(e)) == 0x700,
        e == Exception::FpUnavailable ==> vector_of(index_of(e)) == 0x800,
        e == Exception::Decrementer ==> vector_of(index_of(e)) == 0x900,
        e == Exception::SystemCall ==> vector_of(index_of(e)) == 0xC00,
        e == Exception::Trace ==> vector_of(index_of(e)) == 0xD00,
        e == Exception::PerformanceMon ==> vector_of(index_of(e)) == 0xF00,
        e == Exception::InstructionDabr ==> vector_of(index_of(e)) == 0x1300,
        e == Exception::Smi ==> vector_of(index_of(e)) == 0x1400,
        e == Exception::ThermalMgmt ==> vector_of(index_of(e)) == 0x1700,
{
}

/// What the dispatcher does for exception number `num`.
#[derive(Debug, Clone, Copy, PartialEq, Eq, Structural)]
pub struct Dispatch {
    /// Count a timer tick first (the decrementer).
    pub tick: bool,
    /// Run the handler registered at this table position; halt when `None`.
    pub handler: Option<usize>,
}

/// Decide the dispatch of exception `num` given which table positions
/// have a handler.
pub fn dispatch(num: u32, registered: &[bool; 15]) -> (r: Dispatch)
    ensures
        r.tick == (num == 0x0900),
        match r.handler {
            Some(i) => i < NUM_EXC && vector_of(i as int) == num && registered@[i as int],
            None => forall|i: int| 0 <= i < NUM_EXC && vector_of(i) == num ==> !registered@[i],
        },
{
    let tick = num == 0x0900;
    let handler = match exc_to_idx(num) {
        Some(i) => if registered[i] { Some(i) } else { None },
        None => None,
    };
    Dispatch { tick, handler }
}

/// The 32 words written at an exception vector: save r0, load the entry
/// address, branch to it with the exception number in r0, then no-ops.
pub open spec fn stub_word(entry: u32, exc_num: u32, i: int) -> u32 {
    if i == 0 { 0x7C12_43A6 }
    else if i == 1 { (0x3C00_0000 + entry / 0x1_0000) as u32 }
    else if i == 2 { (0x6000_0000 + entry % 0x1_0000) as u32 }
    else if i == 3 { 0x7C09_03A6 }
    else if i == 4 { (0x3800_0000 + exc_num % 0x1_0000) as u32 }
    else if i == 5 { 0x4E80_0420 }
    else { 0x6000_0000 }
}

pub fn stub_words(entry: u32, exc_num: u32) -> (r: [u32; 32])
    ensures
        forall|i: int| 0 <= i < 32 ==> r@[i] == stub_word(entry, exc_num, i),
{
    let mut w = [0x6000_0000u32; 32];
    w[0] = 0x7C12_43A6;
    w[1] = 0x3C00_0000 + entry / 0x1_0000;
    w[2] = 0x6000_0000 + entry % 0x1_0000;
    w[3] = 0x7C09_03A6;
    w[4] = 0x3800_0000 + exc_num % 0x1_0000;
    w[5] = 0x4E80_0420;
    w
}

} // verus!

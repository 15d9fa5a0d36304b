//! Interrupt enable state. The processor is single-core, so critical
//! sections clear the external-interrupt enable bit (MSR[EE]) and restore
//! it afterwards.

use vstd::prelude::*;

verus! {

/// MSR[EE], bit 16 in the processor's big-endian numbering.
pub const MSR_EE: u32 = 0x0000_8000;

/// Machine state saved when interrupts are disabled, to be restored later.
#[derive(Clone, Copy, Debug, PartialEq, Eq, Structural)]
pub struct IrqState(pub u32);

/// The machine state with external interrupts disabled.
pub fn msr_without_ee(msr: u32) -> (r: u32)
    ensures
        r == msr & !MSR_EE,
        r & MSR_EE == 0,
{
    let r = msr & !MSR_EE;
    assert(r & MSR_EE == 0) by (bit_vector)
        requires
            r == msr & !MSR_EE,
    ;
    r
}

impl IrqState {
    /// Interrupts were enabled when the state was saved.
    pub fn was_enabled(&self) -> (r: bool)
        ensures
            r == (self.0 & MSR_EE != 0),
    {
        self.0 & MSR_EE != 0
    }
}

/// Disabling interrupts changes nothing but the enable bit.
pub proof fn disable_law(msr: u32)
    ensures
        (msr & !MSR_EE) | (msr & MSR_EE) == msr,
{
    assert((msr & !MSR_EE) | (msr & MSR_EE) == msr) by (bit_vector);
}

} // verus!

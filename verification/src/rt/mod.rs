//! Runtime support: the decrementer tick counter and time-base arithmetic,
//! the exception vector numbering and stubs, and the interrupt-enable bit.

pub mod exception;
pub mod irq;
pub mod timer;

//! Driver logic for the first UART of a NEORV32 system that greets over the
//! serial line once and then goes quiet.
//!
//! The crate performs no register access itself. It decides which access
//! comes next: the caller stores or loads the word at the address it is
//! handed and, after a load, hands the loaded word back. What the bus sees
//! for any behaviour of the peripheral is stated and proved in [`laws`].

pub mod regs;
pub mod uart;
pub mod firmware;
pub mod laws;

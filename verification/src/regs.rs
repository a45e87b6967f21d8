//! The register map of UART0 and the vocabulary for talking about bus traffic.

use vstd::prelude::*;

verus! {

/// Base address of UART0 in the NEORV32 address space.
pub const UART0_BASE: usize = 0xFFFF_FFC0;

/// Offset of the data register: a store transmits the low eight bits.
pub const UART_DATA: usize = 0x00;

/// Offset of the control register.
pub const UART_CTRL: usize = 0x04;

/// Control bit 0: the UART is enabled.
pub const UART_CTRL_EN: u32 = 1 << 0;

/// Control bit 1: the transmitter is enabled.
pub const UART_CTRL_TX_EN: u32 = 1 << 1;

/// Control bit 15, read-only: the transmitter can take another byte.
pub const UART_CTRL_TX_READY: u32 = 1 << 15;

/// A register access that the driver asks its caller to perform.
#[derive(Clone, Copy, Debug, PartialEq, Eq, Structural)]
pub enum Request {
    /// Load the word at `addr` and hand it back with the next call.
    Read { addr: usize },
    /// Store `val` at `addr`.
    Write { addr: usize, val: u32 },
}

/// A register access as seen on the bus: for a load, `val` is the word that
/// the peripheral answered with.
#[derive(Clone, Copy, Debug, PartialEq, Eq, Structural)]
pub enum Access {
    Read { addr: usize, val: u32 },
    Write { addr: usize, val: u32 },
}

/// Address of the control register.
pub open spec fn ctrl_addr() -> usize {
    (UART0_BASE + UART_CTRL) as usize
}

/// Address of the data register.
pub open spec fn data_addr() -> usize {
    (UART0_BASE + UART_DATA) as usize
}

/// The word that enables the UART and its transmitter.
pub open spec fn enable_word() -> u32 {
    UART_CTRL_EN | UART_CTRL_TX_EN
}

/// Whether a word loaded from the control register reports that the
/// transmitter is ready.
pub open spec fn tx_ready(status: u32) -> bool {
    status & UART_CTRL_TX_READY != 0
}

/// The register map in plain numbers.
pub proof fn lemma_register_map()
    ensures
        ctrl_addr() == 0xFFFF_FFC4,
        data_addr() == 0xFFFF_FFC0,
        ctrl_addr() != data_addr(),
        enable_word() == 3,
        UART_CTRL_TX_READY == 0x8000,
{
    assert(UART_CTRL_EN | UART_CTRL_TX_EN == 3) by (bit_vector);
    assert(UART_CTRL_TX_READY == 0x8000) by (bit_vector);
}

} // verus!

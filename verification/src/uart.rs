//! The three driver operations, each as the decision it takes.

use vstd::prelude::*;
use vstd::string::*;
use crate::regs::{
    ctrl_addr, data_addr, enable_word, tx_ready, Request, UART0_BASE, UART_CTRL, UART_CTRL_EN,
    UART_CTRL_TX_EN, UART_CTRL_TX_READY, UART_DATA,
};

verus! {

/// What sending the byte `c` asks for, given the control word `reply` that
/// the last poll returned (`None` when no poll has been made yet): the store
/// of `c` once a poll has shown the transmitter ready, another poll until then.
pub open spec fn putc_request(c: u8, reply: Option<u32>) -> Request {
    match reply {
        Some(status) if tx_ready(status) => Request::Write { addr: data_addr(), val: c as u32 },
        _ => Request::Read { addr: ctrl_addr() },
    }
}

/// What sending `bytes` asks for when the first `sent` of them are out:
/// whatever sending the next byte asks for, and nothing once all are out.
pub open spec fn puts_request(bytes: Seq<u8>, sent: int, reply: Option<u32>) -> Option<Request> {
    if 0 <= sent < bytes.len() {
        Some(putc_request(bytes[sent], reply))
    } else {
        None
    }
}

/// How many of `bytes` are out after the request of [`puts_request`] is
/// performed: one more if it stores a byte.
pub open spec fn puts_sent(bytes: Seq<u8>, sent: int, reply: Option<u32>) -> int {
    if puts_request(bytes, sent, reply) matches Some(Request::Write { .. }) {
        sent + 1
    } else {
        sent
    }
}

/// Enables UART0 and its transmitter: one store to the control register.
pub fn init_uart() -> (req: Request)
    ensures
        req == (Request::Write { addr: ctrl_addr(), val: enable_word() }),
{
    Request::Write { addr: UART0_BASE + UART_CTRL, val: UART_CTRL_EN | UART_CTRL_TX_EN }
}

/// Sends one byte: polls the control register until a poll shows bit 15 set,
/// then stores the byte, widened to a word, to the data register.
///
/// `reply` is the control word that the last poll returned, `None` before the
/// first poll. The byte is sent when the result is a store. The wait has no
/// bound: a transmitter that never reports ready is polled for ever.
pub fn uart_putc(c: u8, reply: Option<u32>) -> (req: Request)
    ensures
        req == putc_request(c, reply),
{
    match reply {
        Some(status) if (status & UART_CTRL_TX_READY) != 0 => Request::Write {
            addr: UART0_BASE + UART_DATA,
            val: c as u32,
        },
        _ => Request::Read { addr: UART0_BASE + UART_CTRL },
    }
}

/// Sends the bytes of `s` in order, one [`uart_putc`] after the other.
///
/// `sent` counts the bytes already stored and moves on by one whenever the
/// result stores the next. The result is `None` when no byte is left.
pub fn uart_puts(s: &str, sent: &mut usize, reply: Option<u32>) -> (req: Option<Request>)
    ensures
        req == puts_request(s.spec_bytes(), *old(sent) as int, reply),
        *final(sent) == puts_sent(s.spec_bytes(), *old(sent) as int, reply),
{
    let bytes = s.as_bytes();
    if *sent < bytes.len() {
        let req = uart_putc(bytes[*sent], reply);
        if let Request::Write { .. } = req {
            *sent = *sent + 1;
        }
        Some(req)
    } else {
        None
    }
}

} // verus!

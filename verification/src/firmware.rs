//! The program as a whole: enable the UART, send the greeting, go quiet.

use vstd::prelude::*;
use vstd::string::*;
use crate::regs::{ctrl_addr, enable_word, Access, Request};
use crate::uart::{init_uart, puts_request, puts_sent, uart_puts};

verus! {

/// The text that is sent once after start-up.
pub const GREETING: &'static str = "Hello, World from Rust on NEORV32!\r\n";

/// The bytes of [`GREETING`].
pub open spec fn greeting_bytes() -> Seq<u8> {
    GREETING.spec_bytes()
}

/// The greeting byte by byte.
pub proof fn lemma_greeting_bytes()
    ensures
        greeting_bytes() == seq![
            0x48u8, 0x65, 0x6c, 0x6c, 0x6f, 0x2c, 0x20, 0x57, 0x6f, 0x72, 0x6c, 0x64,
            0x20, 0x66, 0x72, 0x6f, 0x6d, 0x20, 0x52, 0x75, 0x73, 0x74, 0x20, 0x6f,
            0x6e, 0x20, 0x4e, 0x45, 0x4f, 0x52, 0x56, 0x33, 0x32, 0x21, 0x0d, 0x0a,
        ],
        greeting_bytes().len() == 36,
{
    reveal_strlit("Hello, World from Rust on NEORV32!\r\n");
    assert(is_ascii(GREETING));
    assert(greeting_bytes() =~= seq![
        0x48u8, 0x65, 0x6c, 0x6c, 0x6f, 0x2c, 0x20, 0x57, 0x6f, 0x72, 0x6c, 0x64,
        0x20, 0x66, 0x72, 0x6f, 0x6d, 0x20, 0x52, 0x75, 0x73, 0x74, 0x20, 0x6f,
        0x6e, 0x20, 0x4e, 0x45, 0x4f, 0x52, 0x56, 0x33, 0x32, 0x21, 0x0d, 0x0a,
    ]);
}

/// Where the program stands.
#[derive(Clone, Copy, Debug, PartialEq, Eq, Structural)]
pub enum Firmware {
    /// Nothing has happened yet.
    Boot,
    /// The UART is enabled and the first `sent` bytes of the greeting are out.
    Sending { sent: usize },
    /// The greeting is out: the program idles for good.
    Idle,
    /// An unrecoverable fault was raised: the program is halted for good.
    Fault,
}

impl Firmware {
    /// No more bytes are counted as sent than the greeting has.
    pub open spec fn wf(self) -> bool {
        self matches Firmware::Sending { sent } ==> sent <= greeting_bytes().len()
    }

    /// The register access that comes next, if any, when the last load
    /// returned `reply` (`None` at the start and after a store).
    pub open spec fn request(self, reply: Option<u32>) -> Option<Request> {
        match self {
            Firmware::Boot => Some(Request::Write { addr: ctrl_addr(), val: enable_word() }),
            Firmware::Sending { sent } => puts_request(greeting_bytes(), sent as int, reply),
            Firmware::Idle | Firmware::Fault => None,
        }
    }

    /// Where the program stands once that access is performed.
    pub open spec fn next(self, reply: Option<u32>) -> Firmware {
        match self {
            Firmware::Boot => Firmware::Sending { sent: 0 },
            Firmware::Sending { sent } => if sent < greeting_bytes().len() {
                Firmware::Sending { sent: puts_sent(greeting_bytes(), sent as int, reply) as usize }
            } else {
                Firmware::Idle
            },
            Firmware::Idle => Firmware::Idle,
            Firmware::Fault => Firmware::Fault,
        }
    }

    /// An upper bound on the stores that are still to come.
    pub open spec fn stores_left(self) -> nat {
        match self {
            Firmware::Boot => greeting_bytes().len() + 1,
            Firmware::Sending { sent } => if sent < greeting_bytes().len() {
                (greeting_bytes().len() - sent) as nat
            } else {
                0
            },
            Firmware::Idle | Firmware::Fault => 0,
        }
    }

    /// The program at its entry.
    pub fn new() -> (fw: Firmware)
        ensures
            fw == Firmware::Boot,
            fw.wf(),
    {
        Firmware::Boot
    }

    /// Advances the program by one register access.
    ///
    /// `reply` is the word that the last access loaded, `None` at the start
    /// and after a store. The result is the access to perform next; `None`
    /// means that the program has nothing left to do and only spins.
    pub fn step(&mut self, reply: Option<u32>) -> (req: Option<Request>)
        ensures
            req == old(self).request(reply),
            *final(self) == old(self).next(reply),
            old(self).wf() ==> final(self).wf(),
    {
        match *self {
            Firmware::Boot => {
                *self = Firmware::Sending { sent: 0 };
                Some(init_uart())
            },
            Firmware::Sending { sent } => {
                let mut sent = sent;
                let req = uart_puts(GREETING, &mut sent, reply);
                if req.is_some() {
                    *self = Firmware::Sending { sent };
                } else {
                    *self = Firmware::Idle;
                }
                req
            },
            Firmware::Idle => None,
            Firmware::Fault => None,
        }
    }

    /// The handler for unrecoverable faults: from wherever the program
    /// stands, it halts for good.
    pub fn panic(&mut self)
        ensures
            *final(self) == Firmware::Fault,
            final(self).wf(),
    {
        *self = Firmware::Fault;
    }
}

/// The bus traffic of the program from `fw` on, when the last load returned
/// `reply` and the peripheral answers the loads still to come with `replies`,
/// one word each: every access up to the point where the program has nothing
/// left to do or asks for a load that `replies` has no word for.
pub open spec fn run(fw: Firmware, reply: Option<u32>, replies: Seq<u32>) -> Seq<Access>
    decreases fw.stores_left(), replies.len(),
    via run_terminates
{
    match fw.request(reply) {
        None => Seq::empty(),
        Some(Request::Write { addr, val }) => seq![Access::Write { addr, val }] + run(
            fw.next(reply),
            None,
            replies,
        ),
        Some(Request::Read { addr }) => if replies.len() == 0 {
            Seq::empty()
        } else {
            seq![Access::Read { addr, val: replies[0] }] + run(
                fw.next(reply),
                Some(replies[0]),
                replies.drop_first(),
            )
        },
    }
}

#[via_fn]
proof fn run_terminates(fw: Firmware, reply: Option<u32>, replies: Seq<u32>) {
    lemma_greeting_bytes();
}

/// Runs the program from its entry against a scripted peripheral that
/// answers the loads with `replies`, one word each, and returns the bus
/// traffic.
pub fn replay(replies: &[u32]) -> (trace: Vec<Access>)
    ensures
        trace@ == run(Firmware::Boot, None, replies@),
{
    let mut fw = Firmware::new();
    let mut reply: Option<u32> = None;
    let mut used: usize = 0;
    let mut trace: Vec<Access> = Vec::new();
    assert(replies@.subrange(0, replies.len() as int) == replies@);
    loop
        invariant
            used <= replies.len(),
            run(Firmware::Boot, None, replies@) == trace@ + run(
                fw,
                reply,
                replies@.subrange(used as int, replies.len() as int),
            ),
        decreases fw.stores_left(), replies.len() - used,
    {
        let ghost rest = replies@.subrange(used as int, replies.len() as int);
        proof {
            lemma_greeting_bytes();
        }
        match fw.step(reply) {
            None => {
                return trace;
            },
            Some(Request::Write { addr, val }) => {
                trace.push(Access::Write { addr, val });
                reply = None;
            },
            Some(Request::Read { addr }) => {
                if used == replies.len() {
                    return trace;
                }
                let val = replies[used];
                used = used + 1;
                trace.push(Access::Read { addr, val });
                reply = Some(val);
                assert(rest.drop_first() == replies@.subrange(used as int, replies.len() as int));
            },
        }
    }
}

} // verus!

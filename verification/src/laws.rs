//! What the bus sees, whatever the peripheral does.
//!
//! Each law speaks of [`boot_trace`]: the accesses of a run from the entry
//! against a peripheral whose control register yields an arbitrary sequence
//! of words. A run ends where the program has nothing left to do or where
//! the words run out; by [`law_longer_run_extends`] the second kind is the
//! beginning of every run that gets more words, so what holds of all traces
//! holds at every moment of a run without end.

use vstd::prelude::*;
use crate::firmware::{greeting_bytes, lemma_greeting_bytes, run, Firmware};
use crate::regs::{ctrl_addr, data_addr, enable_word, lemma_register_map, tx_ready, Access};

verus! {

/// The bus traffic of a run from the entry when the control register yields
/// `replies`, one word for each load.
pub open spec fn boot_trace(replies: Seq<u32>) -> Seq<Access> {
    run(Firmware::Boot, None, replies)
}

/// A store to the control register.
pub open spec fn is_ctrl_write(a: Access) -> bool {
    a matches Access::Write { addr, .. } && addr == ctrl_addr()
}

/// A store to the data register.
pub open spec fn is_data_write(a: Access) -> bool {
    a matches Access::Write { addr, .. } && addr == data_addr()
}

/// A load from the control register.
pub open spec fn is_poll(a: Access) -> bool {
    a matches Access::Read { addr, .. } && addr == ctrl_addr()
}

/// A load from the control register that found bit 15 set.
pub open spec fn is_ready_poll(a: Access) -> bool {
    a matches Access::Read { addr, val } && addr == ctrl_addr() && tx_ready(val)
}

/// The words stored to the data register, in the order of the stores.
pub open spec fn data_writes(trace: Seq<Access>) -> Seq<u32>
    decreases trace.len(),
{
    if trace.len() == 0 {
        Seq::empty()
    } else {
        match trace[0] {
            Access::Write { addr, val } if addr == data_addr() => seq![val] + data_writes(
                trace.drop_first(),
            ),
            _ => data_writes(trace.drop_first()),
        }
    }
}

/// The words loaded from the bus, in the order of the loads.
pub open spec fn loads(trace: Seq<Access>) -> Seq<u32>
    decreases trace.len(),
{
    if trace.len() == 0 {
        Seq::empty()
    } else {
        match trace[0] {
            Access::Read { val, .. } => seq![val] + loads(trace.drop_first()),
            Access::Write { .. } => loads(trace.drop_first()),
        }
    }
}

/// How many of `replies` report the transmitter ready.
pub open spec fn ready_count(replies: Seq<u32>) -> nat
    decreases replies.len(),
{
    if replies.len() == 0 {
        0
    } else if tx_ready(replies[0]) {
        1 + ready_count(replies.drop_first())
    } else {
        ready_count(replies.drop_first())
    }
}

/// The greeting, each byte widened to a register word.
pub open spec fn greeting_words() -> Seq<u32> {
    greeting_bytes().map_values(|b: u8| b as u32)
}

/// Whether the last poll, if there was one, found the transmitter ready.
spec fn is_ready(reply: Option<u32>) -> bool {
    reply matches Some(status) && tx_ready(status)
}

/// The reply that is still to be acted on, as a sequence of at most one word.
spec fn pending(reply: Option<u32>) -> Seq<u32> {
    match reply {
        Some(status) => seq![status],
        None => Seq::empty(),
    }
}

/// Every access of `trace` is a poll or a store to the data register, and
/// each such store comes directly after a poll that found the transmitter
/// ready. For a store at the head of `trace` that poll lies before the
/// trace: it is the one that returned `reply`.
spec fn stores_follow_ready_polls(reply: Option<u32>, trace: Seq<Access>) -> bool {
    forall|i: int|
        0 <= i < trace.len() ==> {
            ||| is_poll(#[trigger] trace[i])
            ||| is_data_write(trace[i]) && if i == 0 {
                is_ready(reply)
            } else {
                is_ready_poll(trace[i - 1])
            }
        }
}

proof fn lemma_data_writes_cons(head: Access, tail: Seq<Access>)
    ensures
        data_writes(seq![head] + tail) == if is_data_write(head) {
            seq![head->Write_val] + data_writes(tail)
        } else {
            data_writes(tail)
        },
{
    assert((seq![head] + tail).drop_first() == tail);
}

proof fn lemma_loads_cons(head: Access, tail: Seq<Access>)
    ensures
        loads(seq![head] + tail) == if head is Read {
            seq![head->Read_val] + loads(tail)
        } else {
            loads(tail)
        },
{
    assert((seq![head] + tail).drop_first() == tail);
}

proof fn lemma_ready_count_cons(status: u32, rest: Seq<u32>)
    ensures
        ready_count(seq![status] + rest) == ready_count(rest) + if tx_ready(status) {
            1nat
        } else {
            0nat
        },
{
    assert((seq![status] + rest).drop_first() == rest);
}

proof fn lemma_stores_follow_ready_polls_cons(reply: Option<u32>, head: Access, tail: Seq<Access>)
    requires
        match head {
            Access::Read { addr, val } => addr == ctrl_addr() && stores_follow_ready_polls(
                Some(val),
                tail,
            ),
            Access::Write { addr, .. } => addr == data_addr() && is_ready(reply)
                && stores_follow_ready_polls(None, tail),
        },
    ensures
        stores_follow_ready_polls(reply, seq![head] + tail),
{
    let trace = seq![head] + tail;
    assert forall|i: int| 0 <= i < trace.len() implies {
        ||| is_poll(#[trigger] trace[i])
        ||| is_data_write(trace[i]) && if i == 0 {
            is_ready(reply)
        } else {
            is_ready_poll(trace[i - 1])
        }
    } by {
        if i >= 1 {
            assert(trace[i] == tail[i - 1]);
            if i >= 2 {
                assert(trace[i - 1] == tail[i - 2]);
            }
        }
    }
}

/// One step of a run that resumes while the greeting is being sent.
proof fn lemma_sending_unfolds(sent: usize, reply: Option<u32>, replies: Seq<u32>)
    requires
        sent <= greeting_bytes().len(),
    ensures
        run(Firmware::Sending { sent }, reply, replies) == if sent == greeting_bytes().len() {
            Seq::<Access>::empty()
        } else if is_ready(reply) {
            seq![Access::Write { addr: data_addr(), val: greeting_words()[sent as int] }] + run(
                Firmware::Sending { sent: (sent + 1) as usize },
                None,
                replies,
            )
        } else if replies.len() == 0 {
            Seq::<Access>::empty()
        } else {
            seq![Access::Read { addr: ctrl_addr(), val: replies[0] }] + run(
                Firmware::Sending { sent },
                Some(replies[0]),
                replies.drop_first(),
            )
        },
{
    lemma_greeting_bytes();
}

/// A run from the entry is the store that enables the UART, followed by the
/// run that sends the greeting.
proof fn lemma_boot_unfolds(replies: Seq<u32>)
    ensures
        boot_trace(replies) == seq![Access::Write { addr: ctrl_addr(), val: enable_word() }] + run(
            Firmware::Sending { sent: 0 },
            None,
            replies,
        ),
{
    lemma_greeting_bytes();
}

/// The stores of a run that resumes while the greeting is being sent.
proof fn lemma_sending_stores(sent: usize, reply: Option<u32>, replies: Seq<u32>)
    requires
        sent <= greeting_bytes().len(),
    ensures
        data_writes(run(Firmware::Sending { sent }, reply, replies)) == greeting_words().subrange(
            sent as int,
            vstd::math::min(
                sent + ready_count(pending(reply) + replies),
                greeting_words().len() as int,
            ),
        ),
    decreases greeting_bytes().len() - sent, replies.len(),
{
    lemma_greeting_bytes();
    lemma_register_map();
    lemma_sending_unfolds(sent, reply, replies);
    let words = greeting_words();
    let end = vstd::math::min(sent + ready_count(pending(reply) + replies), words.len() as int);
    if sent == greeting_bytes().len() {
        assert(words.subrange(sent as int, end) == Seq::<u32>::empty());
    } else if is_ready(reply) {
        let store = Access::Write { addr: data_addr(), val: words[sent as int] };
        let tail = run(Firmware::Sending { sent: (sent + 1) as usize }, None, replies);
        lemma_sending_stores((sent + 1) as usize, None, replies);
        lemma_data_writes_cons(store, tail);
        lemma_ready_count_cons(reply->Some_0, replies);
        assert(pending(None) + replies == replies);
        assert(seq![words[sent as int]] + words.subrange(sent + 1, end) == words.subrange(
            sent as int,
            end,
        ));
    } else {
        assert(ready_count(pending(reply) + replies) == ready_count(replies)) by {
            if reply is Some {
                lemma_ready_count_cons(reply->Some_0, replies);
            } else {
                assert(pending(reply) + replies == replies);
            }
        }
        if replies.len() == 0 {
            assert(words.subrange(sent as int, end) == Seq::<u32>::empty());
        } else {
            let poll = Access::Read { addr: ctrl_addr(), val: replies[0] };
            let tail = run(Firmware::Sending { sent }, Some(replies[0]), replies.drop_first());
            lemma_sending_stores(sent, Some(replies[0]), replies.drop_first());
            lemma_data_writes_cons(poll, tail);
            assert(pending(Some(replies[0])) + replies.drop_first() == replies);
        }
    }
}

/// The order of polls and stores in a run that resumes while the greeting is
/// being sent.
proof fn lemma_sending_order(sent: usize, reply: Option<u32>, replies: Seq<u32>)
    requires
        sent <= greeting_bytes().len(),
    ensures
        stores_follow_ready_polls(reply, run(Firmware::Sending { sent }, reply, replies)),
    decreases greeting_bytes().len() - sent, replies.len(),
{
    lemma_greeting_bytes();
    lemma_sending_unfolds(sent, reply, replies);
    if sent == greeting_bytes().len() {
    } else if is_ready(reply) {
        let store = Access::Write { addr: data_addr(), val: greeting_words()[sent as int] };
        let tail = run(Firmware::Sending { sent: (sent + 1) as usize }, None, replies);
        lemma_sending_order((sent + 1) as usize, None, replies);
        lemma_stores_follow_ready_polls_cons(reply, store, tail);
    } else if replies.len() > 0 {
        let poll = Access::Read { addr: ctrl_addr(), val: replies[0] };
        let tail = run(Firmware::Sending { sent }, Some(replies[0]), replies.drop_first());
        lemma_sending_order(sent, Some(replies[0]), replies.drop_first());
        lemma_stores_follow_ready_polls_cons(reply, poll, tail);
    }
}

/// The loads of a run that resumes while the greeting is being sent take the
/// words of the peripheral in order, all of them unless the last byte goes
/// out first.
proof fn lemma_sending_loads(sent: usize, reply: Option<u32>, replies: Seq<u32>)
    requires
        sent <= greeting_bytes().len(),
    ensures
        ({
            let trace = run(Firmware::Sending { sent }, reply, replies);
            &&& loads(trace).is_prefix_of(replies)
            &&& data_writes(trace).len() < greeting_bytes().len() - sent ==> loads(trace)
                == replies
        }),
    decreases greeting_bytes().len() - sent, replies.len(),
{
    lemma_greeting_bytes();
    lemma_register_map();
    lemma_sending_unfolds(sent, reply, replies);
    if sent == greeting_bytes().len() {
    } else if is_ready(reply) {
        let store = Access::Write { addr: data_addr(), val: greeting_words()[sent as int] };
        let tail = run(Firmware::Sending { sent: (sent + 1) as usize }, None, replies);
        lemma_sending_loads((sent + 1) as usize, None, replies);
        lemma_data_writes_cons(store, tail);
        lemma_loads_cons(store, tail);
    } else if replies.len() == 0 {
        assert(Seq::<u32>::empty() == replies);
    } else {
        let poll = Access::Read { addr: ctrl_addr(), val: replies[0] };
        let tail = run(Firmware::Sending { sent }, Some(replies[0]), replies.drop_first());
        lemma_sending_loads(sent, Some(replies[0]), replies.drop_first());
        lemma_data_writes_cons(poll, tail);
        lemma_loads_cons(poll, tail);
        assert(seq![replies[0]] + replies.drop_first() == replies);
        assert((seq![replies[0]] + loads(tail)).is_prefix_of(replies));
    }
}

/// More words from the peripheral only lengthen a run that resumes while the
/// greeting is being sent, and leave it as it is once the last byte is out.
proof fn lemma_sending_extends(
    sent: usize,
    reply: Option<u32>,
    replies: Seq<u32>,
    more: Seq<u32>,
)
    requires
        sent <= greeting_bytes().len(),
    ensures
        ({
            let trace = run(Firmware::Sending { sent }, reply, replies);
            let longer = run(Firmware::Sending { sent }, reply, replies + more);
            &&& trace.is_prefix_of(longer)
            &&& data_writes(trace).len() == greeting_bytes().len() - sent ==> longer == trace
        }),
    decreases greeting_bytes().len() - sent, replies.len(),
{
    lemma_greeting_bytes();
    lemma_register_map();
    lemma_sending_unfolds(sent, reply, replies);
    lemma_sending_unfolds(sent, reply, replies + more);
    let trace = run(Firmware::Sending { sent }, reply, replies);
    let longer = run(Firmware::Sending { sent }, reply, replies + more);
    if sent == greeting_bytes().len() {
    } else if is_ready(reply) {
        let store = Access::Write { addr: data_addr(), val: greeting_words()[sent as int] };
        let next = Firmware::Sending { sent: (sent + 1) as usize };
        lemma_sending_extends((sent + 1) as usize, None, replies, more);
        lemma_data_writes_cons(store, run(next, None, replies));
        assert(trace.is_prefix_of(longer));
    } else if replies.len() == 0 {
        assert(trace.is_prefix_of(longer));
    } else {
        let poll = Access::Read { addr: ctrl_addr(), val: replies[0] };
        let fw = Firmware::Sending { sent };
        lemma_sending_extends(sent, Some(replies[0]), replies.drop_first(), more);
        lemma_data_writes_cons(poll, run(fw, Some(replies[0]), replies.drop_first()));
        assert((replies + more).drop_first() == replies.drop_first() + more);
        assert(trace.is_prefix_of(longer));
    }
}

/// The words stored to the data register are, in order, the bytes of the
/// greeting and nothing else: one byte goes out for each poll that found the
/// transmitter ready, until the last byte is out. With at least as many such
/// polls as the greeting has bytes, the whole greeting is stored, once.
pub proof fn law_data_writes_spell_greeting(replies: Seq<u32>)
    ensures
        data_writes(boot_trace(replies)) == greeting_words().take(
            vstd::math::min(ready_count(replies) as int, greeting_words().len() as int),
        ),
        data_writes(boot_trace(replies)).is_prefix_of(greeting_words()),
        ready_count(replies) >= greeting_words().len() ==> data_writes(boot_trace(replies))
            == greeting_words(),
{
    lemma_register_map();
    lemma_boot_unfolds(replies);
    lemma_sending_stores(0, None, replies);
    lemma_data_writes_cons(
        Access::Write { addr: ctrl_addr(), val: enable_word() },
        run(Firmware::Sending { sent: 0 }, None, replies),
    );
    assert(pending(None) + replies == replies);
    assert(greeting_words().take(greeting_words().len() as int) == greeting_words());
}

/// The control register is stored to exactly once, by the first access of
/// the run, and the word stored has bit 0 and bit 1 set and no other.
pub proof fn law_control_written_once(replies: Seq<u32>)
    ensures
        boot_trace(replies).len() >= 1,
        boot_trace(replies)[0] == (Access::Write { addr: ctrl_addr(), val: 3 }),
        forall|i: int|
            1 <= i < boot_trace(replies).len() ==> !is_ctrl_write(#[trigger] boot_trace(replies)[i]),
{
    lemma_register_map();
    lemma_boot_unfolds(replies);
    lemma_sending_order(0, None, replies);
    let trace = boot_trace(replies);
    let tail = run(Firmware::Sending { sent: 0 }, None, replies);
    assert forall|i: int| 1 <= i < trace.len() implies !is_ctrl_write(#[trigger] trace[i]) by {
        assert(trace[i] == tail[i - 1]);
    }
}

/// Every store to the data register comes directly after a load from the
/// control register that found bit 15 set.
pub proof fn law_store_follows_ready_poll(replies: Seq<u32>)
    ensures
        forall|i: int|
            0 <= i < boot_trace(replies).len() && is_data_write(#[trigger] boot_trace(replies)[i])
                ==> i >= 1 && is_ready_poll(boot_trace(replies)[i - 1]),
{
    lemma_register_map();
    lemma_boot_unfolds(replies);
    lemma_sending_order(0, None, replies);
    let trace = boot_trace(replies);
    let tail = run(Firmware::Sending { sent: 0 }, None, replies);
    assert forall|i: int| 0 <= i < trace.len() && is_data_write(#[trigger] trace[i]) implies i >= 1
        && is_ready_poll(trace[i - 1]) by {
        if i >= 1 {
            assert(trace[i] == tail[i - 1]);
            if i >= 2 {
                assert(trace[i - 1] == tail[i - 2]);
            }
        }
    }
}

/// Nothing but the control register is loaded. The loads take the words of
/// the peripheral in order, and while a byte of the greeting is left the
/// polling never gives up: every word is met by a load.
pub proof fn law_polls_until_sent(replies: Seq<u32>)
    ensures
        forall|i: int|
            0 <= i < boot_trace(replies).len() && #[trigger] boot_trace(replies)[i] is Read
                ==> is_poll(boot_trace(replies)[i]),
        loads(boot_trace(replies)).is_prefix_of(replies),
        data_writes(boot_trace(replies)).len() < greeting_words().len() ==> loads(
            boot_trace(replies),
        ) == replies,
{
    lemma_register_map();
    lemma_boot_unfolds(replies);
    lemma_sending_order(0, None, replies);
    lemma_sending_loads(0, None, replies);
    let trace = boot_trace(replies);
    let enable = Access::Write { addr: ctrl_addr(), val: enable_word() };
    let tail = run(Firmware::Sending { sent: 0 }, None, replies);
    lemma_data_writes_cons(enable, tail);
    lemma_loads_cons(enable, tail);
    assert forall|i: int| 0 <= i < trace.len() && #[trigger] trace[i] is Read implies is_poll(
        trace[i],
    ) by {
        assert(trace[i] == tail[i - 1]);
    }
}

/// A run that gets more words from the peripheral begins as the run without
/// them did.
pub proof fn law_longer_run_extends(replies: Seq<u32>, more: Seq<u32>)
    ensures
        boot_trace(replies).is_prefix_of(boot_trace(replies + more)),
{
    lemma_boot_unfolds(replies);
    lemma_boot_unfolds(replies + more);
    lemma_sending_extends(0, None, replies, more);
}

/// Once the last byte of the greeting is stored the run is over: whatever
/// the control register would yield from then on, no register is accessed
/// again.
pub proof fn law_quiet_after_greeting(replies: Seq<u32>, more: Seq<u32>)
    ensures
        data_writes(boot_trace(replies)).len() == greeting_words().len() ==> boot_trace(
            replies + more,
        ) == boot_trace(replies),
        forall|reply: Option<u32>| #[trigger]
            run(Firmware::Idle, reply, more) == Seq::<Access>::empty(),
{
    lemma_register_map();
    lemma_boot_unfolds(replies);
    lemma_boot_unfolds(replies + more);
    lemma_sending_extends(0, None, replies, more);
    lemma_data_writes_cons(
        Access::Write { addr: ctrl_addr(), val: enable_word() },
        run(Firmware::Sending { sent: 0 }, None, replies),
    );
}

/// Once the fault handler has run, from wherever the program stood, no
/// register is accessed again.
pub proof fn law_quiet_after_fault(reply: Option<u32>, replies: Seq<u32>)
    ensures
        Firmware::Fault.request(reply) is None,
        Firmware::Fault.next(reply) == Firmware::Fault,
        run(Firmware::Fault, reply, replies) == Seq::<Access>::empty(),
{
}

} // verus!

use neorv32_hello::firmware::{replay, Firmware, GREETING};
use neorv32_hello::regs::{Access, Request};

const CTRL: usize = 0xFFFF_FFC4;
const DATA: usize = 0xFFFF_FFC0;
const READY: u32 = 0x8000;

const GREETING_BYTES: [u8; 36] = [
    0x48, 0x65, 0x6c, 0x6c, 0x6f, 0x2c, 0x20, 0x57, 0x6f, 0x72, 0x6c, 0x64, 0x20, 0x66, 0x72,
    0x6f, 0x6d, 0x20, 0x52, 0x75, 0x73, 0x74, 0x20, 0x6f, 0x6e, 0x20, 0x4e, 0x45, 0x4f, 0x52,
    0x56, 0x33, 0x32, 0x21, 0x0d, 0x0a,
];

/// A stand-in for the peripheral: after each byte it takes, the control
/// register reports not-ready for `delay` loads before it reports ready.
struct SimUart {
    delay: u32,
    wait: u32,
    ctrl: u32,
    line: Vec<u8>,
    log: Vec<Access>,
}

impl SimUart {
    fn new(delay: u32) -> SimUart {
        SimUart { delay, wait: delay, ctrl: 0, line: Vec::new(), log: Vec::new() }
    }

    fn read(&mut self, addr: usize) -> u32 {
        let val = if addr != CTRL {
            0
        } else if self.wait == 0 {
            self.ctrl | READY
        } else {
            self.wait -= 1;
            self.ctrl & !READY
        };
        self.log.push(Access::Read { addr, val });
        val
    }

    fn write(&mut self, addr: usize, val: u32) {
        if addr == DATA {
            self.line.push(val as u8);
            self.wait = self.delay;
        } else if addr == CTRL {
            self.ctrl = val & !READY;
        }
        self.log.push(Access::Write { addr, val });
    }
}

/// Performs up to `limit` steps of the program on the stand-in, the way the
/// start-up code does on the real bus. Returns whether the program ran dry.
fn drive(fw: &mut Firmware, reply: &mut Option<u32>, sim: &mut SimUart, limit: usize) -> bool {
    for _ in 0..limit {
        match fw.step(*reply) {
            Some(Request::Write { addr, val }) => {
                sim.write(addr, val);
                *reply = None;
            }
            Some(Request::Read { addr }) => {
                *reply = Some(sim.read(addr));
            }
            None => return true,
        }
    }
    false
}

fn expected_log(delay: u32) -> Vec<Access> {
    let mut log = vec![Access::Write { addr: CTRL, val: 3 }];
    for b in GREETING_BYTES.iter() {
        for _ in 0..delay {
            log.push(Access::Read { addr: CTRL, val: 3 });
        }
        log.push(Access::Read { addr: CTRL, val: 3 | READY });
        log.push(Access::Write { addr: DATA, val: u32::from(*b) });
    }
    log
}

#[test]
fn greeting_is_the_expected_text() {
    assert_eq!(GREETING, "Hello, World from Rust on NEORV32!\r\n");
    assert_eq!(GREETING.as_bytes(), &GREETING_BYTES[..]);
    assert_eq!(GREETING.len(), 36);
    assert!(GREETING.ends_with("\r\n"));
}

#[test]
fn new_starts_at_boot() {
    assert_eq!(Firmware::new(), Firmware::Boot);
}

#[test]
fn first_step_enables_the_uart() {
    let mut fw = Firmware::new();
    assert_eq!(fw.step(None), Some(Request::Write { addr: CTRL, val: 3 }));
    assert_eq!(fw, Firmware::Sending { sent: 0 });
}

#[test]
fn first_step_ignores_the_reply() {
    let mut fw = Firmware::new();
    assert_eq!(fw.step(Some(READY)), Some(Request::Write { addr: CTRL, val: 3 }));
    assert_eq!(fw, Firmware::Sending { sent: 0 });
}

#[test]
fn steps_follow_the_peripheral() {
    let mut fw = Firmware::new();
    assert_eq!(fw.step(None), Some(Request::Write { addr: CTRL, val: 3 }));
    assert_eq!(fw.step(None), Some(Request::Read { addr: CTRL }));
    assert_eq!(fw, Firmware::Sending { sent: 0 });
    assert_eq!(fw.step(Some(3)), Some(Request::Read { addr: CTRL }));
    assert_eq!(fw, Firmware::Sending { sent: 0 });
    assert_eq!(fw.step(Some(3 | READY)), Some(Request::Write { addr: DATA, val: 0x48 }));
    assert_eq!(fw, Firmware::Sending { sent: 1 });
    assert_eq!(fw.step(None), Some(Request::Read { addr: CTRL }));
    assert_eq!(fw.step(Some(READY)), Some(Request::Write { addr: DATA, val: 0x65 }));
    assert_eq!(fw, Firmware::Sending { sent: 2 });
}

#[test]
fn last_byte_then_idle() {
    let mut fw = Firmware::Sending { sent: 35 };
    assert_eq!(fw.step(None), Some(Request::Read { addr: CTRL }));
    assert_eq!(fw.step(Some(READY)), Some(Request::Write { addr: DATA, val: 0x0a }));
    assert_eq!(fw, Firmware::Sending { sent: 36 });
    assert_eq!(fw.step(None), None);
    assert_eq!(fw, Firmware::Idle);
    assert_eq!(fw.step(None), None);
    assert_eq!(fw, Firmware::Idle);
}

#[test]
fn ready_at_once_gives_exactly_the_greeting() {
    let mut sim = SimUart::new(0);
    let mut fw = Firmware::new();
    let mut reply = None;
    assert!(drive(&mut fw, &mut reply, &mut sim, 10_000));
    assert_eq!(fw, Firmware::Idle);
    assert_eq!(sim.line, GREETING_BYTES.to_vec());
    assert_eq!(sim.line.len(), 36);
    assert_eq!(sim.log.len(), 1 + 2 * 36);
    assert_eq!(sim.log, expected_log(0));
}

#[test]
fn ready_after_n_polls_gives_n_plus_one_reads_per_byte() {
    for delay in [0u32, 1, 2, 3, 7, 50] {
        let mut sim = SimUart::new(delay);
        let mut fw = Firmware::new();
        let mut reply = None;
        assert!(drive(&mut fw, &mut reply, &mut sim, 1_000_000));
        assert_eq!(fw, Firmware::Idle);
        assert_eq!(sim.line, GREETING_BYTES.to_vec());

        let mut reads = 0u32;
        let mut stores = 0usize;
        for access in sim.log.iter().skip(1) {
            match access {
                Access::Read { addr, .. } => {
                    assert_eq!(*addr, CTRL);
                    reads += 1;
                }
                Access::Write { addr, val } => {
                    assert_eq!(*addr, DATA);
                    assert_eq!(*val, u32::from(GREETING_BYTES[stores]));
                    assert_eq!(reads, delay + 1);
                    reads = 0;
                    stores += 1;
                }
            }
        }
        assert_eq!(stores, 36);
        assert_eq!(reads, 0);
        assert_eq!(sim.log, expected_log(delay));
    }
}

#[test]
fn nothing_happens_after_the_greeting() {
    let mut sim = SimUart::new(1);
    let mut fw = Firmware::new();
    let mut reply = None;
    assert!(drive(&mut fw, &mut reply, &mut sim, 10_000));
    let log = sim.log.clone();
    for word in [0u32, 3, READY, 0xFFFF_FFFF] {
        for _ in 0..100 {
            assert_eq!(fw.step(None), None);
            assert_eq!(fw.step(Some(word)), None);
            assert_eq!(fw, Firmware::Idle);
        }
    }
    assert!(drive(&mut fw, &mut reply, &mut sim, 10_000));
    assert_eq!(sim.log, log);
}

#[test]
fn a_peripheral_that_is_never_ready_gets_polls_only() {
    let mut sim = SimUart::new(u32::MAX);
    let mut fw = Firmware::new();
    let mut reply = None;
    assert!(!drive(&mut fw, &mut reply, &mut sim, 5_000));
    assert_eq!(fw, Firmware::Sending { sent: 0 });
    assert!(sim.line.is_empty());
    assert_eq!(sim.log.len(), 5_000);
    assert_eq!(sim.log[0], Access::Write { addr: CTRL, val: 3 });
    for access in sim.log.iter().skip(1) {
        assert_eq!(*access, Access::Read { addr: CTRL, val: 3 });
    }
}

#[test]
fn panic_halts_from_every_state() {
    for stop in 0..=120usize {
        let mut sim = SimUart::new(1);
        let mut fw = Firmware::new();
        let mut reply = None;
        drive(&mut fw, &mut reply, &mut sim, stop);
        let log = sim.log.clone();

        fw.panic();
        assert_eq!(fw, Firmware::Fault);
        assert!(drive(&mut fw, &mut reply, &mut sim, 1_000));
        for word in [0u32, READY, 0xFFFF_FFFF] {
            assert_eq!(fw.step(None), None);
            assert_eq!(fw.step(Some(word)), None);
            assert_eq!(fw, Firmware::Fault);
        }
        assert_eq!(sim.log, log);
    }
}

#[test]
fn panic_halts_states_given_by_hand() {
    for start in [
        Firmware::Boot,
        Firmware::Sending { sent: 0 },
        Firmware::Sending { sent: 17 },
        Firmware::Sending { sent: 36 },
        Firmware::Sending { sent: usize::MAX },
        Firmware::Idle,
        Firmware::Fault,
    ] {
        let mut fw = start;
        fw.panic();
        assert_eq!(fw, Firmware::Fault);
        assert_eq!(fw.step(Some(READY)), None);
        assert_eq!(fw, Firmware::Fault);
        fw.panic();
        assert_eq!(fw, Firmware::Fault);
    }
}

#[test]
fn a_count_past_the_end_goes_idle() {
    let mut fw = Firmware::Sending { sent: 1_000 };
    assert_eq!(fw.step(Some(READY)), None);
    assert_eq!(fw, Firmware::Idle);
}

#[test]
fn replay_agrees_with_the_stand_in() {
    for delay in [0u32, 1, 4] {
        let mut script = Vec::new();
        for _ in 0..36 {
            for _ in 0..delay {
                script.push(3u32);
            }
            script.push(3 | READY);
        }
        assert_eq!(replay(&script), expected_log(delay));
    }
}

#[test]
fn replay_without_replies_only_enables() {
    assert_eq!(replay(&[]), vec![Access::Write { addr: CTRL, val: 3 }]);
}

#[test]
fn replay_stops_when_the_script_runs_out() {
    assert_eq!(
        replay(&[0, 0]),
        vec![
            Access::Write { addr: CTRL, val: 3 },
            Access::Read { addr: CTRL, val: 0 },
            Access::Read { addr: CTRL, val: 0 },
        ]
    );
    assert_eq!(
        replay(&[0, READY, 0x7FFF]),
        vec![
            Access::Write { addr: CTRL, val: 3 },
            Access::Read { addr: CTRL, val: 0 },
            Access::Read { addr: CTRL, val: READY },
            Access::Write { addr: DATA, val: 0x48 },
            Access::Read { addr: CTRL, val: 0x7FFF },
        ]
    );
}

#[test]
fn replay_ends_with_the_last_byte() {
    let script = vec![READY; 36];
    let trace = replay(&script);
    assert_eq!(trace.len(), 73);
    assert_eq!(trace[72], Access::Write { addr: DATA, val: 0x0a });
}

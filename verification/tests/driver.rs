use dht_hal::kind::{self, DhtKind};
use dht_hal::{DataPin, Delay, Dht, Dht11, Dht22, Error, ErrorKind};
use std::cell::RefCell;
use std::collections::VecDeque;
use std::rc::Rc;

/// What a driver did to the line or the clock.
#[derive(Debug, Clone, Copy, PartialEq, Eq)]
enum Op {
    Read(bool),
    SetHigh,
    SetLow,
    Failed,
    DelayUs(u16),
    DelayMs(u16),
}

/// The error of the simulated pin: the number of the pin operation that
/// failed.
#[derive(Debug, Clone, Copy, PartialEq, Eq)]
struct Fault(usize);

/// A line that plays back a script of levels, one per read, and stays at
/// `idle` once the script has run out.
struct Line {
    script: VecDeque<bool>,
    idle: bool,
    fail_on: Option<usize>,
    pin_ops: usize,
    ops: Vec<Op>,
}

impl Line {
    fn new(script: Vec<bool>, idle: bool) -> Rc<RefCell<Line>> {
        Rc::new(RefCell::new(Line {
            script: script.into(),
            idle,
            fail_on: None,
            pin_ops: 0,
            ops: Vec::new(),
        }))
    }

    fn failing(script: Vec<bool>, idle: bool, fail_on: usize) -> Rc<RefCell<Line>> {
        let line = Line::new(script, idle);
        line.borrow_mut().fail_on = Some(fail_on);
        line
    }

    fn pin_op(&mut self, op: Op) -> Result<(), Fault> {
        let n = self.pin_ops;
        self.pin_ops += 1;
        if self.fail_on == Some(n) {
            self.ops.push(Op::Failed);
            Err(Fault(n))
        } else {
            self.ops.push(op);
            Ok(())
        }
    }
}

struct SimPin(Rc<RefCell<Line>>);

struct SimDelay(Rc<RefCell<Line>>);

impl DataPin for SimPin {
    type Error = Fault;

    fn is_high(&self) -> Result<bool, Fault> {
        let mut line = self.0.borrow_mut();
        let idle = line.idle;
        let level = line.script.front().copied().unwrap_or(idle);
        line.pin_op(Op::Read(level))?;
        line.script.pop_front();
        Ok(level)
    }

    fn set_high(&mut self) -> Result<(), Fault> {
        self.0.borrow_mut().pin_op(Op::SetHigh)
    }

    fn set_low(&mut self) -> Result<(), Fault> {
        self.0.borrow_mut().pin_op(Op::SetLow)
    }
}

impl Delay for SimDelay {
    fn delay_us(&mut self, us: u16) {
        self.0.borrow_mut().ops.push(Op::DelayUs(us));
    }

    fn delay_ms(&mut self, ms: u16) {
        self.0.borrow_mut().ops.push(Op::DelayMs(ms));
    }
}

fn driver<K: DhtKind>(line: &Rc<RefCell<Line>>) -> Dht<SimPin, SimDelay, K> {
    Dht::new(SimPin(line.clone()), SimDelay(line.clone()))
}

/// The reads of a pulse that stays at `level` for `ticks` reads: those, and
/// the read that finds the other level.
fn pulse(script: &mut Vec<bool>, level: bool, ticks: usize) {
    for _ in 0..ticks {
        script.push(level);
    }
    script.push(!level);
}

/// The reads of the two acknowledgement pulses.
fn acknowledgement() -> Vec<bool> {
    let mut script = Vec::new();
    pulse(&mut script, false, 80);
    pulse(&mut script, true, 80);
    script
}

/// The reads of a whole answer of the sensor that sends five bytes.
fn transmission(bytes: [u8; 5]) -> Vec<bool> {
    let mut script = acknowledgement();
    for k in 0..40 {
        let bit = (bytes[k / 8] >> (7 - k % 8)) & 1;
        pulse(&mut script, false, 50);
        pulse(&mut script, true, if bit == 1 { 70 } else { 27 });
    }
    script
}

fn start_signal(start_delay: u16) -> Vec<Op> {
    vec![
        Op::SetHigh,
        Op::DelayMs(1),
        Op::SetLow,
        Op::DelayUs(start_delay),
        Op::SetHigh,
        Op::DelayUs(40),
    ]
}

fn reads(ops: &[Op]) -> usize {
    ops.iter().filter(|op| matches!(op, Op::Read(_))).count()
}

#[test]
fn pulse_length_is_the_number_of_ticks_at_the_level() {
    for &ticks in &[0usize, 1, 2, 27, 80, 254, 255] {
        for &level in &[false, true] {
            let mut script = Vec::new();
            pulse(&mut script, level, ticks);
            let line = Line::new(script, level);
            let mut dht = driver::<kind::Dht22>(&line);
            assert_eq!(dht.read_pulse_us(level), Ok(ticks as u8));
            let mut expected = Vec::new();
            for _ in 0..ticks {
                expected.push(Op::Read(level));
                expected.push(Op::DelayUs(1));
            }
            expected.push(Op::Read(!level));
            assert_eq!(line.borrow().ops, expected);
        }
    }
}

#[test]
fn pulse_that_never_ends_times_out() {
    for &level in &[false, true] {
        let line = Line::new(Vec::new(), level);
        let mut dht = driver::<kind::Dht11>(&line);
        assert_eq!(dht.read_pulse_us(level), Err(ErrorKind::Timeout));
        let ops = line.borrow().ops.clone();
        assert_eq!(ops.len(), 512);
        for pair in ops.chunks(2) {
            assert_eq!(pair, &[Op::Read(level), Op::DelayUs(1)]);
        }
    }
}

#[test]
fn pulse_of_256_ticks_is_one_too_long() {
    let mut script = Vec::new();
    pulse(&mut script, true, 255);
    let line = Line::new(script, false);
    assert_eq!(driver::<kind::Dht22>(&line).read_pulse_us(true), Ok(255));
    assert_eq!(reads(&line.borrow().ops), 256);

    let mut script = Vec::new();
    pulse(&mut script, true, 256);
    let line = Line::new(script, false);
    assert_eq!(driver::<kind::Dht22>(&line).read_pulse_us(true), Err(ErrorKind::Timeout));
    assert_eq!(reads(&line.borrow().ops), 256);
}

#[test]
fn pulse_ends_with_the_error_of_a_failed_read() {
    let line = Line::failing(Vec::new(), true, 0);
    assert_eq!(driver::<kind::Dht22>(&line).read_pulse_us(true), Err(ErrorKind::Io(Fault(0))));
    assert_eq!(line.borrow().ops, vec![Op::Failed]);

    let line = Line::failing(Vec::new(), true, 3);
    assert_eq!(driver::<kind::Dht22>(&line).read_pulse_us(true), Err(ErrorKind::Io(Fault(3))));
    assert_eq!(
        line.borrow().ops,
        vec![
            Op::Read(true),
            Op::DelayUs(1),
            Op::Read(true),
            Op::DelayUs(1),
            Op::Read(true),
            Op::DelayUs(1),
            Op::Failed,
        ]
    );
}

#[test]
fn handshake_sends_the_start_signal_of_the_kind() {
    let line = Line::new(acknowledgement(), false);
    assert_eq!(driver::<kind::Dht11>(&line).start_signal_blocking(), Ok(()));
    assert_eq!(line.borrow().ops[..6], start_signal(20_000)[..]);

    let line = Line::new(acknowledgement(), false);
    assert_eq!(driver::<kind::Dht22>(&line).start_signal_blocking(), Ok(()));
    assert_eq!(line.borrow().ops[..6], start_signal(1_100)[..]);
}

#[test]
fn handshake_consumes_both_acknowledgement_pulses() {
    let line = Line::new(acknowledgement(), false);
    assert_eq!(driver::<kind::Dht22>(&line).start_signal_blocking(), Ok(()));
    let ops = line.borrow().ops.clone();
    // 80 reads and the read of the edge, twice; a wait after all but the two
    // that found the edge.
    assert_eq!(reads(&ops), 162);
    assert_eq!(ops.len(), 6 + 162 + 160);
    assert_eq!(ops[6], Op::Read(false));
    assert_eq!(ops[6 + 160], Op::Read(true));
    assert_eq!(ops[6 + 161], Op::Read(true));
    assert_eq!(ops[ops.len() - 1], Op::Read(false));
    assert!(line.borrow().script.is_empty());
}

#[test]
fn handshake_fails_with_the_error_of_the_pin() {
    for step in 0..3 {
        let line = Line::failing(acknowledgement(), false, step);
        let r = driver::<kind::Dht22>(&line).start_signal_blocking();
        assert_eq!(r, Err(ErrorKind::Io(Fault(step))));
        let ops = line.borrow().ops.clone();
        assert_eq!(ops.len(), 2 * step + 1);
        assert_eq!(ops[..2 * step], start_signal(1_100)[..2 * step]);
        assert_eq!(ops[2 * step], Op::Failed);
    }
    // The fourth operation on the pin is the first read of the low pulse.
    let line = Line::failing(acknowledgement(), false, 3);
    let r = driver::<kind::Dht22>(&line).start_signal_blocking();
    assert_eq!(r, Err(ErrorKind::Io(Fault(3))));
    assert_eq!(line.borrow().ops.len(), 7);
}

#[test]
fn handshake_times_out_without_a_sensor() {
    // A line that the pull-up keeps high: the low pulse has no length and
    // the high pulse never ends.
    let line = Line::new(Vec::new(), true);
    assert_eq!(driver::<kind::Dht22>(&line).start_signal_blocking(), Err(ErrorKind::Timeout));
    assert_eq!(reads(&line.borrow().ops), 1 + 256);
    // A line stuck low: the low pulse never ends.
    let line = Line::new(Vec::new(), false);
    assert_eq!(driver::<kind::Dht22>(&line).start_signal_blocking(), Err(ErrorKind::Timeout));
    assert_eq!(reads(&line.borrow().ops), 256);
}

#[test]
fn read_returns_what_the_sensor_sent() {
    let line = Line::new(transmission([0x02, 0x8c, 0x01, 0x5f, 0xee]), true);
    let mut dht: Dht22<SimPin, SimDelay> = Dht::new(SimPin(line.clone()), SimDelay(line.clone()));
    let reading = dht.read_blocking().unwrap();
    assert_eq!(reading.rh_integral(), 0x02);
    assert_eq!(reading.rh_decimal(), 0x8c);
    assert_eq!(reading.t_integral(), 0x01);
    assert_eq!(reading.t_decimal(), 0x5f);
    assert_eq!(reading.humidity_tenths(), 652);
    assert_eq!(reading.temp_tenths(), 351);
    assert!(line.borrow().script.is_empty());
    assert_eq!(line.borrow().ops[..6], start_signal(1_100)[..]);
    // 17 ones and 23 zeros, each pulse with the read that finds its end.
    assert_eq!(reads(&line.borrow().ops), 2 * 81 + 40 * 51 + 23 * 28 + 17 * 71);

    let line = Line::new(transmission([45, 0, 26, 0x85, 204]), true);
    let mut dht: Dht11<SimPin, SimDelay> = Dht::new(SimPin(line.clone()), SimDelay(line.clone()));
    let reading = dht.read_blocking().unwrap();
    assert_eq!(reading.humidity_tenths(), 450);
    assert_eq!(reading.temp_tenths(), -265);
    assert_eq!(line.borrow().ops[..6], start_signal(20_000)[..]);
}

#[test]
fn read_reports_a_bad_checksum() {
    let line = Line::new(transmission([0x02, 0x8c, 0x01, 0x5f, 0x00]), true);
    let e = driver::<kind::Dht22>(&line).read_blocking().unwrap_err();
    assert!(e.is_checksum());
    assert_eq!(e, Error::from(ErrorKind::Checksum { expected: 0xee, actual: 0x00 }));
    assert!(line.borrow().script.is_empty());
}

#[test]
fn failed_handshake_is_an_io_error_and_ends_the_read() {
    for step in 0..3 {
        let line = Line::failing(transmission([0x02, 0x8c, 0x01, 0x5f, 0xee]), true, step);
        let e = driver::<kind::Dht22>(&line).read_blocking().unwrap_err();
        assert!(e.is_io());
        assert!(!e.is_timeout());
        assert!(!e.is_checksum());
        assert_eq!(e.into_io(), Some(Fault(step)));
        let ops = line.borrow().ops.clone();
        assert_eq!(ops.len(), 2 * step + 1);
        assert_eq!(ops[2 * step], Op::Failed);
        assert_eq!(reads(&ops), 0);
    }
    // A failed read during the acknowledgement.
    let line = Line::failing(transmission([0x02, 0x8c, 0x01, 0x5f, 0xee]), true, 100);
    let e = driver::<kind::Dht22>(&line).read_blocking().unwrap_err();
    assert_eq!(e.into_io(), Some(Fault(100)));
    assert_eq!(line.borrow().ops.last(), Some(&Op::Failed));
    assert_eq!(reads(&line.borrow().ops), 97);
}

#[test]
fn read_fails_with_the_error_of_a_read_within_the_frame() {
    let script = transmission([0x02, 0x8c, 0x01, 0x5f, 0xee]);
    let last = 3 + script.len() - 1;
    for &n in &[3 + 162, 3 + 162 + 10, 3 + 162 + 51, 3 + 162 + 60, last] {
        let line = Line::failing(script.clone(), true, n);
        let e = driver::<kind::Dht22>(&line).read_blocking().unwrap_err();
        assert_eq!(e, Error::from(ErrorKind::Io(Fault(n))));
        assert_eq!(line.borrow().ops.last(), Some(&Op::Failed));
        assert_eq!(reads(&line.borrow().ops), n - 3);
    }
}

#[test]
fn read_times_out_when_the_sensor_stops() {
    // The sensor falls silent within the third bit, with the line low.
    let mut script = transmission([0x02, 0x8c, 0x01, 0x5f, 0xee]);
    script.truncate(162 + 51 + 28 + 51 + 28 + 20);
    let line = Line::new(script, false);
    let e = driver::<kind::Dht22>(&line).read_blocking().unwrap_err();
    assert!(e.is_timeout());
    assert_eq!(reads(&line.borrow().ops), 162 + 51 + 28 + 51 + 28 + 256);
    // And with the line high, within a high pulse.
    let mut script = transmission([0x02, 0x8c, 0x01, 0x5f, 0xee]);
    script.truncate(162 + 51 + 10);
    let line = Line::new(script, true);
    let e = driver::<kind::Dht22>(&line).read_blocking().unwrap_err();
    assert_eq!(e, Error::from(ErrorKind::Timeout));
    assert_eq!(reads(&line.borrow().ops), 162 + 51 + 256);
}

#[test]
fn read_after_a_failed_read_starts_afresh() {
    let line = Line::new(Vec::new(), false);
    let mut dht = driver::<kind::Dht22>(&line);
    assert!(dht.read_blocking().unwrap_err().is_timeout());
    let done = line.borrow().ops.len();
    line.borrow_mut().script = transmission([0x02, 0x8c, 0x01, 0x5f, 0xee]).into();
    line.borrow_mut().idle = true;
    let reading = dht.read_blocking().unwrap();
    assert_eq!(reading.temp_tenths(), 351);
    assert_eq!(line.borrow().ops[done..done + 6], start_signal(1_100)[..]);
}

#[test]
fn equal_lengths_read_as_zero_bits() {
    // Every pulse as long as its delimiter: forty zeros, with checksum zero.
    let mut script = acknowledgement();
    for _ in 0..40 {
        pulse(&mut script, false, 50);
        pulse(&mut script, true, 50);
    }
    let line = Line::new(script, true);
    let reading = driver::<kind::Dht22>(&line).read_blocking().unwrap();
    assert_eq!(reading.humidity_tenths(), 0);
    assert_eq!(reading.temp_tenths(), 0);
}

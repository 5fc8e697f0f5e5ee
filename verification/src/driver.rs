//! The driver: start signal, pulse sampling and the read of one
//! transmission.
use vstd::prelude::*;
use std::marker::PhantomData;
use crate::bus::{Bus, DataPin, Delay, Event};
use crate::error::{Error, ErrorKind};
use crate::frame::{Pulse, Reading};
use crate::kind::DhtKind;
use crate::protocol::{
    held, lemma_held_step, pulse_events, start_signal, Attempt, Frame, Handshake, Poll,
};

verus! {

/// What a read returned, over the four data bytes of the reading and the
/// cause of the error.
pub open spec fn outcome<K, E>(r: Result<Reading<K>, Error<E>>) -> Result<Seq<u8>, ErrorKind<E>> {
    match r {
        Ok(reading) => Ok(reading@),
        Err(e) => Err(e@),
    }
}

/// A sensor of kind `K` on a data pin, with the delay provider that times
/// the protocol.
pub struct Dht<P: DataPin, T: Delay, K: DhtKind> {
    bus: Bus<P, T>,
    _kind: PhantomData<K>,
}

impl<P: DataPin, T: Delay, K: DhtKind> Dht<P, T, K> {
    /// Everything done on the pin and the delay provider since the driver
    /// was made, oldest first.
    pub closed spec fn trace(&self) -> Seq<Event<P::Error>> {
        self.bus.trace()
    }

    /// Returns a new sensor driver that owns the pin and the delay provider.
    pub fn new(pin: P, timer: T) -> (dht: Self)
        ensures
            dht.trace() == Seq::<Event<P::Error>>::empty(),
    {
        Dht { bus: Bus::new(pin, timer), _kind: PhantomData }
    }

    /// Measures for how many microsecond ticks the line stays at the level
    /// `high`: reads the line up to 256 times, one microsecond apart, and
    /// returns the number of reads that found it at that level once a read
    /// finds it at the other. A failed read ends the measurement with the
    /// pin's error; 256 reads at the level end it with a timeout.
    ///
    /// The sensor's pulses are tens of microseconds long, so nothing but the
    /// read and the wait happens between two ticks.
    #[inline(always)]
    pub fn read_pulse_us(&mut self, high: bool) -> (r: Result<u8, ErrorKind<P::Error>>)
        ensures
            exists|poll: Poll<P::Error>|
                final(self).trace() == old(self).trace() + #[trigger] poll.events(high)
                    && r == poll.result(),
    {
        let ghost before = self.trace();
        let mut len: u16 = 0;
        while len < 256
            invariant
                len <= 256,
                before == old(self).trace(),
                self.trace() == before + held::<P::Error>(len as nat, high),
            decreases 256 - len,
        {
            match self.bus.is_high() {
                Err(e) => {
                    proof {
                        let poll = Poll::Fault(len as u8, e);
                        assert(self.trace() =~= before + poll.events(high));
                    }
                    return Err(ErrorKind::Io(e));
                },
                Ok(level) => {
                    if level != high {
                        proof {
                            let poll = Poll::<P::Error>::Edge(len as u8);
                            assert(self.trace() =~= before + poll.events(high));
                        }
                        return Ok(len as u8);
                    }
                },
            }
            self.bus.delay_us(1);
            proof {
                lemma_held_step::<P::Error>(len as nat, high);
                assert(self.trace() =~= before + held::<P::Error>((len + 1) as nat, high));
            }
            len += 1;
        }
        proof {
            let poll = Poll::<P::Error>::Expired;
            assert(self.trace() =~= before + poll.events(high));
        }
        Err(ErrorKind::Timeout)
    }

    /// Sends the start signal and waits until the sensor has acknowledged
    /// it with a low and then a high pulse. The first step that fails ends
    /// the handshake: a failed drive or read of the line with the pin's
    /// error, an acknowledgement that does not end with a timeout.
    pub fn start_signal_blocking(&mut self) -> (r: Result<(), ErrorKind<P::Error>>)
        ensures
            exists|handshake: Handshake<P::Error>|
                handshake.wf() && final(self).trace() == old(self).trace()
                    + #[trigger] handshake.events(K::start_delay()) && r == handshake.result(),
    {
        let ghost before = self.trace();
        let ghost delay = K::start_delay();
        // Pull the line up for a millisecond.
        match self.bus.set_high() {
            Err(e) => {
                proof {
                    let handshake = Handshake::PullUp(e);
                    assert(self.trace() =~= before + handshake.events(delay));
                }
                return Err(ErrorKind::Io(e));
            },
            Ok(()) => {},
        }
        self.bus.delay_ms(1);
        // Hold it low for the start delay, then release it.
        match self.bus.set_low() {
            Err(e) => {
                proof {
                    let handshake = Handshake::Start(e);
                    assert(self.trace() =~= before + handshake.events(delay));
                }
                return Err(ErrorKind::Io(e));
            },
            Ok(()) => {},
        }
        self.bus.delay_us(K::start_delay_us());
        match self.bus.set_high() {
            Err(e) => {
                proof {
                    let handshake = Handshake::Release(e);
                    assert(self.trace() =~= before + handshake.events(delay));
                }
                return Err(ErrorKind::Io(e));
            },
            Ok(()) => {},
        }
        self.bus.delay_us(40);
        let ghost sent = self.trace();
        assert(sent =~= before + start_signal::<P::Error>(delay));
        // The sensor answers with a low pulse and a high pulse of about 80
        // microseconds each.
        let low = match self.read_pulse_us(false) {
            Err(e) => {
                proof {
                    let poll = choose|poll: Poll<P::Error>|
                        self.trace() == sent + #[trigger] poll.events(false) && Err::<u8, _>(e)
                            == poll.result();
                    let handshake = Handshake::AckLow(poll);
                    assert(self.trace() =~= before + handshake.events(delay));
                }
                return Err(e);
            },
            Ok(low) => low,
        };
        let ghost acked = self.trace();
        assert(acked =~= before + start_signal::<P::Error>(delay) + Poll::<P::Error>::Edge(
            low,
        ).events(false)) by {
            let poll = choose|poll: Poll<P::Error>|
                acked == sent + #[trigger] poll.events(false) && Ok::<u8, ErrorKind<P::Error>>(low)
                    == poll.result();
            assert(poll == Poll::<P::Error>::Edge(low));
        }
        let r = self.read_pulse_us(true);
        proof {
            let poll = choose|poll: Poll<P::Error>|
                self.trace() == acked + #[trigger] poll.events(true) && r == poll.result();
            let handshake = Handshake::AckHigh(low, poll);
            assert(self.trace() =~= before + handshake.events(delay));
        }
        match r {
            Err(e) => Err(e),
            Ok(_) => Ok(()),
        }
    }

    /// Reads the sensor once: handshake, 40 pulse pairs, decoding. The
    /// first step that fails ends the attempt with its error, and nothing
    /// more is done on the line.
    ///
    /// The sensor's timing leaves no room for interruptions: call this with
    /// interrupts disabled, and no more often than the sensor allows.
    pub fn read_blocking(&mut self) -> (r: Result<Reading<K>, Error<P::Error>>)
        ensures
            exists|attempt: Attempt<P::Error>|
                attempt.wf() && final(self).trace() == old(self).trace()
                    + #[trigger] attempt.events(K::start_delay()) && outcome(r)
                    == attempt.result(),
    {
        let ghost before = self.trace();
        let ghost delay = K::start_delay();
        let started = self.start_signal_blocking();
        let ghost handshake = choose|handshake: Handshake<P::Error>|
            handshake.wf() && self.trace() == before + #[trigger] handshake.events(delay)
                && started == handshake.result();
        match started {
            Err(e) => {
                let error = Error::from(e);
                proof {
                    let attempt = Attempt::Unanswered(handshake);
                    assert(self.trace() =~= before + attempt.events(delay));
                }
                return Err(error);
            },
            Ok(_) => {},
        }
        // Measure the 40 pulse pairs first and decode them afterwards, to
        // keep the work between two reads of the line small.
        let mut pulses = [Pulse { lo: 0, hi: 0 }; 40];
        let mut i: usize = 0;
        while i < 40
            invariant
                i <= 40,
                before == old(self).trace(),
                delay == K::start_delay(),
                handshake.wf(),
                handshake.result() is Ok,
                self.trace() == before + handshake.events(delay) + pulse_events::<P::Error>(
                    pulses@.take(i as int),
                ),
            decreases 40 - i,
        {
            let ghost done = pulses@.take(i as int);
            let ghost at_pulse = self.trace();
            let lo = match self.read_pulse_us(false) {
                Err(e) => {
                    let error = Error::from(e);
                    proof {
                        let poll = choose|poll: Poll<P::Error>|
                            self.trace() == at_pulse + #[trigger] poll.events(false) && Err::<
                                u8,
                                _,
                            >(e) == poll.result();
                        let attempt = Attempt::Answered(handshake, Frame::Delimiter(done, poll));
                        assert(self.trace() =~= before + attempt.events(delay));
                    }
                    return Err(error);
                },
                Ok(lo) => lo,
            };
            let ghost at_high = self.trace();
            assert(at_high == at_pulse + Poll::<P::Error>::Edge(lo).events(false)) by {
                let poll = choose|poll: Poll<P::Error>|
                    at_high == at_pulse + #[trigger] poll.events(false) && Ok::<
                        u8,
                        ErrorKind<P::Error>,
                    >(lo) == poll.result();
                assert(poll == Poll::<P::Error>::Edge(lo));
            }
            let hi = match self.read_pulse_us(true) {
                Err(e) => {
                    let error = Error::from(e);
                    proof {
                        let poll = choose|poll: Poll<P::Error>|
                            self.trace() == at_high + #[trigger] poll.events(true) && Err::<u8, _>(
                                e,
                            ) == poll.result();
                        let attempt = Attempt::Answered(handshake, Frame::Data(done, lo, poll));
                        assert(self.trace() =~= before + attempt.events(delay));
                    }
                    return Err(error);
                },
                Ok(hi) => hi,
            };
            assert(self.trace() == at_high + Poll::<P::Error>::Edge(hi).events(true)) by {
                let poll = choose|poll: Poll<P::Error>|
                    self.trace() == at_high + #[trigger] poll.events(true) && Ok::<
                        u8,
                        ErrorKind<P::Error>,
                    >(hi) == poll.result();
                assert(poll == Poll::<P::Error>::Edge(hi));
            }
            pulses[i] = Pulse { lo, hi };
            proof {
                let now = pulses@.take(i + 1);
                assert(now.drop_last() =~= done);
                assert(now.last() == Pulse { lo, hi });
                assert(self.trace() =~= before + handshake.events(delay) + pulse_events::<
                    P::Error,
                >(now));
            }
            i += 1;
        }
        proof {
            assert(pulses@.take(40) =~= pulses@);
            let attempt = Attempt::Answered(handshake, Frame::Complete(pulses@));
            assert(self.trace() =~= before + attempt.events(delay));
        }
        match Reading::from_pulses(&pulses) {
            Ok(reading) => Ok(reading),
            Err(e) => Err(Error::from(e)),
        }
    }
}

} // verus!

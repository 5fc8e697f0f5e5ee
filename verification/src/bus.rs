//! The two collaborators of the driver, the data pin and the delay
//! provider, and the record of what the driver did with them.
//!
//! Nothing is assumed of either collaborator: a pin may answer anything.
//! Instead every call is entered, with its answer, in a ghost log. The log
//! grows only in the five methods of [`Bus`], each of which makes exactly the
//! call that it enters.
use vstd::prelude::*;

verus! {

/// The sensor's data line: an open-drain pin that can be driven and read.
pub trait DataPin {
    /// The error with which an operation on the pin can fail.
    type Error;

    /// Reads the level of the line.
    fn is_high(&self) -> Result<bool, Self::Error>;

    /// Drives the line high, that is, releases it to the pull-up.
    fn set_high(&mut self) -> Result<(), Self::Error>;

    /// Drives the line low.
    fn set_low(&mut self) -> Result<(), Self::Error>;
}

/// A provider of blocking delays.
pub trait Delay {
    /// Blocks for `us` microseconds.
    fn delay_us(&mut self, us: u16);

    /// Blocks for `ms` milliseconds.
    fn delay_ms(&mut self, ms: u16);
}

/// One call on a collaborator, with what it answered.
pub enum Event<E> {
    /// The line was read.
    Sampled(Result<bool, E>),
    /// The line was driven high; the pin's error, if that failed.
    DroveHigh(Option<E>),
    /// The line was driven low; the pin's error, if that failed.
    DroveLow(Option<E>),
    /// The delay provider blocked for so many microseconds.
    WaitedUs(u16),
    /// The delay provider blocked for so many milliseconds.
    WaitedMs(u16),
}

/// The error of a failed drive of the line.
pub open spec fn failure<E>(r: Result<(), E>) -> Option<E> {
    match r {
        Ok(_) => None,
        Err(e) => Some(e),
    }
}

/// A data pin and a delay provider together with the log of the calls made
/// on them.
pub struct Bus<P: DataPin, T: Delay> {
    pin: P,
    timer: T,
    log: Ghost<Seq<Event<P::Error>>>,
}

impl<P: DataPin, T: Delay> Bus<P, T> {
    /// The calls made so far, oldest first.
    pub closed spec fn trace(&self) -> Seq<Event<P::Error>> {
        self.log@
    }

    /// Takes over a pin and a delay provider, with an empty log.
    pub fn new(pin: P, timer: T) -> (bus: Self)
        ensures
            bus.trace() == Seq::<Event<P::Error>>::empty(),
    {
        Bus { pin, timer, log: Ghost(Seq::empty()) }
    }

    /// Reads the level of the line.
    #[inline(always)]
    pub fn is_high(&mut self) -> (r: Result<bool, P::Error>)
        ensures
            final(self).trace() == old(self).trace().push(Event::Sampled(r)),
    {
        let r = self.pin.is_high();
        proof {
            self.log@ = self.log@.push(Event::Sampled(r));
        }
        r
    }

    /// Drives the line high.
    pub fn set_high(&mut self) -> (r: Result<(), P::Error>)
        ensures
            final(self).trace() == old(self).trace().push(Event::DroveHigh(failure(r))),
    {
        let r = self.pin.set_high();
        proof {
            self.log@ = self.log@.push(Event::DroveHigh(failure(r)));
        }
        r
    }

    /// Drives the line low.
    pub fn set_low(&mut self) -> (r: Result<(), P::Error>)
        ensures
            final(self).trace() == old(self).trace().push(Event::DroveLow(failure(r))),
    {
        let r = self.pin.set_low();
        proof {
            self.log@ = self.log@.push(Event::DroveLow(failure(r)));
        }
        r
    }

    /// Blocks for `us` microseconds.
    #[inline(always)]
    pub fn delay_us(&mut self, us: u16)
        ensures
            final(self).trace() == old(self).trace().push(Event::WaitedUs(us)),
    {
        self.timer.delay_us(us);
        proof {
            self.log@ = self.log@.push(Event::WaitedUs(us));
        }
    }

    /// Blocks for `ms` milliseconds.
    pub fn delay_ms(&mut self, ms: u16)
        ensures
            final(self).trace() == old(self).trace().push(Event::WaitedMs(ms)),
    {
        self.timer.delay_ms(ms);
        proof {
            self.log@ = self.log@.push(Event::WaitedMs(ms));
        }
    }
}

} // verus!

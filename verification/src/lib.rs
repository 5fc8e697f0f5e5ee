//! A driver for the DHT11 and DHT22/AM2302 humidity and temperature sensors.
//!
//! The sensor answers a start signal on its single data line with 40 bits,
//! each sent as a low delimiter followed by a high pulse whose length carries
//! the bit. The driver measures both lengths by polling the line once per
//! microsecond, assembles five bytes from the 40 pulse pairs, checks the
//! checksum and hands out the four data bytes as a [`Reading`].
//!
//! Every operation on the line is recorded in a ghost event log, and the
//! contracts of the driver state which events a call adds to the log and how
//! its result follows from them.
use vstd::prelude::*;

pub mod bus;
pub mod driver;
pub mod error;
pub mod frame;
pub mod kind;
pub mod protocol;

pub use crate::bus::{DataPin, Delay, Event};
pub use crate::driver::Dht;
pub use crate::error::{Error, ErrorKind};
pub use crate::frame::{Pulse, Reading};

verus! {

/// A DHT11 sensor: the small blue one, read at most once per second, good
/// for whole degrees and whole percents.
pub type Dht11<P, T> = Dht<P, T, kind::Dht11>;

/// A DHT22 sensor or its wired variant, the AM2302: the larger white one,
/// read at most once every two seconds, with a resolution of a tenth of a
/// degree and of a percent.
pub type Dht22<P, T> = Dht<P, T, kind::Dht22>;

} // verus!

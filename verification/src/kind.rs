//! The supported sensor models and what tells them apart: how long the
//! start signal lasts and how a byte pair encodes a physical value.
//!
//! Values are fixed-point: temperatures in tenths of a degree Celsius and
//! humidities in tenths of a percent, which is the resolution of both
//! sensors.
use vstd::prelude::*;

verus! {

/// A sensor model.
pub trait DhtKind {
    /// Microseconds for which the host holds the line low to request a
    /// transmission.
    spec fn start_delay() -> u16;

    /// Temperature that a byte pair encodes, in tenths of a degree Celsius.
    spec fn temp(integral: u8, decimal: u8) -> int;

    /// Relative humidity that a byte pair encodes, in tenths of a percent.
    spec fn humidity(integral: u8, decimal: u8) -> int;

    fn start_delay_us() -> (us: u16)
        ensures
            us == Self::start_delay(),
    ;

    fn temp_tenths(integral: u8, decimal: u8) -> (t: i16)
        ensures
            t == Self::temp(integral, decimal),
    ;

    fn humidity_tenths(integral: u8, decimal: u8) -> (h: u16)
        ensures
            h == Self::humidity(integral, decimal),
    ;
}

/// The DHT11: whole degrees and percents, with a decimal byte of which the
/// temperature uses the top bit as a sign and the low four bits as tenths.
#[derive(Debug, Clone, Copy)]
pub struct Dht11 {
    _p: (),
}

/// The DHT22 or AM2302: sixteen-bit values in tenths, the temperature in
/// sign and magnitude.
#[derive(Debug, Clone, Copy)]
pub struct Dht22 {
    _p: (),
}

impl DhtKind for Dht11 {
    /// The datasheet asks for 20 ms.
    open spec fn start_delay() -> u16 {
        20000
    }

    /// The integral byte counts degrees and the low four bits of the decimal
    /// byte count tenths. A set top bit of the decimal byte turns the degrees
    /// `n` into `-1 - n`; the tenths are added in either case.
    open spec fn temp(integral: u8, decimal: u8) -> int {
        let degrees = if decimal >= 128 {
            -1 - integral
        } else {
            integral as int
        };
        10 * degrees + decimal % 16
    }

    open spec fn humidity(integral: u8, decimal: u8) -> int {
        10 * integral + decimal
    }

    fn start_delay_us() -> (us: u16) {
        20 * 1000
    }

    fn temp_tenths(integral: u8, decimal: u8) -> (t: i16) {
        let mut degrees: i16 = integral as i16;
        if decimal & 0x80 != 0 {
            degrees = -1 - degrees;
        }
        let tenths: u8 = decimal & 0x0f;
        assert((decimal & 0x80 != 0) == (decimal >= 128) && decimal & 0x0f == decimal % 16)
            by (bit_vector);
        10 * degrees + tenths as i16
    }

    fn humidity_tenths(integral: u8, decimal: u8) -> (h: u16) {
        10 * (integral as u16) + decimal as u16
    }
}

impl DhtKind for Dht22 {
    /// The datasheet asks for at least 1 ms; this is just over it.
    open spec fn start_delay() -> u16 {
        1100
    }

    /// The low seven bits of the integral byte and the decimal byte form the
    /// magnitude; the top bit of the integral byte is the sign.
    open spec fn temp(integral: u8, decimal: u8) -> int {
        let magnitude = 256 * (integral % 128) + decimal;
        if integral >= 128 {
            -magnitude
        } else {
            magnitude
        }
    }

    open spec fn humidity(integral: u8, decimal: u8) -> int {
        256 * integral + decimal
    }

    fn start_delay_us() -> (us: u16) {
        1100
    }

    fn temp_tenths(integral: u8, decimal: u8) -> (t: i16) {
        let magnitude: u16 = ((integral & 0x7f) as u16) << 8 | decimal as u16;
        assert((((integral & 0x7f) as u16) << 8 | decimal as u16) == 256 * (integral % 128)
            + decimal && (integral & 0x80 != 0) == (integral >= 128)) by (bit_vector);
        if integral & 0x80 != 0 {
            -(magnitude as i16)
        } else {
            magnitude as i16
        }
    }

    fn humidity_tenths(integral: u8, decimal: u8) -> (h: u16) {
        let value: u16 = (integral as u16) << 8 | decimal as u16;
        assert(((integral as u16) << 8 | decimal as u16) == 256 * integral + decimal)
            by (bit_vector);
        value
    }
}

} // verus!

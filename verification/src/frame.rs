//! Decoding of the 40 pulse pairs of one transmission into a reading.
use vstd::prelude::*;
use vstd::arithmetic::power2::{
    lemma2_to64, lemma_pow2_strictly_increases, lemma_pow2_unfold, pow2,
};
use std::marker::PhantomData;
use crate::error::ErrorKind;
use crate::kind::DhtKind;

verus! {

/// The two measured lengths of one transmitted bit, in microsecond ticks:
/// the low delimiter and the high pulse that follows it.
#[derive(Clone, Copy, Debug)]
pub struct Pulse {
    pub lo: u8,
    pub hi: u8,
}

impl Pulse {
    /// The bit that the pulse carries: 1 if the high pulse is longer than
    /// the low delimiter before it, 0 if it is shorter or as long.
    pub open spec fn bit(self) -> int {
        if self.hi > self.lo {
            1
        } else {
            0
        }
    }
}

/// The byte with index `i` of a transmission: its eight pulses starting at
/// `8 * i`, the first of them the most significant bit.
pub open spec fn frame_byte(pulses: Seq<Pulse>, i: int) -> int {
    128 * pulses[8 * i].bit() + 64 * pulses[8 * i + 1].bit() + 32 * pulses[8 * i + 2].bit() + 16
        * pulses[8 * i + 3].bit() + 8 * pulses[8 * i + 4].bit() + 4 * pulses[8 * i + 5].bit() + 2
        * pulses[8 * i + 6].bit() + pulses[8 * i + 7].bit()
}

/// The five bytes of a transmission of 40 pulses.
pub open spec fn frame_bytes(pulses: Seq<Pulse>) -> Seq<u8> {
    Seq::new(5, |i: int| frame_byte(pulses, i) as u8)
}

/// The checksum that belongs to four data bytes: the low byte of their sum.
pub open spec fn checksum(data: Seq<u8>) -> u8 {
    ((data[0] + data[1] + data[2] + data[3]) % 256) as u8
}

/// What a transmission of 40 pulses decodes to: its four data bytes if the
/// fifth byte is their checksum, else the checksum error with both bytes.
pub open spec fn decode<E>(pulses: Seq<Pulse>) -> Result<Seq<u8>, ErrorKind<E>> {
    let bytes = frame_bytes(pulses);
    if bytes[4] == checksum(bytes) {
        Ok(bytes.take(4))
    } else {
        Err(ErrorKind::Checksum { expected: checksum(bytes), actual: bytes[4] })
    }
}

/// Value of the first `n` bits of byte `i`, read as an `n`-bit number.
spec fn leading_bits(pulses: Seq<Pulse>, i: int, n: nat) -> int
    decreases n,
{
    if n == 0 {
        0
    } else {
        2 * leading_bits(pulses, i, (n - 1) as nat) + pulses[8 * i + n - 1].bit()
    }
}

proof fn lemma_leading_bits_bound(pulses: Seq<Pulse>, i: int, n: nat)
    requires
        n <= 8,
    ensures
        0 <= leading_bits(pulses, i, n) < pow2(n),
    decreases n,
{
    lemma2_to64();
    if n > 0 {
        lemma_leading_bits_bound(pulses, i, (n - 1) as nat);
        lemma_pow2_unfold(n);
    }
}

proof fn lemma_all_leading_bits(pulses: Seq<Pulse>, i: int)
    ensures
        leading_bits(pulses, i, 8) == frame_byte(pulses, i),
        0 <= frame_byte(pulses, i) < 256,
{
    reveal_with_fuel(leading_bits, 9);
}

/// A combined relative humidity and temperature reading of a sensor of
/// kind `K`: the four data bytes of a transmission whose checksum matched.
#[derive(Debug)]
pub struct Reading<K> {
    rh_integral: u8,
    rh_decimal: u8,
    t_integral: u8,
    t_decimal: u8,
    _kind: PhantomData<K>,
}

impl<K> View for Reading<K> {
    type V = Seq<u8>;

    /// The four data bytes in the order of transmission: humidity integral
    /// and decimal part, temperature integral and decimal part.
    closed spec fn view(&self) -> Seq<u8> {
        seq![self.rh_integral, self.rh_decimal, self.t_integral, self.t_decimal]
    }
}

impl<K> Clone for Reading<K> {
    fn clone(&self) -> (copy: Self)
        ensures
            copy@ == self@,
    {
        Reading {
            rh_integral: self.rh_integral,
            rh_decimal: self.rh_decimal,
            t_integral: self.t_integral,
            t_decimal: self.t_decimal,
            _kind: PhantomData,
        }
    }
}

impl<K> Reading<K> {
    /// Assembles the five bytes of a transmission from its 40 pulse pairs and
    /// checks the fifth against the checksum of the first four.
    pub fn from_pulses<E>(pulses: &[Pulse; 40]) -> (r: Result<Self, ErrorKind<E>>)
        ensures
            match r {
                Ok(reading) => decode::<E>(pulses@) == Ok::<Seq<u8>, ErrorKind<E>>(reading@),
                Err(e) => decode::<E>(pulses@) == Err::<Seq<u8>, ErrorKind<E>>(e),
            },
    {
        let mut bytes = [0u8; 5];
        let mut i: usize = 0;
        while i < 5
            invariant
                i <= 5,
                forall|k: int| 0 <= k < i ==> bytes@[k] == frame_byte(pulses@, k),
            decreases 5 - i,
        {
            let mut byte: u8 = 0;
            let mut j: usize = 0;
            while j < 8
                invariant
                    i < 5,
                    j <= 8,
                    byte == leading_bits(pulses@, i as int, j as nat),
                decreases 8 - j,
            {
                let pulse = pulses[8 * i + j];
                proof {
                    lemma_leading_bits_bound(pulses@, i as int, j as nat);
                    lemma_leading_bits_bound(pulses@, i as int, (j + 1) as nat);
                    lemma2_to64();
                    if j < 7 {
                        lemma_pow2_strictly_increases(j as nat, 7);
                    }
                }
                let ghost before = byte;
                assert(before < 128 ==> (before << 1u8) == 2 * before && ((before << 1u8) | 1u8) == 2
                    * before + 1) by (bit_vector);
                byte <<= 1;
                if pulse.hi > pulse.lo {
                    byte |= 1;
                }
                j += 1;
            }
            proof {
                lemma_all_leading_bits(pulses@, i as int);
            }
            bytes[i] = byte;
            i += 1;
        }
        let sum: u16 = bytes[0] as u16 + bytes[1] as u16 + bytes[2] as u16 + bytes[3] as u16;
        let expected: u8 = (sum % 256) as u8;
        let actual: u8 = bytes[4];
        proof {
            assert(bytes@ =~= frame_bytes(pulses@)) by {
                assert forall|k: int| 0 <= k < 5 implies bytes@[k] == frame_bytes(pulses@)[k] by {
                    lemma_all_leading_bits(pulses@, k);
                }
            }
        }
        if actual != expected {
            return Err(ErrorKind::Checksum { expected, actual });
        }
        let reading = Reading {
            rh_integral: bytes[0],
            rh_decimal: bytes[1],
            t_integral: bytes[2],
            t_decimal: bytes[3],
            _kind: PhantomData,
        };
        proof {
            assert(reading@ =~= bytes@.take(4));
        }
        Ok(reading)
    }
}

impl<K> Reading<K> {
    /// A reading holds four bytes.
    pub proof fn lemma_four_bytes(self)
        ensures
            self@.len() == 4,
    {
    }

    /// The integral byte of the relative humidity.
    pub fn rh_integral(&self) -> (byte: u8)
        ensures
            byte == self@[0],
    {
        self.rh_integral
    }

    /// The decimal byte of the relative humidity.
    pub fn rh_decimal(&self) -> (byte: u8)
        ensures
            byte == self@[1],
    {
        self.rh_decimal
    }

    /// The integral byte of the temperature.
    pub fn t_integral(&self) -> (byte: u8)
        ensures
            byte == self@[2],
    {
        self.t_integral
    }

    /// The decimal byte of the temperature.
    pub fn t_decimal(&self) -> (byte: u8)
        ensures
            byte == self@[3],
    {
        self.t_decimal
    }
}

impl<K: DhtKind> Reading<K> {
    /// The temperature in tenths of a degree Celsius, as the sensor model
    /// encodes it in the two temperature bytes.
    pub open spec fn temp(&self) -> int {
        K::temp(self@[2], self@[3])
    }

    /// The relative humidity in tenths of a percent, as the sensor model
    /// encodes it in the two humidity bytes.
    pub open spec fn humidity(&self) -> int {
        K::humidity(self@[0], self@[1])
    }

    /// Returns the temperature in tenths of a degree Celsius.
    pub fn temp_tenths(&self) -> (t: i16)
        ensures
            t == self.temp(),
    {
        K::temp_tenths(self.t_integral, self.t_decimal)
    }

    /// Returns the temperature in hundredths of a degree Fahrenheit: nine
    /// fifths of the temperature in Celsius and 32 degrees, without rounding.
    pub fn temp_fahrenheit_hundredths(&self) -> (f: i32)
        ensures
            f == 18 * self.temp() + 3200,
    {
        18 * (K::temp_tenths(self.t_integral, self.t_decimal) as i32) + 3200
    }

    /// Returns the relative humidity in tenths of a percent.
    pub fn humidity_tenths(&self) -> (h: u16)
        ensures
            h == self.humidity(),
    {
        K::humidity_tenths(self.rh_integral, self.rh_decimal)
    }
}

/// Bit `j` of a byte, counted from the most significant bit, which is bit 0.
pub open spec fn bit_of(byte: u8, j: int) -> int {
    (byte as int / pow2((7 - j) as nat) as int) % 2
}

/// Whether 40 pulses transmit five given bytes: pulse `k` carries bit
/// `k % 8` of byte `k / 8`.
pub open spec fn transmits(pulses: Seq<Pulse>, bytes: Seq<u8>) -> bool {
    &&& pulses.len() == 40
    &&& bytes.len() == 5
    &&& forall|k: int| 0 <= k < 40 ==> (#[trigger] pulses[k]).bit() == bit_of(bytes[k / 8], k % 8)
}

proof fn lemma_bit_of_values(byte: u8)
    ensures
        bit_of(byte, 0) == (byte / 128) % 2,
        bit_of(byte, 1) == (byte / 64) % 2,
        bit_of(byte, 2) == (byte / 32) % 2,
        bit_of(byte, 3) == (byte / 16) % 2,
        bit_of(byte, 4) == (byte / 8) % 2,
        bit_of(byte, 5) == (byte / 4) % 2,
        bit_of(byte, 6) == (byte / 2) % 2,
        bit_of(byte, 7) == byte % 2,
{
    lemma2_to64();
    assert(pow2(0) == 1);
    assert(byte as int / 1 == byte as int);
}

proof fn lemma_byte_is_sum_of_bits(byte: u8)
    ensures
        byte == 128 * bit_of(byte, 0) + 64 * bit_of(byte, 1) + 32 * bit_of(byte, 2) + 16 * bit_of(
            byte,
            3,
        ) + 8 * bit_of(byte, 4) + 4 * bit_of(byte, 5) + 2 * bit_of(byte, 6) + bit_of(byte, 7),
{
    lemma_bit_of_values(byte);
    assert(byte == 128 * ((byte / 128) % 2) + 64 * ((byte / 64) % 2) + 32 * ((byte / 32) % 2) + 16
        * ((byte / 16) % 2) + 8 * ((byte / 8) % 2) + 4 * ((byte / 4) % 2) + 2 * ((byte / 2) % 2)
        + byte % 2) by (bit_vector);
}

proof fn lemma_bits_of_sum(b0: u8, b1: u8, b2: u8, b3: u8, b4: u8, b5: u8, b6: u8, b7: u8)
    requires
        b0 <= 1,
        b1 <= 1,
        b2 <= 1,
        b3 <= 1,
        b4 <= 1,
        b5 <= 1,
        b6 <= 1,
        b7 <= 1,
    ensures
        ({
            let byte = (128 * b0 + 64 * b1 + 32 * b2 + 16 * b3 + 8 * b4 + 4 * b5 + 2 * b6 + b7) as u8;
            &&& bit_of(byte, 0) == b0
            &&& bit_of(byte, 1) == b1
            &&& bit_of(byte, 2) == b2
            &&& bit_of(byte, 3) == b3
            &&& bit_of(byte, 4) == b4
            &&& bit_of(byte, 5) == b5
            &&& bit_of(byte, 6) == b6
            &&& bit_of(byte, 7) == b7
        }),
{
    let byte = (128 * b0 + 64 * b1 + 32 * b2 + 16 * b3 + 8 * b4 + 4 * b5 + 2 * b6 + b7) as u8;
    lemma_bit_of_values(byte);
    assert(byte == 128 * b0 + 64 * b1 + 32 * b2 + 16 * b3 + 8 * b4 + 4 * b5 + 2 * b6 + b7);
    assert((byte / 128) % 2 == b0 && (byte / 64) % 2 == b1 && (byte / 32) % 2 == b2 && (byte / 16)
        % 2 == b3 && (byte / 8) % 2 == b4 && (byte / 4) % 2 == b5 && (byte / 2) % 2 == b6 && byte
        % 2 == b7) by (bit_vector)
        requires
            b0 <= 1,
            b1 <= 1,
            b2 <= 1,
            b3 <= 1,
            b4 <= 1,
            b5 <= 1,
            b6 <= 1,
            b7 <= 1,
            byte == 128 * b0 + 64 * b1 + 32 * b2 + 16 * b3 + 8 * b4 + 4 * b5 + 2 * b6 + b7,
    ;
}

/// Every bit of the decoded bytes is the bit of its pulse: 1 where the high
/// pulse is longer than the low delimiter, 0 where it is not.
pub proof fn lemma_decoded_bit(pulses: Seq<Pulse>, k: int)
    requires
        pulses.len() == 40,
        0 <= k < 40,
    ensures
        bit_of(frame_bytes(pulses)[k / 8], k % 8) == pulses[k].bit(),
        pulses[k].hi > pulses[k].lo ==> bit_of(frame_bytes(pulses)[k / 8], k % 8) == 1,
        pulses[k].hi <= pulses[k].lo ==> bit_of(frame_bytes(pulses)[k / 8], k % 8) == 0,
{
    let i = k / 8;
    let j = k % 8;
    lemma_bits_of_sum(
        pulses[8 * i].bit() as u8,
        pulses[8 * i + 1].bit() as u8,
        pulses[8 * i + 2].bit() as u8,
        pulses[8 * i + 3].bit() as u8,
        pulses[8 * i + 4].bit() as u8,
        pulses[8 * i + 5].bit() as u8,
        pulses[8 * i + 6].bit() as u8,
        pulses[8 * i + 7].bit() as u8,
    );
    assert(pulses[k] == pulses[8 * i + j]);
}

/// Decoding looks at nothing but which of the two lengths of each pulse is
/// the longer: transmissions that agree in that decode alike.
pub proof fn lemma_decode_by_order<E>(p: Seq<Pulse>, q: Seq<Pulse>)
    requires
        p.len() == 40,
        q.len() == 40,
        forall|k: int| 0 <= k < 40 ==> (p[k].hi > p[k].lo) == (q[k].hi > q[k].lo),
    ensures
        frame_bytes(p) == frame_bytes(q),
        decode::<E>(p) == decode::<E>(q),
{
    assert(frame_bytes(p) =~= frame_bytes(q)) by {
        assert forall|i: int| 0 <= i < 5 implies frame_byte(p, i) == frame_byte(q, i) by {
            assert(p[8 * i].bit() == q[8 * i].bit());
            assert(p[8 * i + 1].bit() == q[8 * i + 1].bit());
            assert(p[8 * i + 2].bit() == q[8 * i + 2].bit());
            assert(p[8 * i + 3].bit() == q[8 * i + 3].bit());
            assert(p[8 * i + 4].bit() == q[8 * i + 4].bit());
            assert(p[8 * i + 5].bit() == q[8 * i + 5].bit());
            assert(p[8 * i + 6].bit() == q[8 * i + 6].bit());
            assert(p[8 * i + 7].bit() == q[8 * i + 7].bit());
        }
    }
}

proof fn lemma_transmitted_bit(pulses: Seq<Pulse>, bytes: Seq<u8>, i: int, j: int)
    requires
        transmits(pulses, bytes),
        0 <= i < 5,
        0 <= j < 8,
    ensures
        pulses[8 * i + j].bit() == bit_of(bytes[i], j),
{
    let k = 8 * i + j;
    assert(k / 8 == i && k % 8 == j);
    assert(pulses[k].bit() == bit_of(bytes[k / 8], k % 8));
}

proof fn lemma_transmitted_byte(pulses: Seq<Pulse>, bytes: Seq<u8>, i: int)
    requires
        transmits(pulses, bytes),
        0 <= i < 5,
    ensures
        frame_byte(pulses, i) == bytes[i],
{
    lemma_byte_is_sum_of_bits(bytes[i]);
    lemma_transmitted_bit(pulses, bytes, i, 0);
    lemma_transmitted_bit(pulses, bytes, i, 1);
    lemma_transmitted_bit(pulses, bytes, i, 2);
    lemma_transmitted_bit(pulses, bytes, i, 3);
    lemma_transmitted_bit(pulses, bytes, i, 4);
    lemma_transmitted_bit(pulses, bytes, i, 5);
    lemma_transmitted_bit(pulses, bytes, i, 6);
    lemma_transmitted_bit(pulses, bytes, i, 7);
}

/// Pulses that transmit five bytes decode to those bytes: to the first
/// four where the fifth is their checksum, and else to the checksum error
/// that names the checksum of the first four and the fifth byte as sent.
pub proof fn lemma_round_trip<E>(pulses: Seq<Pulse>, bytes: Seq<u8>)
    requires
        transmits(pulses, bytes),
    ensures
        frame_bytes(pulses) == bytes,
        bytes[4] == checksum(bytes) ==> decode::<E>(pulses) == Ok::<Seq<u8>, ErrorKind<E>>(
            bytes.take(4),
        ),
        bytes[4] != checksum(bytes) ==> decode::<E>(pulses) == Err::<Seq<u8>, ErrorKind<E>>(
            ErrorKind::Checksum { expected: checksum(bytes), actual: bytes[4] },
        ),
{
    assert(frame_bytes(pulses) =~= bytes) by {
        assert forall|i: int| 0 <= i < 5 implies frame_byte(pulses, i) == bytes[i] by {
            lemma_transmitted_byte(pulses, bytes, i);
        }
    }
}

} // verus!

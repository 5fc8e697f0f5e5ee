use dht_hal::kind::{Dht11, Dht22, DhtKind};
use dht_hal::{Pulse, Reading};

fn reading<K>(data: [u8; 4]) -> Reading<K> {
    let sum = data[0] as u16 + data[1] as u16 + data[2] as u16 + data[3] as u16;
    let bytes = [data[0], data[1], data[2], data[3], (sum & 0xff) as u8];
    let mut pulses = [Pulse { lo: 0, hi: 0 }; 40];
    for k in 0..40 {
        let bit = (bytes[k / 8] >> (7 - k % 8)) & 1;
        pulses[k] = Pulse { lo: 50, hi: if bit == 1 { 70 } else { 27 } };
    }
    Reading::<K>::from_pulses::<()>(&pulses).unwrap()
}

#[test]
fn start_delays() {
    assert_eq!(Dht11::start_delay_us(), 20_000);
    assert_eq!(Dht22::start_delay_us(), 1_100);
}

#[test]
fn dht22_temperature_is_sign_and_magnitude() {
    // (1 << 8 | 144) tenths = 40.0 degrees
    assert_eq!(Dht22::temp_tenths(0x01, 0x90), 400);
    assert_eq!(Dht22::temp_tenths(0x81, 0x90), -400);
    assert_eq!(Dht22::temp_tenths(0x00, 0x00), 0);
    assert_eq!(Dht22::temp_tenths(0x80, 0x00), 0);
    assert_eq!(Dht22::temp_tenths(0x00, 0xff), 255);
    assert_eq!(Dht22::temp_tenths(0x7f, 0xff), 32_767);
    assert_eq!(Dht22::temp_tenths(0xff, 0xff), -32_767);
    assert_eq!(Dht22::temp_tenths(0x80, 0x65), -101);
    assert_eq!(400 as f32 * 0.1, 40.0);
}

#[test]
fn dht22_humidity_is_sixteen_bits_unsigned() {
    assert_eq!(Dht22::humidity_tenths(0x02, 0x8c), 652);
    assert_eq!(Dht22::humidity_tenths(0, 0), 0);
    assert_eq!(Dht22::humidity_tenths(0x03, 0xe8), 1000);
    assert_eq!(Dht22::humidity_tenths(0x80, 0x01), 32_769);
    assert_eq!(Dht22::humidity_tenths(0xff, 0xff), 65_535);
}

#[test]
fn dht11_humidity_is_integral_and_tenths() {
    assert_eq!(Dht11::humidity_tenths(45, 0), 450);
    assert_eq!(Dht11::humidity_tenths(45, 7), 457);
    assert_eq!(Dht11::humidity_tenths(0, 0), 0);
    assert_eq!(Dht11::humidity_tenths(255, 255), 2805);
}

#[test]
fn dht11_temperature_keeps_the_sign_quirk() {
    // -1.0 - 26.0 + 0.5
    assert_eq!(Dht11::temp_tenths(26, 0x85), -265);
    assert_eq!(Dht11::temp_tenths(26, 0x05), 265);
    assert_eq!(Dht11::temp_tenths(26, 0x00), 260);
    // The sign bit alone takes off one degree more than it negates.
    assert_eq!(Dht11::temp_tenths(0, 0x80), -10);
    assert_eq!(Dht11::temp_tenths(26, 0x80), -270);
    // Only the low four bits of the decimal byte count as tenths.
    assert_eq!(Dht11::temp_tenths(26, 0x7f), 275);
    assert_eq!(Dht11::temp_tenths(26, 0x15), 265);
    assert_eq!(Dht11::temp_tenths(255, 0xff), -2545);
    assert_eq!(Dht11::temp_tenths(255, 0x0f), 2565);
}

#[test]
fn reading_uses_the_formulas_of_its_kind() {
    let hot = reading::<Dht22>([0x02, 0x8c, 0x01, 0x90]);
    assert_eq!(hot.humidity_tenths(), 652);
    assert_eq!(hot.temp_tenths(), 400);
    let cold = reading::<Dht22>([0x02, 0x8c, 0x81, 0x90]);
    assert_eq!(cold.temp_tenths(), -400);
    let blue = reading::<Dht11>([45, 0, 26, 0x85]);
    assert_eq!(blue.humidity_tenths(), 450);
    assert_eq!(blue.temp_tenths(), -265);
    // The same bytes mean something else to the other model.
    let other = reading::<Dht22>([45, 0, 26, 0x85]);
    assert_eq!(other.humidity_tenths(), 11_520);
    assert_eq!(other.temp_tenths(), 6_789);
}

#[test]
fn fahrenheit_is_exact() {
    // 0.0 C = 32.00 F
    assert_eq!(reading::<Dht22>([0, 0, 0, 0]).temp_fahrenheit_hundredths(), 3_200);
    // 100.0 C = 212.00 F
    assert_eq!(reading::<Dht22>([0, 0, 0x03, 0xe8]).temp_fahrenheit_hundredths(), 21_200);
    // -40.0 C = -40.00 F
    assert_eq!(reading::<Dht22>([0, 0, 0x81, 0x90]).temp_fahrenheit_hundredths(), -4_000);
    // 0.1 C = 32.18 F
    assert_eq!(reading::<Dht22>([0, 0, 0, 1]).temp_fahrenheit_hundredths(), 3_218);
    assert_eq!(reading::<Dht22>([0, 0, 0x7f, 0xff]).temp_fahrenheit_hundredths(), 593_006);
    assert_eq!(reading::<Dht22>([0, 0, 0xff, 0xff]).temp_fahrenheit_hundredths(), -586_606);
    // -26.5 C = -15.70 F
    assert_eq!(reading::<Dht11>([0, 0, 26, 0x85]).temp_fahrenheit_hundredths(), -1_570);
    assert_eq!(0.0f32 * 1.8 + 32.0, 32.0);
    assert_eq!(100.0f32 * 1.8 + 32.0, 212.0);
}

use dht_hal::{Error, ErrorKind};

#[test]
fn timeout_is_only_a_timeout() {
    let e: Error<u8> = Error::from(ErrorKind::Timeout);
    assert!(e.is_timeout());
    assert!(!e.is_io());
    assert!(!e.is_checksum());
    assert_eq!(e.into_io(), None);
}

#[test]
fn io_is_only_io_and_hands_out_the_cause() {
    let e: Error<&str> = Error::from(ErrorKind::Io("bus fault"));
    assert!(e.is_io());
    assert!(!e.is_timeout());
    assert!(!e.is_checksum());
    assert_eq!(e.into_io(), Some("bus fault"));
}

#[test]
fn checksum_is_only_a_checksum_error() {
    let e: Error<u8> = Error::from(ErrorKind::Checksum { expected: 0xee, actual: 0xef });
    assert!(e.is_checksum());
    assert!(!e.is_timeout());
    assert!(!e.is_io());
    assert_eq!(e.into_io(), None);
}

#[test]
fn errors_compare_by_cause() {
    let a: Error<u8> = Error::from(ErrorKind::Checksum { expected: 1, actual: 2 });
    let b: Error<u8> = Error::from(ErrorKind::Checksum { expected: 1, actual: 2 });
    let c: Error<u8> = Error::from(ErrorKind::Checksum { expected: 2, actual: 1 });
    assert_eq!(a, b);
    assert_ne!(a, c);
    assert_ne!(Error::from(ErrorKind::Io(3u8)), Error::from(ErrorKind::Io(4u8)));
    assert_ne!(Error::from(ErrorKind::Io(3u8)), Error::from(ErrorKind::Timeout));
}

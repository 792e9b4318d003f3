use loco_protocol::{EncodedMethod, Error};

#[test]
fn method_round_trip_ascii() {
    let m = EncodedMethod::from_str("TEST").expect("fits");
    let s: String = m.try_into_string().expect("valid utf-8");
    assert_eq!(s, "TEST");
}

#[test]
fn method_pads_with_nul_on_the_right() {
    let m = EncodedMethod::from_str("ABC").expect("fits");
    assert_eq!(m.0, [b'A', b'B', b'C', 0, 0, 0, 0, 0, 0, 0, 0]);
}

#[test]
fn method_eleven_bytes_kept_whole() {
    let m = EncodedMethod::from_str("ELEVENBYTES").expect("exactly 11 fits");
    assert_eq!(&m.0, b"ELEVENBYTES");
    let s: String = m.try_into_string().expect("valid utf-8");
    assert_eq!(s, "ELEVENBYTES");
}

#[test]
fn method_longer_than_eleven_is_rejected() {
    assert_eq!(EncodedMethod::from_str("TWELVECHARSX"), Err(Error::Io));
}

#[test]
fn method_invalid_utf8_is_decode_error() {
    let m = EncodedMethod([0xFF; 11]);
    assert_eq!(m.try_into_string(), Err(Error::EncodedMethodDeserializeError));
}

#[test]
fn method_equality_is_byte_equality() {
    let a = EncodedMethod::from_str("SAME").unwrap();
    let b = EncodedMethod::from_str("SAME").unwrap();
    let c = EncodedMethod::from_str("OTHER").unwrap();
    assert_eq!(a, b);
    assert_ne!(a, c);
}

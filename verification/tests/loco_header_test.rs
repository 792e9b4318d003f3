use loco_protocol::{BodyType, EncodedMethod, Error, LocoHeader};

#[test]
fn loco_header_round_trip() {
    let header = LocoHeader {
        id: 77,
        status: -4,
        method: EncodedMethod::from_str("STATUS").unwrap(),
        body_type: BodyType::Bson,
        body_size: 1234,
    };
    let mut bytes = Vec::new();
    header.serialize_into(&mut bytes);
    assert_eq!(bytes.len(), 22);
    let parsed = LocoHeader::deserialize_from(&bytes).expect("parse");
    assert_eq!(parsed, header);
}

#[test]
fn loco_header_unknown_body_type_is_tolerated() {
    let header = LocoHeader {
        id: 1,
        status: 0,
        method: EncodedMethod::from_str("X").unwrap(),
        body_type: BodyType::Unknown(-7),
        body_size: 0,
    };
    let mut bytes = Vec::new();
    header.serialize_into(&mut bytes);
    let parsed = LocoHeader::deserialize_from(&bytes).expect("parse");
    assert_eq!(parsed.body_type, BodyType::Unknown(-7));
}

#[test]
fn loco_header_truncated_is_io_error() {
    assert_eq!(LocoHeader::deserialize_from(&[0u8; 21]), Err(Error::Io));
}

#[test]
fn body_type_codes() {
    assert_eq!(BodyType::Bson.code(), 0);
    assert_eq!(BodyType::Unknown(5).code(), 5);
    assert_eq!(BodyType::from_code(0), BodyType::Bson);
    assert_eq!(BodyType::from_code(9), BodyType::Unknown(9));
}

use loco_protocol::command::{LocoCommand, LocoHeader};
use loco_protocol::EncodedMethod;

fn method(s: &str) -> EncodedMethod {
    EncodedMethod::from_str(s).expect("method must fit 11 bytes")
}

#[test]
pub fn codec_read_write() {
    let mut local = Vec::<u8>::new();

    let test_command1 = LocoCommand {
        header: LocoHeader { id: 0, data_type: 0, status: 0, method: method("TEST1") },
        data: vec![0_u8; 4],
    };

    let test_command2 = LocoCommand {
        header: LocoHeader { id: 0, data_type: 0, status: 0, method: method("TEST2") },
        data: vec![8_u8; 4],
    };

    test_command1.serialize_into(&mut local);
    test_command2.serialize_into(&mut local);

    let (command1, next) =
        LocoCommand::deserialize_from(&local, 0).expect("Command read must not fail");
    assert_eq!(command1, test_command1);

    let (command2, _) =
        LocoCommand::deserialize_from(&local, next).expect("Command read must not fail");
    assert_eq!(command2, test_command2);
}

#[test]
fn command_length_field_matches_payload() {
    let cmd = LocoCommand {
        header: LocoHeader { id: 7, data_type: 0, status: 3, method: method("PING") },
        data: vec![9, 8, 7, 6, 5],
    };
    let mut bytes = Vec::new();
    cmd.serialize_into(&mut bytes);
    assert_eq!(bytes.len(), 22 + 5);
    assert_eq!(&bytes[18..22], &5u32.to_le_bytes());
}

#[test]
fn command_wire_layout_is_exact() {
    let cmd = LocoCommand {
        header: LocoHeader { id: 0x01020304, data_type: 2, status: -1, method: method("AB") },
        data: vec![0xAA, 0xBB],
    };
    let mut bytes = Vec::new();
    cmd.serialize_into(&mut bytes);
    let mut expected = vec![0x04, 0x03, 0x02, 0x01, 0xFF, 0xFF];
    expected.extend_from_slice(b"AB");
    expected.extend_from_slice(&[0u8; 9]);
    expected.push(2);
    expected.extend_from_slice(&2u32.to_le_bytes());
    expected.extend_from_slice(&[0xAA, 0xBB]);
    assert_eq!(bytes, expected);
}

#[test]
fn command_decode_negative_fields_round_trip() {
    let cmd = LocoCommand {
        header: LocoHeader { id: -5, data_type: -3, status: -2, method: method("NEG") },
        data: Vec::new(),
    };
    let mut bytes = Vec::new();
    cmd.serialize_into(&mut bytes);
    let (decoded, next) = LocoCommand::deserialize_from(&bytes, 0).expect("decode");
    assert_eq!(decoded, cmd);
    assert_eq!(next, bytes.len());
}

#[test]
fn command_decode_truncated_is_io_error() {
    let cmd = LocoCommand {
        header: LocoHeader { id: 1, data_type: 0, status: 0, method: method("CUT") },
        data: vec![1, 2, 3, 4],
    };
    let mut bytes = Vec::new();
    cmd.serialize_into(&mut bytes);
    bytes.truncate(bytes.len() - 1);
    assert_eq!(LocoCommand::deserialize_from(&bytes, 0), Err(loco_protocol::Error::Io));
    assert_eq!(LocoCommand::deserialize_from(&[1, 2, 3], 0), Err(loco_protocol::Error::Io));
}

#[test]
fn command_frame_widths() {
    assert_eq!(loco_protocol::command::HEADER_SIZE, 18);
    assert_eq!(loco_protocol::command::HEAD_SIZE, 22);
    assert_eq!(loco_protocol::HEADER_SIZE, 22);
}

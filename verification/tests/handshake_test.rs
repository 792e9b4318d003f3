use loco_protocol::secure::crypto::{decode_handshake_head, handshake_packet_bytes, CryptoStore};
use loco_protocol::secure::{SecureStreamRead, SecureStreamWrite};
use loco_protocol::Error;
use rand::rngs::OsRng;
use rsa::{RsaPrivateKey, RsaPublicKey};

#[test]
pub fn handshake_header() {
    let header_data = handshake_packet_bytes(&Vec::new()).unwrap();
    println!("{:?}", header_data);
    assert_eq!(header_data[4..12], [12, 0, 0, 0, 2, 0, 0, 0]);
}

#[test]
fn handshake_head_carries_key_length() {
    let wrapped = vec![7u8; 128];
    let packet = handshake_packet_bytes(&wrapped).unwrap();
    assert_eq!(packet.len(), 12 + 128);
    assert_eq!(&packet[0..4], &128u32.to_le_bytes());
    assert_eq!(&packet[12..], &wrapped[..]);

    let parsed = decode_handshake_head(&packet[0..12]).unwrap();
    assert_eq!(parsed.encrypted_key.len(), 128);
}

#[test]
fn handshake_head_rejects_unknown_ciphers() {
    let mut packet = handshake_packet_bytes(&vec![0u8; 16]).unwrap();
    packet[4] = 11;
    assert_eq!(decode_handshake_head(&packet[0..12]).unwrap_err(), Error::Bincode);

    let mut packet2 = handshake_packet_bytes(&vec![0u8; 16]).unwrap();
    packet2[8] = 1;
    assert_eq!(decode_handshake_head(&packet2[0..12]).unwrap_err(), Error::Bincode);

    assert_eq!(decode_handshake_head(&[0u8; 4]).unwrap_err(), Error::Bincode);
}

#[test]
fn handshake_conveys_the_aes_key() {
    let private_key = RsaPrivateKey::new(&mut OsRng, 1024).expect("failed to generate a key");
    let public_key = RsaPublicKey::from(&private_key);

    let key = *b"1234123412341234";
    let mut writer = SecureStreamWrite::new(CryptoStore::new_with_key(key), Vec::new());
    writer.write_handshake(&public_key).expect("Client handshake failed");
    writer.write(&[1, 2, 3, 4]).expect("write");
    let wire = writer.into_inner();

    let mut reader =
        SecureStreamRead::read_handshake(wire, &private_key).expect("Server handshake failed");
    let plain = reader.read(4).expect("read");
    assert_eq!(plain, vec![1, 2, 3, 4]);
}

#[test]
fn handshake_with_2048_bit_modulus() {
    let private_key = RsaPrivateKey::new(&mut OsRng, 2048).expect("failed to generate a key");
    let public_key = RsaPublicKey::from(&private_key);

    let crypto = CryptoStore::new();
    let mut writer = SecureStreamWrite::new_handshake(crypto, Vec::new(), &public_key)
        .expect("Client handshake failed");
    writer.write(&[42]).expect("write");

    let mut reader = SecureStreamRead::read_handshake(writer.into_inner(), &private_key)
        .expect("Server handshake failed");
    assert_eq!(reader.read(1).expect("read"), vec![42]);
}

#[test]
fn handshake_truncated_stream_is_io_error() {
    match SecureStreamRead::read_handshake(vec![1, 2, 3], &sample_private_key()) {
        Err(Error::Io) => {},
        other => panic!("expected Io, got {:?}", other.map(|_| ())),
    }
}

fn sample_private_key() -> RsaPrivateKey {
    RsaPrivateKey::new(&mut OsRng, 1024).expect("failed to generate a key")
}

#[test]
fn handshake_wrong_length_key_is_invalid_key() {
    let private_key = sample_private_key();
    let public_key = RsaPublicKey::from(&private_key);

    let short_key = [7u8; 10];
    let wrapped = rsa::PublicKey::encrypt(
        &public_key,
        &mut OsRng,
        rsa::PaddingScheme::new_oaep::<sha1::Sha1>(),
        &short_key,
    )
    .expect("wrap");
    let wire = handshake_packet_bytes(&wrapped).unwrap();

    match SecureStreamRead::read_handshake(wire, &private_key) {
        Err(Error::InvalidKey) => {},
        other => panic!("expected InvalidKey, got {:?}", other.map(|_| ())),
    }
}

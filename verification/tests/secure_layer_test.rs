use loco_protocol::secure::crypto::CryptoStore;
use loco_protocol::secure::{
    SecureHeader, SecurePacket, SecureStreamRead, SecureStreamWrite, SECURE_HANDSHAKE_HEADER_SIZE,
    SECURE_HANDSHAKE_HEAD_SIZE, SECURE_HEADER_SIZE, SECURE_HEAD_SIZE,
};
use loco_protocol::Error;

#[test]
pub fn secure_layer_read_write() {
    let crypto = CryptoStore::new();

    let mut stream = SecureStreamWrite::new(crypto.clone(), Vec::new());

    let test_data1 = vec![1_u8, 2, 3, 4];
    let test_data2 = vec![1_u8, 2, 3, 4];

    stream.write(&test_data1).expect("Data writing must not fail");
    stream.write(&test_data2).expect("Data writing must not fail");

    let inner = stream.into_inner();

    let mut stream = SecureStreamRead::new(crypto, inner);

    let first = stream.read(4).expect("Data reading must not fail");
    assert_eq!(first, test_data1);

    let second = stream.read(4).expect("Data reading must not fail");
    assert_eq!(second, test_data2);
}

#[test]
pub fn secure_stream_read_write() {
    let crypto = CryptoStore::new_with_key([1, 2, 3, 4, 1, 2, 3, 4, 1, 2, 3, 4, 1, 2, 3, 4]);
    let mut stream = SecureStreamWrite::new(crypto.clone(), Vec::new());

    let test_data = vec![1_u8, 2, 3, 4];

    stream.write(&test_data).expect("Data writing must not fail");

    let inner = stream.into_inner();

    let mut stream = SecureStreamRead::new(crypto, inner);

    let data = stream.read(4).expect("Data reading must not fail");

    assert_eq!(test_data, data);
}

#[test]
fn secure_stream_known_key_round_trip() {
    let key = *b"1234123412341234";
    let mut writer = SecureStreamWrite::new(CryptoStore::new_with_key(key), Vec::new());
    writer.write(&[1, 2, 3, 4]).expect("write");
    let wire = writer.into_inner();

    let mut reader = SecureStreamRead::new(CryptoStore::new_with_key(key), wire);
    let plain = reader.read(4).expect("read");
    assert_eq!(plain, vec![1, 2, 3, 4]);
}

#[test]
fn secure_record_framing_invariant() {
    let mut writer = SecureStreamWrite::new(CryptoStore::new(), Vec::new());
    writer.write(&[1, 2, 3]).expect("write");
    let wire = writer.into_inner();
    assert_eq!(wire.len(), 4 + 16 + 3);
    let record_length = u32::from_le_bytes([wire[0], wire[1], wire[2], wire[3]]);
    assert!(record_length >= 16);
    assert_eq!(record_length as usize - 16, 3);
}

#[test]
fn secure_record_ciphertext_differs_from_plaintext() {
    let plain = [0u8; 32];
    let mut writer = SecureStreamWrite::new(CryptoStore::new(), Vec::new());
    writer.write(&plain).expect("write");
    let wire = writer.into_inner();
    assert_eq!(wire.len(), 4 + 16 + 32);
    assert_ne!(&wire[20..52], &plain[..]);
}

#[test]
fn secure_stream_rechunked_reads() {
    let key = *b"abcdabcdabcdabcd";
    let mut writer = SecureStreamWrite::new(CryptoStore::new_with_key(key), Vec::new());
    writer.write(&[10, 20, 30]).expect("write");
    writer.write(&[40, 50]).expect("write");
    let mut reader = SecureStreamRead::new(CryptoStore::new_with_key(key), writer.into_inner());
    let a = reader.read(2).expect("read");
    assert_eq!(a, vec![10, 20]);
    let b = reader.read(10).expect("read");
    assert_eq!(b, vec![30]);
    let c = reader.read(10).expect("read");
    assert_eq!(c, vec![40, 50]);
    assert_eq!(reader.read(1), Err(Error::Io));
}

#[test]
fn secure_stream_ivs_never_repeat() {
    let mut writer = SecureStreamWrite::new(CryptoStore::new(), Vec::new());
    for _ in 0..1000 {
        writer.write(&[0xAB]).expect("write");
    }
    let wire = writer.into_inner();
    let mut ivs: Vec<[u8; 16]> = Vec::new();
    let mut pos = 0usize;
    while pos < wire.len() {
        let n = u32::from_le_bytes([wire[pos], wire[pos + 1], wire[pos + 2], wire[pos + 3]])
            as usize;
        let mut iv = [0u8; 16];
        iv.copy_from_slice(&wire[pos + 4..pos + 20]);
        ivs.push(iv);
        pos += 4 + n;
    }
    assert_eq!(ivs.len(), 1000);
    ivs.sort();
    for pair in ivs.windows(2) {
        assert_ne!(pair[0], pair[1]);
    }
}

#[test]
fn secure_stream_corrupt_record_length_is_crypto_error() {
    let mut wire = Vec::new();
    wire.extend_from_slice(&3u32.to_le_bytes());
    wire.extend_from_slice(&[0u8; 3]);
    let mut reader = SecureStreamRead::new(CryptoStore::new(), wire);
    assert_eq!(
        reader.read(1),
        Err(Error::Crypto(loco_protocol::secure::crypto::CryptoError::CorruptedData))
    );
}

#[test]
fn secure_stream_empty_source_is_io_error() {
    let mut reader = SecureStreamRead::new(CryptoStore::new(), Vec::new());
    assert_eq!(reader.read(1), Err(Error::Io));
}

#[test]
fn secure_header_equality_is_iv_equality() {
    let a = SecureHeader { iv: [7u8; 16] };
    let b = SecureHeader { iv: [7u8; 16] };
    let mut c = SecureHeader { iv: [7u8; 16] };
    c.iv[15] = 8;
    assert_eq!(a, b);
    assert_ne!(a, c);
    let packet = SecurePacket { header: a, data: vec![1, 2, 3] };
    assert_eq!(packet.header, b);
}

#[test]
fn secure_frame_widths() {
    assert_eq!(SECURE_HEADER_SIZE, 16);
    assert_eq!(SECURE_HEAD_SIZE, 20);
    assert_eq!(SECURE_HANDSHAKE_HEADER_SIZE, 8);
    assert_eq!(SECURE_HANDSHAKE_HEAD_SIZE, 12);
}

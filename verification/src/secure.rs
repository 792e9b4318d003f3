//! Secure transport: an RSA-OAEP-SHA1 key exchange at handshake time, then
//! AES-CFB128-encrypted records framed over the underlying byte stream.
//!
//! Wire layout of one secure record: `[record_length:u32 LE][iv:16][ciphertext]`,
//! where `record_length` counts the IV and the ciphertext.

use vstd::prelude::*;
use vstd::bytes::{spec_u32_from_le_bytes, spec_u32_to_le_bytes};
use crate::secure::crypto::{aes_cfb128_decrypt, EncryptType, KeyEncryptType};

pub mod crypto;
mod stream_read;
mod stream_write;

pub use stream_read::SecureStreamRead;
pub use stream_write::SecureStreamWrite;

verus! {

/// Width of the per-record header (the IV).
pub const SECURE_HEADER_SIZE: usize = 16;

/// Width of the record header together with the record length field.
pub const SECURE_HEAD_SIZE: usize = 20;

/// Width of the handshake header (the two cipher-selection fields).
pub const SECURE_HANDSHAKE_HEADER_SIZE: usize = 8;

/// Width of the handshake header together with the wrapped-key length field.
pub const SECURE_HANDSHAKE_HEAD_SIZE: usize = 12;

/// Per-record header: the fresh random IV.
#[derive(Debug, Clone, Copy, Eq)]
pub struct SecureHeader {
    pub iv: [u8; 16],
}

impl PartialEq for SecureHeader {
    fn eq(&self, other: &SecureHeader) -> (r: bool) {
        let mut i: usize = 0;
        while i < 16
            invariant
                i <= 16,
                forall|j: int| 0 <= j < i ==> self.iv@[j] == other.iv@[j],
            decreases 16 - i,
        {
            if self.iv[i] != other.iv[i] {
                proof {
                    broadcast use vstd::array::group_array_axioms;

                    assert(self.iv != other.iv);
                }
                return false;
            }
            i += 1;
        }
        proof {
            broadcast use vstd::array::group_array_axioms;

            assert(self.iv@ =~= other.iv@);
            assert(self.iv =~= other.iv);
        }
        true
    }
}

impl vstd::std_specs::cmp::PartialEqSpecImpl for SecureHeader {
    open spec fn obeys_eq_spec() -> bool {
        true
    }

    open spec fn eq_spec(&self, other: &SecureHeader) -> bool {
        self.iv == other.iv
    }
}

/// One secure record before framing: IV plus ciphertext.
#[derive(Debug, Clone)]
pub struct SecurePacket {
    pub header: SecureHeader,
    pub data: Vec<u8>,
}

/// The cipher-selection fields of the handshake prelude.
#[derive(Debug, Clone, Copy, PartialEq, Eq, Structural)]
pub struct SecureHandshakeHeader {
    pub key_encrypt_type: KeyEncryptType,
    pub encrypt_type: EncryptType,
}

/// A parsed handshake prelude: header plus the RSA-wrapped AES key.
#[derive(Debug, Clone)]
pub struct SecureHandshake {
    pub header: SecureHandshakeHeader,
    pub encrypted_key: Vec<u8>,
}

/// The wire image of one secure record holding `cipher` under `iv`.
pub open spec fn spec_secure_record(iv: Seq<u8>, cipher: Seq<u8>) -> Seq<u8> {
    spec_u32_to_le_bytes((cipher.len() + 16) as u32) + iv + cipher
}

/// The plaintext that a reader holding `key` drains from `bytes`, provided
/// `bytes` is exactly a sequence of well-formed secure records.
pub open spec fn spec_stream_plains(key: Seq<u8>, bytes: Seq<u8>) -> Option<Seq<u8>>
    decreases bytes.len(),
{
    if bytes.len() == 0 {
        Some(Seq::empty())
    } else if bytes.len() < 4 {
        None::<Seq<u8>>
    } else {
        let n = spec_u32_from_le_bytes(bytes.subrange(0, 4)) as int;
        if n < 16 || bytes.len() < 4 + n {
            None::<Seq<u8>>
        } else {
            let iv = bytes.subrange(4, 20);
            let cipher = bytes.subrange(20, 4 + n);
            match spec_stream_plains(key, bytes.subrange(4 + n, bytes.len() as int)) {
                Some(tail) => Some(aes_cfb128_decrypt(key, iv, cipher) + tail),
                None => None::<Seq<u8>>,
            }
        }
    }
}

/// The plaintext a reader's next non-empty refill yields from `bytes`: the
/// decryption of the first record whose plaintext is not empty, skipping
/// empty records on the way; empty where no such record stands at the front.
pub open spec fn spec_next_chunk(key: Seq<u8>, bytes: Seq<u8>) -> Seq<u8>
    decreases bytes.len(),
{
    if bytes.len() < 4 {
        Seq::<u8>::empty()
    } else {
        let n = spec_u32_from_le_bytes(bytes.subrange(0, 4)) as int;
        if n < 16 || bytes.len() < 4 + n {
            Seq::<u8>::empty()
        } else {
            let plain = aes_cfb128_decrypt(key, bytes.subrange(4, 20), bytes.subrange(20, 4 + n));
            if plain.len() > 0 {
                plain
            } else {
                spec_next_chunk(key, bytes.subrange(4 + n, bytes.len() as int))
            }
        }
    }
}

/// What a successful drain says of the head of a non-empty stream: a full
/// record stands at the front and the drained plaintext starts with its
/// decryption.
pub proof fn lemma_stream_plains_head(key: Seq<u8>, bytes: Seq<u8>)
    requires
        bytes.len() > 0,
        spec_stream_plains(key, bytes) is Some,
    ensures
        bytes.len() >= 4,
        ({
            let n = spec_u32_from_le_bytes(bytes.subrange(0, 4)) as int;
            &&& n >= 16
            &&& bytes.len() >= 4 + n
            &&& spec_stream_plains(key, bytes.subrange(4 + n, bytes.len() as int)) is Some
            &&& spec_stream_plains(key, bytes) == Some(
                aes_cfb128_decrypt(key, bytes.subrange(4, 20), bytes.subrange(20, 4 + n))
                    + spec_stream_plains(key, bytes.subrange(4 + n, bytes.len() as int))->0,
            )
        }),
{
}

/// Framing invariant of the secure record codec: every record's length field
/// counts the 16-byte IV plus the ciphertext, so it is at least 16 and
/// exceeds 16 by exactly the ciphertext's length.
pub proof fn lemma_secure_record_framing(iv: Seq<u8>, cipher: Seq<u8>)
    requires
        iv.len() == 16,
        cipher.len() + 16 <= u32::MAX,
    ensures
        ({
            let b = spec_secure_record(iv, cipher);
            &&& b.len() == 20 + cipher.len()
            &&& spec_u32_from_le_bytes(b.subrange(0, 4)) == 16 + cipher.len()
            &&& spec_u32_from_le_bytes(b.subrange(0, 4)) >= 16
            &&& b.subrange(4, 20) == iv
            &&& b.subrange(20, b.len() as int) == cipher
        }),
{
    vstd::bytes::lemma_auto_spec_u32_to_from_le_bytes();
    let b = spec_secure_record(iv, cipher);
    assert(b.subrange(0, 4) =~= spec_u32_to_le_bytes((cipher.len() + 16) as u32));
    assert(b.subrange(4, 20) =~= iv);
    assert(b.subrange(20, b.len() as int) =~= cipher);
}

/// Appending one well-formed secure record whose ciphertext decrypts to
/// `plain` extends the drained plaintext of a stream by exactly `plain`.
/// This is the write half of the secure stream round trip.
pub proof fn lemma_stream_plains_append(key: Seq<u8>, bytes: Seq<u8>, iv: Seq<u8>, cipher: Seq<u8>, plain: Seq<u8>)
    requires
        spec_stream_plains(key, bytes) is Some,
        iv.len() == 16,
        cipher.len() + 16 <= u32::MAX,
        aes_cfb128_decrypt(key, iv, cipher) == plain,
    ensures
        spec_stream_plains(key, bytes + spec_secure_record(iv, cipher)) == Some(
            spec_stream_plains(key, bytes)->0 + plain,
        ),
    decreases bytes.len(),
{
    vstd::bytes::lemma_auto_spec_u32_to_from_le_bytes();
    let rec = spec_secure_record(iv, cipher);
    let all = bytes + rec;
    assert(rec.len() == 20 + cipher.len());
    if bytes.len() == 0 {
        assert(all =~= rec);
        assert(all.subrange(0, 4) =~= spec_u32_to_le_bytes((cipher.len() + 16) as u32));
        let n = spec_u32_from_le_bytes(all.subrange(0, 4)) as int;
        assert(n == cipher.len() + 16);
        assert(all.subrange(4, 20) =~= iv);
        assert(all.subrange(20, 4 + n) =~= cipher);
        let tail = all.subrange(4 + n, all.len() as int);
        assert(tail.len() == 0);
        assert(spec_stream_plains(key, tail) == Some(Seq::<u8>::empty()));
        assert(spec_stream_plains(key, all) == Some(
            aes_cfb128_decrypt(key, iv, cipher) + Seq::<u8>::empty(),
        ));
        assert(plain + Seq::<u8>::empty() =~= plain);
        assert(spec_stream_plains(key, bytes)->0 + plain =~= plain);
    } else {
        let n = spec_u32_from_le_bytes(bytes.subrange(0, 4)) as int;
        assert(bytes.len() >= 4);
        assert(all.subrange(0, 4) =~= bytes.subrange(0, 4));
        assert(n >= 16 && bytes.len() >= 4 + n);
        assert(all.subrange(4, 20) =~= bytes.subrange(4, 20));
        assert(all.subrange(20, 4 + n) =~= bytes.subrange(20, 4 + n));
        let rest = bytes.subrange(4 + n, bytes.len() as int);
        assert(spec_stream_plains(key, rest) is Some);
        lemma_stream_plains_append(key, rest, iv, cipher, plain);
        assert(all.subrange(4 + n, all.len() as int) =~= rest + rec);
    }
}

/// Round trip of the secure stream: a reader keyed like a writer and
/// positioned at the start of its records is owed exactly the plaintexts the
/// writer framed, in order; its reads then drain that sequence.
pub proof fn lemma_secure_stream_round_trip(w: &SecureStreamWrite, r: &SecureStreamRead)
    requires
        w.wf(),
        r.spec_key() == w.spec_key(),
        r.spec_inner() == w.spec_inner(),
        r.spec_pos() == w.spec_base().len(),
        r.spec_buffered() == Seq::<u8>::empty(),
    ensures
        r.spec_rest() == Some(w.spec_plains()),
        r.spec_remaining() == w.spec_plains(),
{
    assert(r.spec_remaining() =~= w.spec_plains());
}


/// Frame one plaintext as a full secure record under a fresh random IV: the
/// length field counting IV and ciphertext, the IV, then the ciphertext.
pub fn seal_record(crypto: &mut crate::secure::crypto::CryptoStore, plain: &[u8]) -> (r: Vec<u8>)
    requires
        plain@.len() + 16 <= u32::MAX,
    ensures
        final(crypto).spec_key() == old(crypto).spec_key(),
        r@.len() == 20 + plain@.len(),
        exists|iv: Seq<u8>, cipher: Seq<u8>|
            {
                &&& iv.len() == 16
                &&& cipher.len() == plain@.len()
                &&& r@ == #[trigger] spec_secure_record(iv, cipher)
                &&& aes_cfb128_decrypt(old(crypto).spec_key(), iv, cipher) == plain@
            },
{
    let mut iv_bytes: Vec<u8> = Vec::new();
    let mut i: usize = 0;
    while i < 16
        invariant
            iv_bytes@.len() == i,
            i <= 16,
        decreases 16 - i,
    {
        iv_bytes.push(0);
        i += 1;
    }
    crypto.gen_random(&mut iv_bytes);
    let mut iv = [0u8; 16];
    let mut j: usize = 0;
    while j < 16
        invariant
            j <= 16,
            iv_bytes@.len() == 16,
            iv@.len() == 16,
        decreases 16 - j,
    {
        iv[j] = iv_bytes[j];
        j += 1;
    }
    let cipher = crypto.encrypt_aes(plain, &iv).unwrap();
    let mut record = vstd::bytes::u32_to_le_bytes((cipher.len() + 16) as u32);
    record.extend_from_slice(iv.as_slice());
    record.extend_from_slice(cipher.as_slice());
    proof {
        vstd::bytes::lemma_auto_spec_u32_to_from_le_bytes();
        assert(record@ =~= spec_secure_record(iv@, cipher@));
    }
    record
}

/// Decrypt one secure record body as read off the wire after its length
/// field: the 16-byte IV followed by the ciphertext. A body shorter than the
/// IV is structurally damaged.
pub fn open_record(crypto: &crate::secure::crypto::CryptoStore, record: &[u8]) -> (r: Result<
    Vec<u8>,
    crate::Error,
>)
    ensures
        r is Ok <==> record@.len() >= 16,
        r matches Ok(p) ==> {
            &&& p@ == aes_cfb128_decrypt(
                crypto.spec_key(),
                record@.subrange(0, 16),
                record@.subrange(16, record@.len() as int),
            )
            &&& p@.len() == record@.len() - 16
        },
        r is Err ==> r == Err::<Vec<u8>, crate::Error>(
            crate::Error::Crypto(crate::secure::crypto::CryptoError::CorruptedData),
        ),
{
    if record.len() < 16 {
        return Err(crate::Error::Crypto(crate::secure::crypto::CryptoError::CorruptedData));
    }
    let iv_slice = vstd::slice::slice_subrange(record, 0, 16);
    let mut iv = [0u8; 16];
    let mut j: usize = 0;
    while j < 16
        invariant
            j <= 16,
            iv_slice@.len() == 16,
            iv@.len() == 16,
            forall|k: int| 0 <= k < j ==> iv@[k] == iv_slice@[k],
        decreases 16 - j,
    {
        iv[j] = *vstd::slice::slice_index_get(iv_slice, j);
        j += 1;
    }
    let cipher = vstd::slice::slice_subrange(record, 16, record.len());
    proof {
        assert(iv@ =~= record@.subrange(0, 16));
    }
    Ok(crypto.decrypt_aes(cipher, &iv).unwrap())
}

} // verus!

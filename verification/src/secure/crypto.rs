//! Crypto store: the 128-bit AES key of one connection, CFB128 record
//! encryption, RSA-OAEP-SHA1 key wrapping, and CSPRNG bytes.

use vstd::prelude::*;
use vstd::bytes::{spec_u32_from_le_bytes, spec_u32_to_le_bytes, u32_from_le_bytes, u32_to_le_bytes};
use crate::Error;
use crate::secure::{SecureHandshake, SecureHandshakeHeader};

verus! {

/// Record cipher selector of the handshake prelude; `2` on the wire.
#[derive(Debug, Clone, Copy, PartialEq, Eq, Structural)]
pub enum EncryptType {
    AesCfb128,
}

impl EncryptType {
    /// The wire code of this selector.
    pub open spec fn spec_code(self) -> u32 {
        2u32
    }

    /// The wire code of this selector.
    #[verifier::when_used_as_spec(spec_code)]
    pub fn code(self) -> (r: u32)
        ensures
            r == self.spec_code(),
    {
        2
    }
}

/// Key wrap selector of the handshake prelude; `12` on the wire.
#[derive(Debug, Clone, Copy, PartialEq, Eq, Structural)]
pub enum KeyEncryptType {
    RsaOaepSha1Mgf1Sha1,
}

impl KeyEncryptType {
    /// The wire code of this selector.
    pub open spec fn spec_code(self) -> u32 {
        12u32
    }

    /// The wire code of this selector.
    #[verifier::when_used_as_spec(spec_code)]
    pub fn code(self) -> (r: u32)
        ensures
            r == self.spec_code(),
    {
        12
    }
}

/// Error raised by an AES or RSA operation that rejects its input.
#[derive(Debug, Clone, Copy, PartialEq, Eq, Structural)]
pub enum CryptoError {
    CorruptedData,
}

/// What AES-128-CFB128 encryption returns for a key, an IV and a plaintext.
/// The result is a function of those arguments alone.
pub uninterp spec fn aes_cfb128_encrypt(key: Seq<u8>, iv: Seq<u8>, plain: Seq<u8>) -> Seq<u8>;

/// What AES-128-CFB128 decryption returns for a key, an IV and a ciphertext.
/// The result is a function of those arguments alone.
pub uninterp spec fn aes_cfb128_decrypt(key: Seq<u8>, iv: Seq<u8>, cipher: Seq<u8>) -> Seq<u8>;

/// Relies on libaes `Cipher::new_128` and `Cipher::cfb128_encrypt`: CFB128 is
/// a stream mode without padding, so the ciphertext has the plaintext's
/// length, and `cfb128_decrypt` under the same key and IV inverts it.
#[verifier::external_body]
fn aes_encrypt_raw(key: &[u8; 16], iv: &[u8; 16], data: &[u8]) -> (r: Vec<u8>)
    ensures
        r@ == aes_cfb128_encrypt(key@, iv@, data@),
        r@.len() == data@.len(),
        aes_cfb128_decrypt(key@, iv@, r@) == data@,
{
    let cipher = libaes::Cipher::new_128(key);
    cipher.cfb128_encrypt(iv, data)
}

/// Relies on libaes `Cipher::new_128` and `Cipher::cfb128_decrypt`: CFB128 is
/// a stream mode without padding, so the plaintext has the ciphertext's
/// length.
#[verifier::external_body]
fn aes_decrypt_raw(key: &[u8; 16], iv: &[u8; 16], data: &[u8]) -> (r: Vec<u8>)
    ensures
        r@ == aes_cfb128_decrypt(key@, iv@, data@),
        r@.len() == data@.len(),
{
    let cipher = libaes::Cipher::new_128(key);
    cipher.cfb128_decrypt(iv, data)
}

/// Relies on rand's `OsRng::fill_bytes`: fills the buffer in place with bytes
/// from the operating system's entropy source; nothing is promised of the
/// values.
#[verifier::external_body]
fn os_random_fill(data: &mut Vec<u8>)
    ensures
        final(data)@.len() == old(data)@.len(),
{
    rand::RngCore::fill_bytes(&mut rand::rngs::OsRng, data.as_mut_slice());
}

#[verifier::external_type_specification]
#[verifier::external_body]
pub struct ExRsaPublicKey(rsa::RsaPublicKey);

#[verifier::external_type_specification]
#[verifier::external_body]
pub struct ExRsaPrivateKey(rsa::RsaPrivateKey);

/// Relies on rsa's `RsaPublicKey::encrypt` with OAEP(SHA-1) padding: wraps a
/// message under the public key. OAEP padding is randomized, so nothing is
/// promised of the ciphertext bytes.
#[verifier::external_body]
fn rsa_oaep_wrap(key: &rsa::RsaPublicKey, msg: &[u8]) -> (r: Result<Vec<u8>, CryptoError>)
    ensures
        r is Err ==> r->Err_0 == CryptoError::CorruptedData,
{
    rsa::PublicKey::encrypt(
        key,
        &mut rand::rngs::OsRng,
        rsa::PaddingScheme::new_oaep::<sha1::Sha1>(),
        msg,
    ).map_err(|_| CryptoError::CorruptedData)
}

/// Relies on rsa's `RsaPrivateKey::decrypt` with OAEP(SHA-1) padding: unwraps
/// a ciphertext under the private key. The private key is opaque here, so
/// nothing is promised of the plaintext bytes.
#[verifier::external_body]
pub(in crate::secure) fn rsa_oaep_unwrap(key: &rsa::RsaPrivateKey, cipher: &[u8]) -> (r: Result<
    Vec<u8>,
    CryptoError,
>)
{
    key.decrypt(rsa::PaddingScheme::new_oaep::<sha1::Sha1>(), cipher).map_err(
        |_| CryptoError::CorruptedData,
    )
}

/// Holder of one connection's 128-bit AES key.
#[derive(Debug, Clone)]
pub struct CryptoStore {
    aes_key: [u8; 16],
}

impl CryptoStore {
    /// The AES key as a byte sequence.
    pub closed spec fn spec_key(&self) -> Seq<u8> {
        self.aes_key@
    }

    /// Create a crypto store with a fresh random key.
    pub fn new() -> (r: CryptoStore)
        ensures
            r.spec_key().len() == 16,
    {
        let mut key_bytes: Vec<u8> = Vec::new();
        let mut i: usize = 0;
        while i < 16
            invariant
                key_bytes@.len() == i,
                i <= 16,
            decreases 16 - i,
        {
            key_bytes.push(0);
            i += 1;
        }
        os_random_fill(&mut key_bytes);
        let mut aes_key = [0u8; 16];
        let mut j: usize = 0;
        while j < 16
            invariant
                j <= 16,
                key_bytes@.len() == 16,
            decreases 16 - j,
        {
            aes_key[j] = key_bytes[j];
            j += 1;
        }
        CryptoStore { aes_key }
    }

    /// Create a crypto store holding the given AES key.
    pub fn new_with_key(aes_key: [u8; 16]) -> (r: CryptoStore)
        ensures
            r.spec_key() == aes_key@,
    {
        CryptoStore { aes_key }
    }

    /// Encrypt one record's plaintext under a fresh IV chosen by the caller.
    pub fn encrypt_aes(&self, data: &[u8], iv: &[u8; 16]) -> (r: Result<Vec<u8>, CryptoError>)
        ensures
            r is Ok,
            r matches Ok(c) ==> {
                &&& c@ == aes_cfb128_encrypt(self.spec_key(), iv@, data@)
                &&& c@.len() == data@.len()
                &&& aes_cfb128_decrypt(self.spec_key(), iv@, c@) == data@
            },
    {
        Ok(aes_encrypt_raw(&self.aes_key, iv, data))
    }

    /// Decrypt one record's ciphertext under its IV.
    pub fn decrypt_aes(&self, data: &[u8], iv: &[u8; 16]) -> (r: Result<Vec<u8>, CryptoError>)
        ensures
            r is Ok,
            r matches Ok(p) ==> {
                &&& p@ == aes_cfb128_decrypt(self.spec_key(), iv@, data@)
                &&& p@.len() == data@.len()
            },
    {
        Ok(aes_decrypt_raw(&self.aes_key, iv, data))
    }

    /// Wrap the AES key under the peer's RSA public key.
    pub fn encrypt_key(&mut self, key: &rsa::RsaPublicKey) -> (r: Result<Vec<u8>, CryptoError>)
        ensures
            final(self).spec_key() == old(self).spec_key(),
            r is Err ==> r == Err::<Vec<u8>, CryptoError>(CryptoError::CorruptedData),
    {
        rsa_oaep_wrap(key, self.aes_key.as_slice())
    }

    /// Fill the buffer with bytes from the CSPRNG.
    pub fn gen_random(&mut self, data: &mut Vec<u8>)
        ensures
            *final(self) == *old(self),
            final(data)@.len() == old(data)@.len(),
    {
        os_random_fill(data);
    }
}

/// Install an unwrapped key as a connection's AES key: the handshake
/// accepts an RSA-OAEP plaintext of exactly 16 bytes and rejects any other
/// length as `InvalidKey`.
pub fn crypto_from_unwrapped_key(unwrapped: &Vec<u8>) -> (r: Result<CryptoStore, Error>)
    ensures
        r is Ok <==> unwrapped@.len() == 16,
        r matches Ok(c) ==> c.spec_key() == unwrapped@,
        r is Err ==> r == Err::<CryptoStore, Error>(Error::InvalidKey),
{
    if unwrapped.len() != 16 {
        return Err(Error::InvalidKey);
    }
    let mut aes_key = [0u8; 16];
    let mut j: usize = 0;
    while j < 16
        invariant
            j <= 16,
            unwrapped@.len() == 16,
            aes_key@.len() == 16,
            forall|k: int| 0 <= k < j ==> aes_key@[k] == unwrapped@[k],
        decreases 16 - j,
    {
        aes_key[j] = unwrapped[j];
        j += 1;
    }
    proof {
        assert(aes_key@ =~= unwrapped@);
    }
    Ok(CryptoStore::new_with_key(aes_key))
}

/// The wire image of the handshake prelude carrying `wrapped`:
/// `[len(wrapped):u32 LE][key_encrypt_type=12:u32 LE][encrypt_type=2:u32 LE][wrapped]`.
pub open spec fn spec_handshake_bytes(wrapped: Seq<u8>) -> Seq<u8> {
    spec_u32_to_le_bytes(wrapped.len() as u32) + spec_u32_to_le_bytes(12u32) + spec_u32_to_le_bytes(
        2u32,
    ) + wrapped
}

/// Frame an already-wrapped key into the handshake prelude.
pub fn handshake_packet_bytes(wrapped: &Vec<u8>) -> (r: Result<Vec<u8>, Error>)
    ensures
        r is Ok <==> wrapped@.len() <= u32::MAX,
        r matches Ok(v) ==> v@ == spec_handshake_bytes(wrapped@),
        r is Err ==> r == Err::<Vec<u8>, Error>(Error::Crypto(CryptoError::CorruptedData)),
{
    if wrapped.len() > u32::MAX as usize {
        return Err(Error::Crypto(CryptoError::CorruptedData));
    }
    let mut out: Vec<u8> = Vec::new();
    let mut len_bytes = u32_to_le_bytes(wrapped.len() as u32);
    out.append(&mut len_bytes);
    let mut kt_bytes = u32_to_le_bytes(KeyEncryptType::RsaOaepSha1Mgf1Sha1.code());
    out.append(&mut kt_bytes);
    let mut et_bytes = u32_to_le_bytes(EncryptType::AesCfb128.code());
    out.append(&mut et_bytes);
    out.extend_from_slice(wrapped.as_slice());
    proof {
        assert(out@ =~= spec_handshake_bytes(wrapped@));
    }
    Ok(out)
}

/// Wrap the crypto store's AES key under the peer's public key and frame the
/// handshake prelude around it.
pub fn to_handshake_packet(crypto: &mut CryptoStore, key: &rsa::RsaPublicKey) -> (r: Result<
    Vec<u8>,
    Error,
>)
    ensures
        final(crypto).spec_key() == old(crypto).spec_key(),
        r matches Ok(v) ==> exists|w: Seq<u8>|
            w.len() <= u32::MAX && v@ == #[trigger] spec_handshake_bytes(w),
        r is Err ==> r == Err::<Vec<u8>, Error>(Error::Crypto(CryptoError::CorruptedData)),
{
    let wrapped = match crypto.encrypt_key(key) {
        Ok(w) => w,
        Err(e) => {
            return Err(Error::Crypto(e));
        },
    };
    handshake_packet_bytes(&wrapped)
}

/// Parse the fixed 12-byte head of a handshake prelude; the caller then reads
/// `encrypted_key.len()` more bytes into the returned placeholder.
pub fn decode_handshake_head(buf: &[u8]) -> (r: Result<SecureHandshake, Error>)
    ensures
        r is Ok <==> {
            &&& buf@.len() >= 12
            &&& spec_u32_from_le_bytes(buf@.subrange(4, 8)) == 12u32
            &&& spec_u32_from_le_bytes(buf@.subrange(8, 12)) == 2u32
        },
        r matches Ok(h) ==> {
            &&& h.header.key_encrypt_type == KeyEncryptType::RsaOaepSha1Mgf1Sha1
            &&& h.header.encrypt_type == EncryptType::AesCfb128
            &&& h.encrypted_key@.len() == spec_u32_from_le_bytes(buf@.subrange(0, 4))
            &&& forall|i: int| 0 <= i < h.encrypted_key@.len() ==> h.encrypted_key@[i] == 0u8
        },
        r is Err ==> r == Err::<SecureHandshake, Error>(Error::Bincode),
{
    if buf.len() < 12 {
        return Err(Error::Bincode);
    }
    let key_size = u32_from_le_bytes(vstd::slice::slice_subrange(buf, 0, 4));
    let key_encrypt_code = u32_from_le_bytes(vstd::slice::slice_subrange(buf, 4, 8));
    let encrypt_code = u32_from_le_bytes(vstd::slice::slice_subrange(buf, 8, 12));
    if key_encrypt_code != 12 || encrypt_code != 2 {
        return Err(Error::Bincode);
    }
    let mut encrypted_key: Vec<u8> = Vec::new();
    let mut i: usize = 0;
    let key_size_usize = key_size as usize;
    while i < key_size_usize
        invariant
            i <= key_size_usize,
            encrypted_key@.len() == i,
            forall|j: int| 0 <= j < i ==> encrypted_key@[j] == 0u8,
        decreases key_size_usize - i,
    {
        encrypted_key.push(0);
        i += 1;
    }
    Ok(SecureHandshake {
        header: SecureHandshakeHeader {
            key_encrypt_type: KeyEncryptType::RsaOaepSha1Mgf1Sha1,
            encrypt_type: EncryptType::AesCfb128,
        },
        encrypted_key,
    })
}

/// Round trip of the handshake prelude codec: the framed prelude for any
/// wrapped key parses back to the same selectors and wrapped-key length, and
/// carries the wrapped key bytes unchanged after the 12-byte head.
pub proof fn lemma_handshake_head_round_trip(wrapped: Seq<u8>)
    requires
        wrapped.len() <= u32::MAX,
    ensures
        ({
            let b = spec_handshake_bytes(wrapped);
            &&& b.len() == 12 + wrapped.len()
            &&& spec_u32_from_le_bytes(b.subrange(0, 4)) == wrapped.len()
            &&& spec_u32_from_le_bytes(b.subrange(4, 8)) == 12u32
            &&& spec_u32_from_le_bytes(b.subrange(8, 12)) == 2u32
            &&& b.subrange(12, b.len() as int) == wrapped
        }),
{
    vstd::bytes::lemma_auto_spec_u32_to_from_le_bytes();
    let b = spec_handshake_bytes(wrapped);
    assert(b.subrange(0, 4) =~= spec_u32_to_le_bytes(wrapped.len() as u32));
    assert(b.subrange(4, 8) =~= spec_u32_to_le_bytes(12u32));
    assert(b.subrange(8, 12) =~= spec_u32_to_le_bytes(2u32));
    assert(b.subrange(12, b.len() as int) =~= wrapped);
}

} // verus!

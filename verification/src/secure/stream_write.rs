//! Write half of the secure stream: frames each plaintext as one
//! AES-CFB128-encrypted record under a fresh random IV.

use vstd::prelude::*;
use crate::Error;
use crate::secure::crypto::{to_handshake_packet, spec_handshake_bytes, CryptoStore};
use crate::secure::{lemma_stream_plains_append, seal_record, spec_secure_record, spec_stream_plains};

verus! {

/// Writer over an in-memory byte stream. The bytes before `spec_base()` are
/// the unencrypted prefix (what was in the stream at construction, plus any
/// handshake prelude); everything after it is a sequence of secure records
/// whose plaintexts concatenate to `spec_plains()`.
pub struct SecureStreamWrite {
    crypto: CryptoStore,
    inner: Vec<u8>,
    base: Ghost<Seq<u8>>,
    plains: Ghost<Seq<u8>>,
}

impl SecureStreamWrite {
    /// The AES key of this writer.
    pub closed spec fn spec_key(&self) -> Seq<u8> {
        self.crypto.spec_key()
    }

    /// Everything written to the underlying stream so far.
    pub closed spec fn spec_inner(&self) -> Seq<u8> {
        self.inner@
    }

    /// The unencrypted prefix of the stream.
    pub closed spec fn spec_base(&self) -> Seq<u8> {
        self.base@
    }

    /// The concatenation of every plaintext framed so far.
    pub closed spec fn spec_plains(&self) -> Seq<u8> {
        self.plains@
    }

    /// The stream is the unencrypted prefix followed by records that drain
    /// back to exactly the written plaintexts.
    pub open spec fn wf(&self) -> bool {
        &&& self.spec_base().len() <= self.spec_inner().len()
        &&& self.spec_inner().take(self.spec_base().len() as int) == self.spec_base()
        &&& spec_stream_plains(
            self.spec_key(),
            self.spec_inner().skip(self.spec_base().len() as int),
        ) == Some(self.spec_plains())
    }

    /// Wrap a stream for secure writing.
    pub fn new(crypto: CryptoStore, stream: Vec<u8>) -> (r: SecureStreamWrite)
        ensures
            r.wf(),
            r.spec_key() == crypto.spec_key(),
            r.spec_inner() == stream@,
            r.spec_base() == stream@,
            r.spec_plains() == Seq::<u8>::empty(),
    {
        let ghost base = stream@;
        let r = SecureStreamWrite {
            crypto,
            inner: stream,
            base: Ghost(base),
            plains: Ghost(Seq::empty()),
        };
        proof {
            assert(r.spec_inner().take(base.len() as int) =~= base);
            assert(r.spec_inner().skip(base.len() as int) =~= Seq::<u8>::empty());
        }
        r
    }

    /// The crypto store of this writer.
    pub fn crypto(&self) -> (r: &CryptoStore)
        ensures
            r.spec_key() == self.spec_key(),
    {
        &self.crypto
    }

    /// Give the underlying stream back.
    pub fn into_inner(self) -> (r: Vec<u8>)
        ensures
            r@ == self.spec_inner(),
    {
        self.inner
    }

    /// Frame `buf` as exactly one secure record under a fresh random IV and
    /// append it to the stream; returns the number of plaintext bytes framed.
    pub fn write(&mut self, buf: &[u8]) -> (r: Result<usize, Error>)
        requires
            old(self).wf(),
            buf@.len() + 16 <= u32::MAX,
        ensures
            final(self).wf(),
            final(self).spec_key() == old(self).spec_key(),
            final(self).spec_base() == old(self).spec_base(),
            final(self).spec_plains() == old(self).spec_plains() + buf@,
            r == Ok::<usize, Error>(buf@.len() as usize),
            exists|iv: Seq<u8>, cipher: Seq<u8>|
                {
                    &&& iv.len() == 16
                    &&& cipher.len() == buf@.len()
                    &&& final(self).spec_inner() == old(self).spec_inner()
                        + #[trigger] spec_secure_record(iv, cipher)
                },
    {
        let record = seal_record(&mut self.crypto, buf);
        let ghost old_inner = self.inner@;
        let ghost written = old_inner.skip(self.base@.len() as int);
        self.inner.extend_from_slice(record.as_slice());
        proof {
            let (iv, cipher) = choose|iv: Seq<u8>, cipher: Seq<u8>|
                {
                    &&& iv.len() == 16
                    &&& cipher.len() == buf@.len()
                    &&& record@ == #[trigger] spec_secure_record(iv, cipher)
                    &&& crate::secure::crypto::aes_cfb128_decrypt(self.spec_key(), iv, cipher)
                        == buf@
                };
            assert(self.inner@ =~= old_inner + spec_secure_record(iv, cipher));
            lemma_stream_plains_append(self.spec_key(), written, iv, cipher, buf@);
            assert(self.inner@.skip(self.base@.len() as int) =~= written + spec_secure_record(
                iv,
                cipher,
            ));
            assert(self.inner@.take(self.base@.len() as int) =~= old_inner.take(
                self.base@.len() as int,
            ));
        }
        self.plains = Ghost(self.plains@ + buf@);
        Ok(buf.len())
    }

    /// Emit the handshake prelude: the AES key wrapped under the peer's RSA
    /// public key, framed with the cipher-selection fields. Must come before
    /// any record is written.
    pub fn write_handshake(&mut self, key: &rsa::RsaPublicKey) -> (r: Result<(), Error>)
        requires
            old(self).wf(),
            old(self).spec_inner().len() == old(self).spec_base().len(),
        ensures
            final(self).wf(),
            final(self).spec_key() == old(self).spec_key(),
            final(self).spec_plains() == old(self).spec_plains(),
            final(self).spec_base() == final(self).spec_inner(),
            r is Ok ==> exists|w: Seq<u8>|
                w.len() <= u32::MAX && final(self).spec_inner() == old(self).spec_inner()
                    + #[trigger] spec_handshake_bytes(w),
            r is Err ==> final(self).spec_inner() == old(self).spec_inner() && r == Err::<
                (),
                Error,
            >(Error::Crypto(crate::secure::crypto::CryptoError::CorruptedData)),
    {
        let packet = match to_handshake_packet(&mut self.crypto, key) {
            Ok(p) => p,
            Err(e) => {
                proof {
                    assert(self.inner@.take(self.base@.len() as int) =~= self.inner@);
                    assert(self.inner@.skip(self.base@.len() as int) =~= Seq::<u8>::empty());
                }
                self.base = Ghost(self.inner@);
                return Err(e);
            },
        };
        self.inner.extend_from_slice(packet.as_slice());
        self.base = Ghost(self.inner@);
        proof {
            assert(self.inner@.take(self.base@.len() as int) =~= self.inner@);
            assert(self.inner@.skip(self.base@.len() as int) =~= Seq::<u8>::empty());
        }
        Ok(())
    }

    /// Wrap a stream for secure writing and emit the handshake prelude at
    /// once.
    pub fn new_handshake(crypto: CryptoStore, stream: Vec<u8>, pubkey: &rsa::RsaPublicKey) -> (r:
        Result<SecureStreamWrite, Error>)
        ensures
            r matches Ok(s) ==> {
                &&& s.wf()
                &&& s.spec_key() == crypto.spec_key()
                &&& s.spec_plains() == Seq::<u8>::empty()
                &&& s.spec_base() == s.spec_inner()
                &&& exists|w: Seq<u8>|
                    w.len() <= u32::MAX && s.spec_inner() == stream@ + #[trigger] spec_handshake_bytes(
                        w,
                    )
            },
            r is Err ==> r == Err::<SecureStreamWrite, Error>(
                Error::Crypto(crate::secure::crypto::CryptoError::CorruptedData),
            ),
    {
        let mut s = SecureStreamWrite::new(crypto, stream);
        match s.write_handshake(pubkey) {
            Ok(()) => Ok(s),
            Err(e) => Err(e),
        }
    }
}

} // verus!

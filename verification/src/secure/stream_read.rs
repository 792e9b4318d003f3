//! Read half of the secure stream: drains length-prefixed encrypted records
//! and buffers the decrypted plaintext between reads.

use vstd::prelude::*;
use vstd::bytes::{spec_u32_from_le_bytes, u32_from_le_bytes};
use crate::Error;
use crate::secure::crypto::{
    crypto_from_unwrapped_key, decode_handshake_head, rsa_oaep_unwrap, CryptoError, CryptoStore,
};
use crate::secure::{lemma_stream_plains_head, open_record, spec_next_chunk, spec_stream_plains};

verus! {

/// Reader over an in-memory byte stream: `spec_pos()` marks how far the
/// stream has been consumed, and the plaintext of the last decrypted record
/// is buffered until drained.
pub struct SecureStreamRead {
    crypto: CryptoStore,
    inner: Vec<u8>,
    pos: usize,
    read_buf: Vec<u8>,
    buf_pos: usize,
}

impl SecureStreamRead {
    /// The AES key of this reader.
    pub closed spec fn spec_key(&self) -> Seq<u8> {
        self.crypto.spec_key()
    }

    /// The whole underlying stream.
    pub closed spec fn spec_inner(&self) -> Seq<u8> {
        self.inner@
    }

    /// How far the underlying stream has been consumed.
    pub closed spec fn spec_pos(&self) -> int {
        self.pos as int
    }

    /// Decrypted plaintext not yet handed to the caller.
    pub closed spec fn spec_buffered(&self) -> Seq<u8> {
        self.read_buf@.skip(self.buf_pos as int)
    }

    /// What the unconsumed part of the stream drains to, if it is a
    /// well-formed sequence of records.
    pub open spec fn spec_rest(&self) -> Option<Seq<u8>> {
        spec_stream_plains(self.spec_key(), self.spec_inner().skip(self.spec_pos()))
    }

    /// All plaintext still owed to the caller, when the stream is well
    /// formed: the buffered bytes, then what the records ahead drain to.
    pub open spec fn spec_remaining(&self) -> Seq<u8> {
        self.spec_buffered() + self.spec_rest()->0
    }

    /// Positions lie inside their buffers.
    pub closed spec fn wf(&self) -> bool {
        &&& self.pos <= self.inner@.len()
        &&& self.buf_pos <= self.read_buf@.len()
    }

    /// Wrap a stream for secure reading.
    pub fn new(crypto: CryptoStore, stream: Vec<u8>) -> (r: SecureStreamRead)
        ensures
            r.wf(),
            r.spec_key() == crypto.spec_key(),
            r.spec_inner() == stream@,
            r.spec_pos() == 0,
            r.spec_buffered() == Seq::<u8>::empty(),
            r.spec_rest() == spec_stream_plains(crypto.spec_key(), stream@),
    {
        let r = SecureStreamRead {
            crypto,
            inner: stream,
            pos: 0,
            read_buf: Vec::new(),
            buf_pos: 0,
        };
        proof {
            assert(r.spec_buffered() =~= Seq::<u8>::empty());
            assert(r.spec_inner().skip(0) =~= r.spec_inner());
        }
        r
    }

    /// The crypto store of this reader.
    pub fn crypto(&self) -> (r: &CryptoStore)
        ensures
            r.spec_key() == self.spec_key(),
    {
        &self.crypto
    }

    /// Give the underlying stream back.
    pub fn into_inner(self) -> (r: Vec<u8>)
        ensures
            r@ == self.spec_inner(),
    {
        self.inner
    }

    /// Consume exactly one record from the stream and replace the plaintext
    /// buffer with its decryption. Truncation is an I/O error; a length
    /// field under 16 is structural damage; any error leaves the reader
    /// untouched.
    fn read_data(&mut self) -> (r: Result<(), Error>)
        requires
            old(self).wf(),
            old(self).spec_buffered().len() == 0,
        ensures
            final(self).wf(),
            final(self).spec_key() == old(self).spec_key(),
            final(self).spec_inner() == old(self).spec_inner(),
            r is Err ==> *final(self) == *old(self),
            r is Ok ==> final(self).spec_pos() >= old(self).spec_pos() + 20,
            ({
                let bytes = old(self).spec_inner().skip(old(self).spec_pos());
                let n = spec_u32_from_le_bytes(bytes.subrange(0, 4)) as int;
                &&& (bytes.len() < 4 ==> r == Err::<(), Error>(Error::Io))
                &&& (bytes.len() >= 4 && n < 16 ==> r == Err::<(), Error>(
                    Error::Crypto(CryptoError::CorruptedData),
                ))
                &&& (bytes.len() >= 4 && n >= 16 && bytes.len() < 4 + n ==> r == Err::<(), Error>(
                    Error::Io,
                ))
                &&& (bytes.len() >= 4 && n >= 16 && bytes.len() >= 4 + n ==> {
                    &&& r is Ok
                    &&& final(self).spec_pos() == old(self).spec_pos() + 4 + n
                    &&& final(self).spec_buffered() == crate::secure::crypto::aes_cfb128_decrypt(
                        old(self).spec_key(),
                        bytes.subrange(4, 20),
                        bytes.subrange(20, 4 + n),
                    )
                })
            }),
            old(self).spec_rest() is Some ==> {
                &&& (r is Ok <==> old(self).spec_pos() < old(self).spec_inner().len())
                &&& (r is Err ==> r == Err::<(), Error>(Error::Io))
                &&& (r is Ok ==> {
                    &&& final(self).spec_rest() is Some
                    &&& final(self).spec_remaining() == old(self).spec_remaining()
                })
            },
    {
        let ghost bytes = self.inner@.skip(self.pos as int);
        proof {
            if self.spec_rest() is Some && bytes.len() > 0 {
                lemma_stream_plains_head(self.spec_key(), bytes);
            }
        }
        if self.inner.len() - self.pos < 4 {
            return Err(Error::Io);
        }
        let n = u32_from_le_bytes(
            vstd::slice::slice_subrange(self.inner.as_slice(), self.pos, self.pos + 4),
        ) as usize;
        proof {
            assert(self.inner@.subrange(self.pos as int, self.pos + 4) =~= bytes.subrange(0, 4));
        }
        if n < 16 {
            return Err(Error::Crypto(CryptoError::CorruptedData));
        }
        if self.inner.len() - self.pos - 4 < n {
            return Err(Error::Io);
        }
        let record = vstd::slice::slice_subrange(
            self.inner.as_slice(),
            self.pos + 4,
            self.pos + 4 + n,
        );
        proof {
            assert(record@ =~= bytes.subrange(4, 4 + n));
            assert(record@.subrange(0, 16) =~= bytes.subrange(4, 20));
            assert(record@.subrange(16, record@.len() as int) =~= bytes.subrange(20, 4 + n));
        }
        let plain = open_record(&self.crypto, record).unwrap();
        self.read_buf = plain;
        self.buf_pos = 0;
        self.pos = self.pos + 4 + n;
        proof {
            assert(self.spec_buffered() =~= self.read_buf@);
            if spec_stream_plains(old(self).spec_key(), bytes) is Some {
                assert(self.inner@.skip(self.pos as int) =~= bytes.subrange(
                    4 + n,
                    bytes.len() as int,
                ));
                assert(old(self).spec_remaining() =~= old(self).spec_rest()->0);
                assert(self.spec_remaining() =~= self.read_buf@ + self.spec_rest()->0);
            }
        }
        Ok(())
    }

    /// Drain up to `n` bytes of plaintext. A read served from a non-empty
    /// buffer hands out exactly `min(n, buffered)` bytes and never touches
    /// the stream; with an empty buffer, records are decrypted only until
    /// the buffer is non-empty, and `min(n, that record's plaintext)` bytes
    /// are handed out.
    pub fn read(&mut self, n: usize) -> (r: Result<Vec<u8>, Error>)
        requires
            old(self).wf(),
        ensures
            final(self).wf(),
            final(self).spec_key() == old(self).spec_key(),
            final(self).spec_inner() == old(self).spec_inner(),
            old(self).spec_buffered().len() > 0 ==> ({
                let avail = old(self).spec_buffered().len() as int;
                let k = if n <= avail {
                    n as int
                } else {
                    avail
                };
                &&& final(self).spec_pos() == old(self).spec_pos()
                &&& r matches Ok(v) && v@.len() == k && v@ == old(self).spec_buffered().take(k)
                &&& final(self).spec_buffered() == old(self).spec_buffered().skip(k)
            }),
            old(self).spec_rest() is Some ==> {
                &&& (r is Ok <==> old(self).spec_remaining().len() > 0)
                &&& (r matches Ok(v) ==> {
                    &&& v@.len() <= n
                    &&& (n > 0 ==> v@.len() > 0)
                    &&& v@ == old(self).spec_remaining().take(v@.len() as int)
                    &&& final(self).spec_rest() is Some
                    &&& final(self).spec_remaining() == old(self).spec_remaining().skip(
                        v@.len() as int,
                    )
                })
                &&& (old(self).spec_buffered().len() == 0 ==> (r matches Ok(v) ==> ({
                    let chunk = spec_next_chunk(
                        old(self).spec_key(),
                        old(self).spec_inner().skip(old(self).spec_pos()),
                    );
                    v@.len() == (if n <= chunk.len() {
                        n as int
                    } else {
                        chunk.len() as int
                    })
                })))
                &&& (r is Err ==> r == Err::<Vec<u8>, Error>(Error::Io))
            },
    {
        let ghost start_chunk = spec_next_chunk(
            old(self).spec_key(),
            old(self).spec_inner().skip(old(self).spec_pos()),
        );
        while self.buf_pos == self.read_buf.len()
            invariant
                self.wf(),
                self.spec_key() == old(self).spec_key(),
                self.spec_inner() == old(self).spec_inner(),
                old(self).spec_buffered().len() > 0 ==> *self == *old(self),
                start_chunk == spec_next_chunk(
                    old(self).spec_key(),
                    old(self).spec_inner().skip(old(self).spec_pos()),
                ),
                old(self).spec_rest() is Some ==> ({
                    &&& self.spec_rest() is Some
                    &&& self.spec_remaining() == old(self).spec_remaining()
                    &&& (old(self).spec_buffered().len() == 0 ==> (if self.spec_buffered().len()
                        > 0 {
                        self.spec_buffered() == start_chunk
                    } else {
                        spec_next_chunk(
                            self.spec_key(),
                            self.spec_inner().skip(self.spec_pos()),
                        ) == start_chunk
                    }))
                }),
            decreases self.spec_inner().len() - self.spec_pos(),
        {
            proof {
                assert(self.spec_buffered() =~= Seq::<u8>::empty());
            }
            let ghost pre = *self;
            match self.read_data() {
                Ok(()) => {
                    proof {
                        if old(self).spec_rest() is Some {
                            let bytes = pre.spec_inner().skip(pre.spec_pos());
                            lemma_stream_plains_head(pre.spec_key(), bytes);
                            let m = spec_u32_from_le_bytes(bytes.subrange(0, 4)) as int;
                            assert(self.spec_inner().skip(self.spec_pos()) =~= bytes.subrange(
                                4 + m,
                                bytes.len() as int,
                            ));
                        }
                    }
                },
                Err(e) => {
                    proof {
                        if old(self).spec_rest() is Some {
                            assert(self.spec_inner().skip(self.spec_pos()).len() == 0);
                            assert(self.spec_remaining() =~= Seq::<u8>::empty());
                        }
                    }
                    return Err(e);
                },
            }
        }
        let avail = self.read_buf.len() - self.buf_pos;
        let k = if n < avail {
            n
        } else {
            avail
        };
        let v = vstd::slice::slice_to_vec(
            vstd::slice::slice_subrange(self.read_buf.as_slice(), self.buf_pos, self.buf_pos + k),
        );
        let ghost before_buffered = self.spec_buffered();
        self.buf_pos = self.buf_pos + k;
        proof {
            assert(v@ =~= before_buffered.take(k as int));
            assert(self.spec_buffered() =~= before_buffered.skip(k as int));
            if old(self).spec_rest() is Some {
                assert(v@ =~= (before_buffered + self.spec_rest()->0).take(k as int));
                assert(self.spec_remaining() =~= (before_buffered + self.spec_rest()->0).skip(
                    k as int,
                ));
            }
        }
        Ok(v)
    }

    /// Read and check the handshake prelude from the head of the stream,
    /// unwrap the AES key with the RSA private key, and wrap the rest of the
    /// stream for secure reading. An unwrapped key of any length other than
    /// 16 bytes is rejected as `InvalidKey`; an unwrap the RSA layer rejects
    /// is `Crypto` corruption; those two are the only failures once the
    /// prelude is well formed and complete.
    pub fn read_handshake(stream: Vec<u8>, key: &rsa::RsaPrivateKey) -> (r: Result<
        SecureStreamRead,
        Error,
    >)
        ensures
            ({
                let b = stream@;
                let key_size = spec_u32_from_le_bytes(b.subrange(0, 4)) as int;
                let codes_ok = spec_u32_from_le_bytes(b.subrange(4, 8)) == 12u32
                    && spec_u32_from_le_bytes(b.subrange(8, 12)) == 2u32;
                &&& (b.len() < 12 ==> r == Err::<SecureStreamRead, Error>(Error::Io))
                &&& (b.len() >= 12 && !codes_ok ==> r == Err::<SecureStreamRead, Error>(
                    Error::Bincode,
                ))
                &&& (b.len() >= 12 && codes_ok && b.len() < 12 + key_size ==> r == Err::<
                    SecureStreamRead,
                    Error,
                >(Error::Io))
                &&& (b.len() >= 12 && codes_ok && b.len() >= 12 + key_size ==> (r is Ok || r
                    == Err::<SecureStreamRead, Error>(Error::Crypto(CryptoError::CorruptedData))
                    || r == Err::<SecureStreamRead, Error>(Error::InvalidKey)))
                &&& (r matches Ok(s) ==> {
                    &&& b.len() >= 12 + key_size
                    &&& codes_ok
                    &&& s.wf()
                    &&& s.spec_inner() == b
                    &&& s.spec_pos() == 12 + key_size
                    &&& s.spec_key().len() == 16
                    &&& s.spec_buffered() == Seq::<u8>::empty()
                    &&& s.spec_rest() == spec_stream_plains(
                        s.spec_key(),
                        b.skip(12 + key_size),
                    )
                })
            }),
            r is Err ==> (r == Err::<SecureStreamRead, Error>(Error::Io) || r == Err::<
                SecureStreamRead,
                Error,
            >(Error::Bincode) || r == Err::<SecureStreamRead, Error>(
                Error::Crypto(CryptoError::CorruptedData),
            ) || r == Err::<SecureStreamRead, Error>(Error::InvalidKey)),
    {
        if stream.len() < 12 {
            return Err(Error::Io);
        }
        let head = vstd::slice::slice_subrange(stream.as_slice(), 0, 12);
        proof {
            assert(head@.subrange(0, 4) =~= stream@.subrange(0, 4));
            assert(head@.subrange(4, 8) =~= stream@.subrange(4, 8));
            assert(head@.subrange(8, 12) =~= stream@.subrange(8, 12));
        }
        let handshake = match decode_handshake_head(head) {
            Ok(h) => h,
            Err(_) => {
                return Err(Error::Bincode);
            },
        };
        let key_size = handshake.encrypted_key.len();
        if stream.len() - 12 < key_size {
            return Err(Error::Io);
        }
        let wrapped = vstd::slice::slice_subrange(stream.as_slice(), 12, 12 + key_size);
        let unwrapped = match rsa_oaep_unwrap(key, wrapped) {
            Ok(k) => k,
            Err(e) => {
                return Err(Error::Crypto(e));
            },
        };
        let crypto = match crypto_from_unwrapped_key(&unwrapped) {
            Ok(c) => c,
            Err(e) => {
                return Err(e);
            },
        };
        let r = SecureStreamRead {
            crypto,
            inner: stream,
            pos: 12 + key_size,
            read_buf: Vec::new(),
            buf_pos: 0,
        };
        proof {
            assert(r.spec_buffered() =~= Seq::<u8>::empty());
        }
        Ok(r)
    }
}

} // verus!

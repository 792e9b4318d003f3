//! Core of a client/server runtime for the LOCO binary messaging protocol:
//! a length-prefixed command codec, an RSA-handshaked AES-CFB128 secure
//! transport, and the state machine of a request/response multiplexer.

use vstd::prelude::*;

pub mod command;
mod encoded_method;
mod loco_header;
mod loco_instance;
pub mod secure;

pub use encoded_method::EncodedMethod;
pub use loco_header::BodyType;
pub use loco_header::LocoHeader;
pub use loco_header::HEADER_SIZE;
pub use loco_header::lemma_loco_header_round_trip;
pub use loco_header::spec_loco_header_bytes;
pub use loco_instance::lemma_each_pid_resolved_once;
pub use loco_instance::lemma_next_pid_distinct;
pub use loco_instance::lemma_pending_size_bound;
pub use loco_instance::pending_has;
pub use loco_instance::pending_lookup;
pub use loco_instance::pending_unique;
pub use loco_instance::spec_expired;
pub use loco_instance::spec_next_pid;
pub use loco_instance::spec_sweep_expired_pids;
pub use loco_instance::spec_sweep_keep;
pub use loco_instance::BROADCAST_CAPACITY;
pub use loco_instance::DispatchAction;
pub use loco_instance::InstanceState;
pub use loco_instance::PendingEntry;
pub use loco_instance::TIMEOUT_MS;
pub use loco_instance::build_request_frame;
pub use loco_instance::decode_bson_document;
pub use loco_instance::encode_bson_document;
pub use loco_instance::spec_request_frame;
pub use encoded_method::spec_method_bytes;
pub use encoded_method::lemma_method_round_trip;
pub use encoded_method::strip_trailing_nul;

use crate::secure::crypto::CryptoError;

verus! {

/// Errors surfaced at the crate boundary.
#[derive(Debug, Clone, Copy, PartialEq, Eq, Structural)]
pub enum Error {
    /// Header or length field malformed, or input truncated.
    Bincode,
    /// The underlying byte source or sink failed or ran out of bytes.
    Io,
    /// An AES or RSA operation rejected its input.
    Crypto(CryptoError),
    /// A BSON body failed to decode.
    BsonDe,
    /// A BSON body failed to encode.
    BsonSer,
    /// An RSA-OAEP unwrap yielded a key that is not exactly 16 bytes.
    InvalidKey,
    /// A completion or broadcast channel receiver is gone.
    TokioSendFail,
    /// A completion channel sender is gone.
    TokioRecvFail,
    /// A pending request was evicted after its timeout.
    LocoTimeout,
    /// A method field is not valid UTF-8 after stripping trailing NULs.
    EncodedMethodDeserializeError,
}

} // verus!

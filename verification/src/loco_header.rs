//! The 22-byte command head used by the instance multiplexer: the 18-byte
//! header fields together with the body length, as one record.

use vstd::prelude::*;
use vstd::bytes::{
    spec_u16_from_le_bytes, spec_u16_to_le_bytes, spec_u32_from_le_bytes, spec_u32_to_le_bytes,
    u16_from_le_bytes, u16_to_le_bytes, u32_from_le_bytes, u32_to_le_bytes,
};
use crate::encoded_method::EncodedMethod;
use crate::Error;

verus! {

/// Width of the full command head on the wire.
pub const HEADER_SIZE: usize = 22;

/// Payload encoding discriminant: `0` on the wire means BSON; every other
/// value is tolerated and carried through unchanged.
#[derive(Debug, Clone, Copy, PartialEq, Eq, Structural)]
pub enum BodyType {
    Bson,
    Unknown(i8),
}

impl BodyType {
    /// The wire code of this discriminant.
    pub open spec fn spec_code(self) -> i8 {
        match self {
            BodyType::Bson => 0i8,
            BodyType::Unknown(raw) => raw,
        }
    }

    /// The wire code of this discriminant.
    #[verifier::when_used_as_spec(spec_code)]
    pub fn code(self) -> (r: i8)
        ensures
            r == self.spec_code(),
    {
        match self {
            BodyType::Bson => 0,
            BodyType::Unknown(raw) => raw,
        }
    }

    /// The discriminant a wire code stands for; `0` is BSON.
    pub open spec fn spec_from_code(code: i8) -> BodyType {
        if code == 0 {
            BodyType::Bson
        } else {
            BodyType::Unknown(code)
        }
    }

    /// The discriminant a wire code stands for; `0` is BSON.
    #[verifier::when_used_as_spec(spec_from_code)]
    pub fn from_code(code: i8) -> (r: BodyType)
        ensures
            r == BodyType::spec_from_code(code),
    {
        if code == 0 {
            BodyType::Bson
        } else {
            BodyType::Unknown(code)
        }
    }
}

/// The full 22-byte little-endian command head of the multiplexer.
#[derive(Debug, Clone, Copy, Eq)]
pub struct LocoHeader {
    /// Packet identifier; request-originated and echoed in the reply.
    pub id: i32,
    /// Peer-defined result code; zero on a request.
    pub status: i16,
    /// 11-byte right-NUL-padded method tag.
    pub method: EncodedMethod,
    /// Payload encoding discriminant.
    pub body_type: BodyType,
    /// Length of the payload that follows the head.
    pub body_size: u32,
}

impl PartialEq for LocoHeader {
    fn eq(&self, other: &LocoHeader) -> (r: bool) {
        self.id == other.id && self.status == other.status && self.method == other.method
            && self.body_type == other.body_type && self.body_size == other.body_size
    }
}

impl vstd::std_specs::cmp::PartialEqSpecImpl for LocoHeader {
    open spec fn obeys_eq_spec() -> bool {
        true
    }

    open spec fn eq_spec(&self, other: &LocoHeader) -> bool {
        &&& self.id == other.id
        &&& self.status == other.status
        &&& self.method.0 == other.method.0
        &&& self.body_type == other.body_type
        &&& self.body_size == other.body_size
    }
}

/// The 22 bytes of a command head on the wire.
pub open spec fn spec_loco_header_bytes(h: LocoHeader) -> Seq<u8> {
    spec_u32_to_le_bytes(h.id as u32) + spec_u16_to_le_bytes(h.status as u16) + h.method.0@
        + seq![h.body_type.spec_code() as u8] + spec_u32_to_le_bytes(h.body_size)
}

impl LocoHeader {
    /// Append the wire image of this head to `out`.
    pub fn serialize_into(&self, out: &mut Vec<u8>)
        ensures
            final(out)@ == old(out)@ + spec_loco_header_bytes(*self),
    {
        let mut id_bytes = u32_to_le_bytes(#[verifier::truncate] (self.id as u32));
        out.append(&mut id_bytes);
        let mut status_bytes = u16_to_le_bytes(#[verifier::truncate] (self.status as u16));
        out.append(&mut status_bytes);
        out.extend_from_slice(self.method.0.as_slice());
        out.push(#[verifier::truncate] (self.body_type.code() as u8));
        let mut size_bytes = u32_to_le_bytes(self.body_size);
        out.append(&mut size_bytes);
        proof {
            assert(out@ =~= old(out)@ + spec_loco_header_bytes(*self));
        }
    }

    /// Parse one command head from the first 22 bytes of `src`.
    pub fn deserialize_from(src: &[u8]) -> (r: Result<LocoHeader, Error>)
        ensures
            r is Ok <==> src@.len() >= 22,
            r matches Ok(h) ==> {
                &&& h.id as u32 == spec_u32_from_le_bytes(src@.subrange(0, 4))
                &&& h.status as u16 == spec_u16_from_le_bytes(src@.subrange(4, 6))
                &&& h.method.0@ == src@.subrange(6, 17)
                &&& h.body_type == BodyType::spec_from_code(src@[17] as i8)
                &&& h.body_size == spec_u32_from_le_bytes(src@.subrange(18, 22))
            },
            r is Err ==> r == Err::<LocoHeader, Error>(Error::Io),
    {
        if src.len() < 22 {
            return Err(Error::Io);
        }
        let id = u32_from_le_bytes(vstd::slice::slice_subrange(src, 0, 4));
        let status = u16_from_le_bytes(vstd::slice::slice_subrange(src, 4, 6));
        let mut method = [0u8; 11];
        let mut i: usize = 0;
        while i < 11
            invariant
                i <= 11,
                src@.len() >= 22,
                method@.len() == 11,
                forall|j: int| 0 <= j < i ==> method@[j] == src@[6 + j],
            decreases 11 - i,
        {
            method[i] = *vstd::slice::slice_index_get(src, 6 + i);
            i += 1;
        }
        let body_code = #[verifier::truncate] (*vstd::slice::slice_index_get(src, 17) as i8);
        let body_size = u32_from_le_bytes(vstd::slice::slice_subrange(src, 18, 22));
        proof {
            assert(method@ =~= src@.subrange(6, 17));
            let raw = src@[17];
            assert(((raw as i8) as u8) == raw) by (bit_vector);
            assert(((id as i32) as u32) == id) by (bit_vector);
            assert(((status as i16) as u16) == status) by (bit_vector);
        }
        Ok(LocoHeader {
            id: #[verifier::truncate] (id as i32),
            status: #[verifier::truncate] (status as i16),
            method: EncodedMethod(method),
            body_type: BodyType::from_code(body_code),
            body_size,
        })
    }
}

/// Round trip of the command head codec: the wire image of any head parses
/// back to the same fields, with an `Unknown(0)` discriminant reading back as
/// BSON since the two share the wire code `0`.
pub proof fn lemma_loco_header_round_trip(h: LocoHeader)
    ensures
        ({
            let b = spec_loco_header_bytes(h);
            &&& b.len() == 22
            &&& spec_u32_from_le_bytes(b.subrange(0, 4)) == h.id as u32
            &&& spec_u16_from_le_bytes(b.subrange(4, 6)) == h.status as u16
            &&& b.subrange(6, 17) == h.method.0@
            &&& b[17] == h.body_type.spec_code() as u8
            &&& spec_u32_from_le_bytes(b.subrange(18, 22)) == h.body_size
        }),
{
    vstd::bytes::lemma_auto_spec_u32_to_from_le_bytes();
    vstd::bytes::lemma_auto_spec_u16_to_from_le_bytes();
    let b = spec_loco_header_bytes(h);
    assert(b.subrange(0, 4) =~= spec_u32_to_le_bytes(h.id as u32));
    assert(b.subrange(4, 6) =~= spec_u16_to_le_bytes(h.status as u16));
    assert(b.subrange(6, 17) =~= h.method.0@);
    assert(b[17] == h.body_type.spec_code() as u8);
    assert(b.subrange(18, 22) =~= spec_u32_to_le_bytes(h.body_size));
}

} // verus!

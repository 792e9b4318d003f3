//! Command codec: framing of LOCO command packets onto a byte stream.
//!
//! Wire layout of one command: `[header:18][length:u32 LE][payload:length]`,
//! where the header is `[id:i32 LE][status:i16 LE][method:11][data_type:i8]`.

use vstd::prelude::*;
use vstd::bytes::{
    spec_u16_from_le_bytes, spec_u16_to_le_bytes, spec_u32_from_le_bytes, spec_u32_to_le_bytes,
    u16_from_le_bytes, u16_to_le_bytes, u32_from_le_bytes, u32_to_le_bytes,
};
use crate::encoded_method::EncodedMethod;
use crate::Error;

verus! {

/// Width of the fixed command header on the wire.
pub const HEADER_SIZE: usize = 18;

/// Width of the header together with the payload length field.
pub const HEAD_SIZE: usize = 22;

/// Fixed 18-byte little-endian header of a LOCO command.
#[derive(Debug, Clone, Copy, Eq)]
pub struct LocoHeader {
    /// Packet identifier; request-originated and echoed in the reply.
    pub id: i32,
    /// Peer-defined result code; zero on a request.
    pub status: i16,
    /// 11-byte right-NUL-padded method tag.
    pub method: EncodedMethod,
    /// Payload encoding discriminant; `0` means BSON, other values are tolerated.
    pub data_type: i8,
}

impl PartialEq for LocoHeader {
    fn eq(&self, other: &LocoHeader) -> (r: bool) {
        self.id == other.id && self.status == other.status && self.method == other.method
            && self.data_type == other.data_type
    }
}

impl vstd::std_specs::cmp::PartialEqSpecImpl for LocoHeader {
    open spec fn obeys_eq_spec() -> bool {
        true
    }

    open spec fn eq_spec(&self, other: &LocoHeader) -> bool {
        &&& self.id == other.id
        &&& self.status == other.status
        &&& self.method.0 == other.method.0
        &&& self.data_type == other.data_type
    }
}

/// One framed LOCO command: header plus opaque payload.
#[derive(Debug, Clone, Eq)]
pub struct LocoCommand {
    pub header: LocoHeader,
    pub data: Vec<u8>,
}

impl PartialEq for LocoCommand {
    fn eq(&self, other: &LocoCommand) -> (r: bool) {
        if !(self.header == other.header) {
            return false;
        }
        if self.data.len() != other.data.len() {
            return false;
        }
        let mut i: usize = 0;
        while i < self.data.len()
            invariant
                i <= self.data@.len() == other.data@.len(),
                forall|j: int| 0 <= j < i ==> self.data@[j] == other.data@[j],
            decreases self.data@.len() - i,
        {
            if self.data[i] != other.data[i] {
                return false;
            }
            i += 1;
        }
        proof {
            assert(self.data@ =~= other.data@);
        }
        true
    }
}

impl vstd::std_specs::cmp::PartialEqSpecImpl for LocoCommand {
    open spec fn obeys_eq_spec() -> bool {
        true
    }

    open spec fn eq_spec(&self, other: &LocoCommand) -> bool {
        &&& self.header.id == other.header.id
        &&& self.header.status == other.header.status
        &&& self.header.method.0 == other.header.method.0
        &&& self.header.data_type == other.header.data_type
        &&& self.data@ == other.data@
    }
}

/// The 18 bytes of a header on the wire.
pub open spec fn spec_header_bytes(h: LocoHeader) -> Seq<u8> {
    spec_u32_to_le_bytes(h.id as u32) + spec_u16_to_le_bytes(h.status as u16) + h.method.0@
        + seq![h.data_type as u8]
}

/// The full wire image of a command: header, length field, payload.
pub open spec fn spec_command_bytes(c: LocoCommand) -> Seq<u8> {
    spec_header_bytes(c.header) + spec_u32_to_le_bytes(c.data@.len() as u32) + c.data@
}

/// The `u32` encoded little-endian at offset `pos` of `b`.
pub open spec fn spec_parse_u32_at(b: Seq<u8>, pos: int) -> u32 {
    spec_u32_from_le_bytes(b.subrange(pos, pos + 4))
}

/// Whether a whole command can be parsed from `b` at offset `pos`.
pub open spec fn spec_can_parse_command(b: Seq<u8>, pos: int) -> bool {
    &&& pos + 22 <= b.len()
    &&& pos + 22 + spec_parse_u32_at(b, pos + 18) <= b.len()
}

impl LocoCommand {
    /// Append the wire image of this command to `out`.
    pub fn serialize_into(&self, out: &mut Vec<u8>)
        requires
            self.data@.len() <= u32::MAX,
        ensures
            final(out)@ == old(out)@ + spec_command_bytes(*self),
    {
        let mut id_bytes = u32_to_le_bytes(#[verifier::truncate] (self.header.id as u32));
        out.append(&mut id_bytes);
        let mut status_bytes = u16_to_le_bytes(#[verifier::truncate] (self.header.status as u16));
        out.append(&mut status_bytes);
        out.extend_from_slice(self.header.method.0.as_slice());
        out.push(#[verifier::truncate] (self.header.data_type as u8));
        let mut len_bytes = u32_to_le_bytes(self.data.len() as u32);
        out.append(&mut len_bytes);
        out.extend_from_slice(self.data.as_slice());
        proof {
            assert(self.data@.len() as u32 == (self.data@.len() as usize) as u32);
            assert(out@ =~= old(out)@ + spec_command_bytes(*self));
        }
    }

    /// Parse one command from `src` at offset `pos`; on success return it with
    /// the offset just past its payload.
    pub fn deserialize_from(src: &[u8], pos: usize) -> (r: Result<(LocoCommand, usize), Error>)
        ensures
            r is Ok <==> spec_can_parse_command(src@, pos as int),
            r matches Ok(p) ==> {
                let body_len = spec_parse_u32_at(src@, pos + 18);
                &&& p.0.header.id as u32 == spec_parse_u32_at(src@, pos as int)
                &&& p.0.header.status as u16 == spec_u16_from_le_bytes(
                    src@.subrange(pos + 4, pos + 6),
                )
                &&& p.0.header.method.0@ == src@.subrange(pos + 6, pos + 17)
                &&& p.0.header.data_type as u8 == src@[pos + 17]
                &&& p.0.data@ == src@.subrange(pos + 22, pos + 22 + body_len)
                &&& p.0.data@.len() == body_len
                &&& p.1 == pos + 22 + body_len
            },
            r is Err ==> r == Err::<(LocoCommand, usize), Error>(Error::Io),
    {
        if src.len() < 22 || pos > src.len() - 22 {
            return Err(Error::Io);
        }
        let id = u32_from_le_bytes(vstd::slice::slice_subrange(src, pos, pos + 4));
        let status = u16_from_le_bytes(vstd::slice::slice_subrange(src, pos + 4, pos + 6));
        let mut method = [0u8; 11];
        let mut i: usize = 0;
        while i < 11
            invariant
                i <= 11,
                pos + 22 <= src@.len(),
                pos <= usize::MAX - 22,
                method@.len() == 11,
                forall|j: int| 0 <= j < i ==> method@[j] == src@[pos + 6 + j],
            decreases 11 - i,
        {
            method[i] = *vstd::slice::slice_index_get(src, pos + 6 + i);
            i += 1;
        }
        let data_type = *vstd::slice::slice_index_get(src, pos + 17);
        let body_len = u32_from_le_bytes(vstd::slice::slice_subrange(src, pos + 18, pos + 22))
            as usize;
        if src.len() - (pos + 22) < body_len {
            return Err(Error::Io);
        }
        let data = vstd::slice::slice_to_vec(vstd::slice::slice_subrange(
            src,
            pos + 22,
            pos + 22 + body_len,
        ));
        proof {
            assert(method@ =~= src@.subrange(pos + 6, pos + 17));
            assert(((id as i32) as u32) == id) by (bit_vector);
            assert(((status as i16) as u16) == status) by (bit_vector);
            assert(((data_type as i8) as u8) == data_type) by (bit_vector);
        }
        Ok((
            LocoCommand {
                header: LocoHeader {
                    id: #[verifier::truncate] (id as i32),
                    status: #[verifier::truncate] (status as i16),
                    method: EncodedMethod(method),
                    data_type: #[verifier::truncate] (data_type as i8),
                },
                data,
            },
            pos + 22 + body_len,
        ))
    }
}

/// Round trip of the command codec: the wire image of any command whose
/// payload length fits a `u32` parses back to the very same fields.
pub proof fn lemma_command_round_trip(c: LocoCommand)
    requires
        c.data@.len() <= u32::MAX,
    ensures
        ({
            let b = spec_command_bytes(c);
            &&& spec_can_parse_command(b, 0)
            &&& spec_parse_u32_at(b, 0) == c.header.id as u32
            &&& spec_u16_from_le_bytes(b.subrange(4, 6)) == c.header.status as u16
            &&& b.subrange(6, 17) == c.header.method.0@
            &&& b[17] == c.header.data_type as u8
            &&& spec_parse_u32_at(b, 18) == c.data@.len()
            &&& b.subrange(22, 22 + c.data@.len() as int) == c.data@
            &&& b.len() == 22 + c.data@.len()
        }),
{
    let b = spec_command_bytes(c);
    vstd::bytes::lemma_auto_spec_u32_to_from_le_bytes();
    vstd::bytes::lemma_auto_spec_u16_to_from_le_bytes();
    assert(b.subrange(0, 4) =~= spec_u32_to_le_bytes(c.header.id as u32));
    assert(b.subrange(4, 6) =~= spec_u16_to_le_bytes(c.header.status as u16));
    assert(b.subrange(6, 17) =~= c.header.method.0@);
    assert(b[17] == c.header.data_type as u8);
    assert(b.subrange(18, 22) =~= spec_u32_to_le_bytes(c.data@.len() as u32));
    assert(b.subrange(22, 22 + c.data@.len() as int) =~= c.data@);
}

/// Framing invariant of the command codec: the length field of any framed
/// command equals the length of its payload.
pub proof fn lemma_command_length_field(c: LocoCommand)
    requires
        c.data@.len() <= u32::MAX,
    ensures
        spec_parse_u32_at(spec_command_bytes(c), 18) == c.data@.len(),
{
    lemma_command_round_trip(c);
}

} // verus!

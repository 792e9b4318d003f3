//! Fixed-width 11-byte ASCII method name with string conversion.

use vstd::prelude::*;
use vstd::string::StringSliceAdditionalSpecFns;
use vstd::utf8::{decode_utf8, valid_utf8};
use crate::Error;

verus! {

/// An 11-octet, right-NUL-padded method tag of a LOCO command.
/// Two methods compare equal iff their 11-byte representations match.
#[derive(Debug, Clone, Copy, Eq)]
pub struct EncodedMethod(pub [u8; 11]);

impl PartialEq for EncodedMethod {
    fn eq(&self, other: &EncodedMethod) -> (r: bool) {
        let mut i: usize = 0;
        while i < 11
            invariant
                i <= 11,
                forall|j: int| 0 <= j < i ==> self.0@[j] == other.0@[j],
            decreases 11 - i,
        {
            if self.0[i] != other.0[i] {
                proof {
                    broadcast use vstd::array::group_array_axioms;

                    assert(self.0 != other.0);
                }
                return false;
            }
            i += 1;
        }
        proof {
            broadcast use vstd::array::group_array_axioms;

            assert(self.0@ =~= other.0@);
            assert(self.0 =~= other.0);
        }
        true
    }
}

impl vstd::std_specs::cmp::PartialEqSpecImpl for EncodedMethod {
    open spec fn obeys_eq_spec() -> bool {
        true
    }

    open spec fn eq_spec(&self, other: &EncodedMethod) -> bool {
        self.0 == other.0
    }
}

/// The bytes of `s` left-aligned in an 11-byte field and padded with NUL.
pub open spec fn spec_method_bytes(s: Seq<u8>) -> Seq<u8> {
    s + Seq::new((11 - s.len()) as nat, |i: int| 0u8)
}

/// The bytes of `b` with every trailing NUL removed.
pub open spec fn strip_trailing_nul(b: Seq<u8>) -> Seq<u8>
    decreases b.len(),
{
    if b.len() > 0 && b.last() == 0u8 {
        strip_trailing_nul(b.drop_last())
    } else {
        b
    }
}

/// Relies on String::from_utf8: it succeeds exactly on valid UTF-8 input and
/// decodes the bytes to their character sequence.
#[verifier::external_body]
fn string_from_utf8(bytes: Vec<u8>) -> (r: Option<String>)
    ensures
        r is Some <==> valid_utf8(bytes@),
        r is Some ==> r->0@ == decode_utf8(bytes@),
{
    String::from_utf8(bytes).ok()
}

impl EncodedMethod {
    /// Left-align the bytes of `s` in an 11-byte field and pad with NUL;
    /// a string of more than 11 bytes is rejected.
    pub fn from_str(s: &str) -> (r: Result<EncodedMethod, Error>)
        ensures
            r is Ok <==> s.spec_bytes().len() <= 11,
            r matches Ok(m) ==> {
                &&& m.0@.len() == 11
                &&& m.0@ == spec_method_bytes(s.spec_bytes())
                &&& forall|i: int| 0 <= i < s.spec_bytes().len() ==> m.0@[i] == s.spec_bytes()[i]
                &&& forall|i: int| s.spec_bytes().len() <= i < 11 ==> m.0@[i] == 0u8
            },
            r is Err ==> r == Err::<EncodedMethod, Error>(Error::Io),
    {
        let bytes = s.as_bytes();
        if bytes.len() > 11 {
            return Err(Error::Io);
        }
        let mut field = [0u8; 11];
        let mut i: usize = 0;
        while i < bytes.len()
            invariant
                i <= bytes.len() <= 11,
                bytes@ == s.spec_bytes(),
                field@.len() == 11,
                forall|j: int| 0 <= j < i ==> field@[j] == bytes@[j],
                forall|j: int| i <= j < 11 ==> field@[j] == 0u8,
            decreases bytes.len() - i,
        {
            field[i] = *vstd::slice::slice_index_get(bytes, i);
            i += 1;
        }
        proof {
            assert(field@ =~= spec_method_bytes(s.spec_bytes()));
        }
        Ok(EncodedMethod(field))
    }

    /// Strip trailing NUL bytes and decode the rest as UTF-8.
    pub fn try_into_string(self) -> (r: Result<String, Error>)
        ensures
            r is Ok <==> valid_utf8(strip_trailing_nul(self.0@)),
            r matches Ok(s) ==> s@ == decode_utf8(strip_trailing_nul(self.0@)),
            r is Err ==> r == Err::<String, Error>(Error::EncodedMethodDeserializeError),
    {
        let mut end: usize = 11;
        proof {
            assert(self.0@.take(11int) =~= self.0@);
        }
        while end > 0 && self.0[end - 1] == 0
            invariant
                end <= 11,
                self.0@.len() == 11,
                strip_trailing_nul(self.0@) == strip_trailing_nul(self.0@.take(end as int)),
            decreases end,
        {
            proof {
                assert(self.0@.take(end as int).last() == 0u8);
                assert(self.0@.take(end as int).drop_last() =~= self.0@.take(end - 1));
            }
            end -= 1;
        }
        let stripped = vstd::slice::slice_to_vec(vstd::slice::slice_subrange(
            self.0.as_slice(),
            0,
            end,
        ));
        proof {
            assert(self.0@.take(end as int) =~= self.0@.subrange(0, end as int));
            if end > 0 {
                assert(strip_trailing_nul(self.0@.take(end as int)) == self.0@.take(end as int));
            } else {
                assert(self.0@.take(0).len() == 0);
                assert(strip_trailing_nul(self.0@.take(0)) =~= self.0@.take(0));
            }
        }
        match string_from_utf8(stripped) {
            Some(s) => Ok(s),
            None => Err(Error::EncodedMethodDeserializeError),
        }
    }
}



/// Stripping trailing NULs from a byte string that ends with `k` NUL bytes
/// and otherwise has a non-NUL last byte recovers the unpadded prefix.
proof fn lemma_strip_pad(b: Seq<u8>, k: nat)
    requires
        b.len() == 0 || b.last() != 0u8,
    ensures
        strip_trailing_nul(b + Seq::new(k, |i: int| 0u8)) == b,
    decreases k,
{
    let zeros = Seq::new(k, |i: int| 0u8);
    if k == 0 {
        assert(b + zeros =~= b);
        if b.len() > 0 {
            assert(strip_trailing_nul(b) == b);
        }
    } else {
        assert((b + zeros).last() == 0u8);
        assert((b + zeros).drop_last() =~= b + Seq::new((k - 1) as nat, |i: int| 0u8));
        lemma_strip_pad(b, (k - 1) as nat);
    }
}

/// Round trip of the method codec: any ASCII string of at most 11 characters
/// and no embedded NUL, left-aligned in an 11-byte NUL-padded field, strips
/// and decodes back to the very same characters.
pub proof fn lemma_method_round_trip(s: Seq<char>, m: Seq<u8>)
    requires
        vstd::utf8::is_ascii_chars(s),
        s.len() <= 11,
        forall|i: int| 0 <= i < s.len() ==> s[i] != '\0',
        m.len() == 11,
        forall|i: int| 0 <= i < vstd::utf8::encode_utf8(s).len() ==> m[i] == vstd::utf8::encode_utf8(
            s,
        )[i],
        forall|i: int| vstd::utf8::encode_utf8(s).len() <= i < 11 ==> m[i] == 0u8,
    ensures
        valid_utf8(strip_trailing_nul(m)),
        decode_utf8(strip_trailing_nul(m)) == s,
{
    broadcast use vstd::utf8::is_ascii_chars_encode_utf8;
    broadcast use vstd::utf8::encode_utf8_valid_utf8;
    broadcast use vstd::utf8::encode_utf8_decode_utf8;

    let b = vstd::utf8::encode_utf8(s);
    assert(b.len() == s.len());
    if s.len() > 0 {
        let last = s[s.len() - 1];
        assert(b.last() == last as u8);
        assert(last as u32 != 0) by {
            if last as u32 == 0 {
                vstd::utf8::char_u32_cast(last, 0);
                assert(last == 0 as char);
            }
        }
        assert((last as u32) < 128) by {
            vstd::utf8::is_ascii_chars_nat_bound(s);
        }
        assert(last as u8 == last as u32 as u8);
        assert(last as u32 as u8 != 0u8) by {
            let u = last as u32;
            assert(u != 0 && u < 128 ==> u as u8 != 0u8) by (bit_vector);
        }
    }
    assert(m =~= b + Seq::new((11 - b.len()) as nat, |i: int| 0u8));
    lemma_strip_pad(b, (11 - b.len()) as nat);
}

} // verus!

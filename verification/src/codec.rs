//! Typed values: what the codec turns into a record and back.

use vstd::bytes::{
    lemma_auto_spec_u32_to_from_le_bytes, spec_u32_from_le_bytes, spec_u32_to_le_bytes,
};
use vstd::prelude::*;

verus! {

/// The codec's own error. Nothing here looks inside it.
#[verifier::external_type_specification]
#[verifier::external_body]
pub struct ExErrorKind(bincode::ErrorKind);

/// Why a typed operation failed.
#[derive(Debug)]
pub enum CodecError {
    /// The codec could not encode the value.
    Encode(Box<bincode::ErrorKind>),
    /// The codec could not decode the record.
    Decode(Box<bincode::ErrorKind>),
}

/// A value that can be stored as a record.
pub trait TypedValue: Sized {
    /// The record that holds the value.
    spec fn encoding(&self) -> Seq<u8>;

    /// The value that a record holds, if it holds one.
    spec fn decoding(record: Seq<u8>) -> Option<Self>;

    /// A value is read back from its own record.
    proof fn lemma_decode_encode(&self)
        ensures
            Self::decoding(self.encoding()) == Some(*self),
    ;

    /// Encodes the value. Whether that succeeds is up to the codec.
    fn encode(&self) -> (r: Result<Vec<u8>, CodecError>)
        ensures
            match r {
                Ok(record) => record@ == self.encoding(),
                Err(e) => e is Encode,
            },
    ;

    /// Decodes a record. It fails exactly on the records that hold no value.
    fn decode(record: &[u8]) -> (r: Result<Self, CodecError>)
        ensures
            match r {
                Ok(value) => Self::decoding(record@) == Some(value),
                Err(e) => Self::decoding(record@) is None && e is Decode,
            },
    ;
}

/// Calls `bincode::serialize` on a `u32`. With the options of that function,
/// fixed-size integers are written as they are, in little-endian order: where
/// the call succeeds, the result holds the four bytes of `value`.
#[verifier::external_body]
fn serialize_u32(value: u32) -> (r: Result<Vec<u8>, Box<bincode::ErrorKind>>)
    ensures
        r matches Ok(bytes) ==> bytes@ == spec_u32_to_le_bytes(value),
{
    bincode::serialize(&value)
}

/// Calls `bincode::deserialize` for a `u32`. With the options of that
/// function, the value is read from the first four bytes, in little-endian
/// order, and bytes after them are allowed; the call fails where `bytes` holds
/// fewer than four.
#[verifier::external_body]
fn deserialize_u32(bytes: &[u8]) -> (r: Result<u32, Box<bincode::ErrorKind>>)
    ensures
        match r {
            Ok(value) => bytes@.len() >= 4 && value == spec_u32_from_le_bytes(
                bytes@.subrange(0, 4),
            ),
            Err(_) => bytes@.len() < 4,
        },
{
    bincode::deserialize(bytes)
}

impl TypedValue for u32 {
    open spec fn encoding(&self) -> Seq<u8> {
        spec_u32_to_le_bytes(*self)
    }

    open spec fn decoding(record: Seq<u8>) -> Option<u32> {
        if record.len() >= 4 {
            Some(spec_u32_from_le_bytes(record.subrange(0, 4)))
        } else {
            None
        }
    }

    proof fn lemma_decode_encode(&self) {
        lemma_auto_spec_u32_to_from_le_bytes();
        let record = spec_u32_to_le_bytes(*self);
        assert(record.subrange(0, 4) =~= record);
    }

    fn encode(&self) -> (r: Result<Vec<u8>, CodecError>) {
        match serialize_u32(*self) {
            Ok(record) => Ok(record),
            Err(e) => Err(CodecError::Encode(e)),
        }
    }

    fn decode(record: &[u8]) -> (r: Result<u32, CodecError>) {
        match deserialize_u32(record) {
            Ok(value) => Ok(value),
            Err(e) => Err(CodecError::Decode(e)),
        }
    }
}

} // verus!

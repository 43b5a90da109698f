//! The layout of a persisted store.
//!
//! A persisted store is one run of bytes in three parts:
//!
//! ```text
//! [8 bytes: the byte length of the index region, little-endian]
//! [index region: one 4-byte little-endian offset per record]
//! [data region: the bytes of the records, one after the other]
//! ```

use crate::layout::{records_of, well_formed};
use vstd::bytes::{
    lemma_auto_spec_u32_to_from_le_bytes, lemma_auto_spec_u64_to_from_le_bytes,
    spec_u32_from_le_bytes, spec_u32_to_le_bytes, spec_u64_from_le_bytes, spec_u64_to_le_bytes,
};
use vstd::prelude::*;

verus! {

/// Why a run of bytes is not a persisted store.
#[derive(Clone, Copy, Debug, PartialEq, Eq, Structural)]
pub enum FormatError {
    /// There are fewer bytes than the prefix and the index region take.
    Truncated,
    /// The announced length of the index region is not a multiple of four.
    Misaligned,
    /// An offset is smaller than the one before it, or points past the end of
    /// the data region.
    BadOffset,
}

/// The number of bytes before the data region of a store with `count`
/// records: the prefix and the index region.
pub open spec fn header_len(count: nat) -> int {
    8 + 4 * (count as int)
}

/// The index region: each offset as four little-endian bytes.
pub open spec fn encode_offsets(offsets: Seq<u32>) -> Seq<u8>
    decreases offsets.len(),
{
    if offsets.len() == 0 {
        Seq::empty()
    } else {
        encode_offsets(offsets.drop_last()) + spec_u32_to_le_bytes(offsets.last())
    }
}

/// The prefix and the index region.
pub open spec fn encode_index(offsets: Seq<u32>) -> Seq<u8> {
    spec_u64_to_le_bytes((4 * offsets.len()) as u64) + encode_offsets(offsets)
}

/// A whole persisted store.
pub open spec fn persisted(offsets: Seq<u32>, data: Seq<u8>) -> Seq<u8> {
    encode_index(offsets) + data
}

/// The byte length of the index region that the prefix of `bytes` announces.
pub open spec fn region_len(bytes: Seq<u8>) -> int {
    spec_u64_from_le_bytes(bytes.subrange(0, 8)) as int
}

/// The offsets that an index region holds.
pub open spec fn decode_offsets(region: Seq<u8>) -> Seq<u32> {
    Seq::new(
        region.len() / 4,
        |i: int| spec_u32_from_le_bytes(region.subrange(4 * i, 4 * i + 4)),
    )
}

/// The offsets at the head of `bytes`, which start with the prefix and may go
/// on after the index region.
pub open spec fn decode_index(bytes: Seq<u8>) -> Result<Seq<u32>, FormatError> {
    if bytes.len() < 8 {
        Err(FormatError::Truncated)
    } else if region_len(bytes) % 4 != 0 {
        Err(FormatError::Misaligned)
    } else if bytes.len() < 8 + region_len(bytes) {
        Err(FormatError::Truncated)
    } else {
        Ok(decode_offsets(bytes.subrange(8, 8 + region_len(bytes))))
    }
}

/// The data region of a persisted store of `len` bytes with `count` records.
pub open spec fn data_region(file: Seq<u8>, count: nat, len: int) -> Seq<u8> {
    file.subrange(header_len(count), len)
}

/// The index region takes four bytes per offset.
pub proof fn lemma_encode_offsets_len(offsets: Seq<u32>)
    ensures
        encode_offsets(offsets).len() == 4 * offsets.len(),
    decreases offsets.len(),
{
    lemma_auto_spec_u32_to_from_le_bytes();
    if offsets.len() > 0 {
        lemma_encode_offsets_len(offsets.drop_last());
    }
}

/// Offset `i` stands at byte `4 * i` of the index region.
pub proof fn lemma_encode_offsets_at(offsets: Seq<u32>, i: int)
    requires
        0 <= i < offsets.len(),
    ensures
        encode_offsets(offsets).subrange(4 * i, 4 * i + 4) == spec_u32_to_le_bytes(offsets[i]),
    decreases offsets.len(),
{
    lemma_auto_spec_u32_to_from_le_bytes();
    let init = offsets.drop_last();
    lemma_encode_offsets_len(init);
    lemma_encode_offsets_len(offsets);
    if i == offsets.len() - 1 {
        assert(encode_offsets(offsets).subrange(4 * i, 4 * i + 4) =~= spec_u32_to_le_bytes(
            offsets.last(),
        ));
    } else {
        lemma_encode_offsets_at(init, i);
        assert(encode_offsets(offsets).subrange(4 * i, 4 * i + 4) =~= encode_offsets(
            init,
        ).subrange(4 * i, 4 * i + 4));
    }
}

/// Decoding what was encoded gives the offsets back, whatever follows the
/// index region.
pub proof fn lemma_decode_encode(offsets: Seq<u32>, rest: Seq<u8>)
    requires
        4 * offsets.len() <= u64::MAX,
    ensures
        decode_index(encode_index(offsets) + rest) == Ok::<Seq<u32>, FormatError>(offsets),
        encode_index(offsets).len() == header_len(offsets.len()),
{
    lemma_auto_spec_u32_to_from_le_bytes();
    lemma_auto_spec_u64_to_from_le_bytes();
    lemma_encode_offsets_len(offsets);
    let size = (4 * offsets.len()) as u64;
    let bytes = encode_index(offsets) + rest;
    assert(bytes.subrange(0, 8) =~= spec_u64_to_le_bytes(size));
    assert(region_len(bytes) == 4 * offsets.len());
    let region = bytes.subrange(8, 8 + region_len(bytes));
    assert(region =~= encode_offsets(offsets));
    assert(region.len() / 4 == offsets.len());
    assert forall|i: int| 0 <= i < offsets.len() implies #[trigger] decode_offsets(region)[i]
        == offsets[i] by {
        lemma_encode_offsets_at(offsets, i);
        assert(region.subrange(4 * i, 4 * i + 4) == spec_u32_to_le_bytes(offsets[i]));
        assert(spec_u32_from_le_bytes(spec_u32_to_le_bytes(offsets[i])) == offsets[i]);
    }
    assert(decode_offsets(region) =~= offsets);
}

/// Persist-then-read round trip: the index decoded from a persisted store and
/// its data region hold the records that were persisted, and as many.
pub proof fn lemma_persisted_records(offsets: Seq<u32>, data: Seq<u8>)
    requires
        well_formed(offsets, data.len() as int),
        4 * offsets.len() <= u64::MAX,
    ensures
        ({
            let file = persisted(offsets, data);
            &&& file.len() == header_len(offsets.len()) + data.len()
            &&& decode_index(file) == Ok::<Seq<u32>, FormatError>(offsets)
            &&& data_region(file, offsets.len(), file.len() as int) == data
            &&& records_of(offsets, data_region(file, offsets.len(), file.len() as int))
                == records_of(offsets, data)
        }),
{
    lemma_decode_encode(offsets, data);
    let file = persisted(offsets, data);
    assert(data_region(file, offsets.len(), file.len() as int) =~= data);
}

} // verus!

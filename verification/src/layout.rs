//! How an index and a data region together hold records.
//!
//! A data region is the concatenation of the records in identifier order. The
//! index gives the start of each record; a record ends where the next one
//! starts, and the last one ends with the region.

use crate::mem_index::{ordered, range_end, shifted, shift_fits};
use vstd::prelude::*;

verus! {

/// The offsets fit a data region of `data_len` bytes: they never decrease and
/// none points past the end of the region.
pub open spec fn well_formed(offsets: Seq<u32>, data_len: int) -> bool {
    &&& ordered(offsets)
    &&& forall|i: int| 0 <= i < offsets.len() ==> offsets[i] <= data_len
}

/// The bytes of record `id`.
pub open spec fn record_at(offsets: Seq<u32>, data: Seq<u8>, id: int) -> Seq<u8> {
    data.subrange(offsets[id] as int, range_end(offsets, id, data.len() as int))
}

/// All records of a data region, in identifier order.
pub open spec fn records_of(offsets: Seq<u32>, data: Seq<u8>) -> Seq<Seq<u8>> {
    Seq::new(offsets.len(), |id: int| record_at(offsets, data, id))
}

/// A data region with the bytes from `start` to `end` replaced by `with`.
pub open spec fn spliced(data: Seq<u8>, start: int, end: int, with: Seq<u8>) -> Seq<u8> {
    data.subrange(0, start) + with + data.subrange(end, data.len() as int)
}

/// The bytes of each of `records`.
pub open spec fn views(records: Seq<&[u8]>) -> Seq<Seq<u8>> {
    Seq::new(records.len(), |i: int| records[i]@)
}

/// The number of bytes that `records` take together.
pub open spec fn total_len(records: Seq<Seq<u8>>) -> nat
    decreases records.len(),
{
    if records.len() == 0 {
        0
    } else {
        total_len(records.drop_last()) + records.last().len()
    }
}

/// Every one of `records` starts at an offset of 32 bits when they are
/// appended, in order, to a data region of `data_len` bytes.
pub open spec fn all_start_in_reach(data_len: int, records: Seq<Seq<u8>>) -> bool {
    forall|k: int| 0 <= k < records.len() ==> data_len + #[trigger] total_len(records.take(k)) <= u32::MAX
}

/// In a well-formed store every record's range lies inside the data region.
pub proof fn lemma_range_in_bounds(offsets: Seq<u32>, data_len: int, id: int)
    requires
        well_formed(offsets, data_len),
        0 <= id < offsets.len(),
    ensures
        0 <= offsets[id] <= range_end(offsets, id, data_len) <= data_len,
{
}

/// Appending a record at the end of the data region adds it as the last
/// record and leaves the others as they were.
pub proof fn lemma_append(offsets: Seq<u32>, data: Seq<u8>, record: Seq<u8>)
    requires
        well_formed(offsets, data.len() as int),
        data.len() <= u32::MAX,
    ensures
        well_formed(offsets.push(data.len() as u32), (data + record).len() as int),
        records_of(offsets.push(data.len() as u32), data + record) == records_of(
            offsets,
            data,
        ).push(record),
{
    let grown = offsets.push(data.len() as u32);
    let joined = data + record;
    assert forall|id: int| 0 <= id < grown.len() implies #[trigger] record_at(grown, joined, id)
        == records_of(offsets, data).push(record)[id] by {
        if id < offsets.len() {
            lemma_range_in_bounds(offsets, data.len() as int, id);
            assert(range_end(grown, id, joined.len() as int) == range_end(
                offsets,
                id,
                data.len() as int,
            ));
            assert(record_at(grown, joined, id) =~= record_at(offsets, data, id));
        } else {
            assert(record_at(grown, joined, id) =~= record);
        }
    }
    assert(records_of(grown, joined) =~= records_of(offsets, data).push(record));
}

/// Replacing the bytes of record `pos` and moving the later offsets by the
/// change in length replaces that record and leaves the others as they were.
pub proof fn lemma_splice(offsets: Seq<u32>, data: Seq<u8>, pos: int, record: Seq<u8>)
    requires
        well_formed(offsets, data.len() as int),
        0 <= pos < offsets.len(),
        shift_fits(
            offsets,
            pos + 1,
            record.len() - record_at(offsets, data, pos).len(),
        ),
    ensures
        ({
            let start = offsets[pos] as int;
            let end = range_end(offsets, pos, data.len() as int);
            let delta = record.len() - (end - start);
            let moved = shifted(offsets, pos + 1, delta);
            let changed = spliced(data, start, end, record);
            &&& well_formed(moved, changed.len() as int)
            &&& records_of(moved, changed) == records_of(offsets, data).update(pos, record)
        }),
{
    let start = offsets[pos] as int;
    let end = range_end(offsets, pos, data.len() as int);
    let delta = record.len() - (end - start);
    let moved = shifted(offsets, pos + 1, delta);
    let changed = spliced(data, start, end, record);
    lemma_range_in_bounds(offsets, data.len() as int, pos);
    assert(record_at(offsets, data, pos).len() == end - start);
    assert(changed.len() == data.len() + delta);
    assert forall|i: int| 0 <= i < moved.len() implies moved[i] == if i <= pos {
        offsets[i] as int
    } else {
        offsets[i] + delta
    } by {
        if i > pos {
            assert(0 <= offsets[i] + delta <= u32::MAX);
        }
    }
    assert forall|i: int, j: int| 0 <= i <= j < moved.len() implies moved[i] <= moved[j] by {
        if i <= pos && pos < j {
            assert(offsets[pos + 1] <= offsets[j]);
        }
    }
    assert forall|i: int| 0 <= i < moved.len() implies moved[i] <= changed.len() by {
        if i <= pos {
            assert(offsets[i] <= offsets[pos]);
        }
    }
    assert forall|id: int| 0 <= id < moved.len() implies #[trigger] record_at(moved, changed, id)
        == records_of(offsets, data).update(pos, record)[id] by {
        lemma_range_in_bounds(offsets, data.len() as int, id);
        let from = moved[id] as int;
        let to = range_end(moved, id, changed.len() as int);
        if id < pos {
            assert(offsets[id + 1] <= offsets[pos]);
            assert(to == range_end(offsets, id, data.len() as int));
            assert(changed.subrange(from, to) =~= record_at(offsets, data, id));
        } else if id == pos {
            assert(to == start + record.len());
            assert(changed.subrange(from, to) =~= record);
        } else {
            assert(offsets[pos + 1] <= offsets[id]);
            assert(to == range_end(offsets, id, data.len() as int) + delta);
            assert(changed.subrange(from, to) =~= record_at(offsets, data, id));
        }
    }
    assert(records_of(moved, changed) =~= records_of(offsets, data).update(pos, record));
}

} // verus!

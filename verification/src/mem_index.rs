//! The offset index: where each record starts inside a data region.

use crate::layout::well_formed;
use crate::persisted::{decode_index, encode_index, encode_offsets, header_len, region_len, FormatError};
use core::ops::Range;
use vstd::bytes::{u32_from_le_bytes, u32_to_le_bytes, u64_from_le_bytes, u64_to_le_bytes};
use vstd::prelude::*;
use vstd::slice::slice_subrange;
use vstd::std_specs::convert::FromSpecImpl;

verus! {

/// Offsets never decrease from one record to the next.
pub open spec fn ordered(offsets: Seq<u32>) -> bool {
    forall|i: int, j: int| 0 <= i <= j < offsets.len() ==> offsets[i] <= offsets[j]
}

/// Where record `id` ends: at the start of the next record, or at `data_end`
/// for the last one.
pub open spec fn range_end(offsets: Seq<u32>, id: int, data_end: int) -> int {
    if id + 1 < offsets.len() {
        offsets[id + 1] as int
    } else {
        data_end
    }
}

/// `delta` fits on every offset from position `from` on.
pub open spec fn shift_fits(offsets: Seq<u32>, from: int, delta: int) -> bool {
    forall|i: int| from <= i < offsets.len() && 0 <= i ==> 0 <= #[trigger] offsets[i] + delta <= u32::MAX
}

/// The offsets with `delta` added to each one from position `from` on.
pub open spec fn shifted(offsets: Seq<u32>, from: int, delta: int) -> Seq<u32> {
    Seq::new(
        offsets.len(),
        |i: int|
            if i < from {
                offsets[i]
            } else {
                (offsets[i] + delta) as u32
            },
    )
}

/// In-memory index of data offsets, one per record, in identifier order.
#[derive(Debug)]
pub struct MemIndex {
    pub(crate) inner: Vec<u32>,
}

impl View for MemIndex {
    type V = Seq<u32>;

    closed spec fn view(&self) -> Seq<u32> {
        self.inner@
    }
}

impl MemIndex {
    /// An index without records.
    #[inline]
    pub fn new() -> (r: Self)
        ensures
            r@ == Seq::<u32>::empty(),
    {
        Self { inner: Vec::new() }
    }

    /// Appends the start offset of a new record and returns the record's
    /// identifier.
    #[inline]
    pub fn insert(&mut self, data_offset: u32) -> (id: usize)
        ensures
            id == old(self)@.len(),
            final(self)@ == old(self)@.push(data_offset),
    {
        let id = self.next_id();
        self.inner.push(data_offset);
        id
    }

    /// The start offset of record `id`, if there is such a record.
    #[inline]
    pub fn get(&self, id: usize) -> (r: Option<u32>)
        ensures
            r == if id < self@.len() {
                Some(self@[id as int])
            } else {
                None
            },
    {
        if id < self.inner.len() {
            Some(self.inner[id])
        } else {
            None
        }
    }

    /// The half-open byte range of record `id` in a data region of `end`
    /// bytes, if there is such a record.
    #[inline]
    pub fn index_item(&self, id: usize, end: usize) -> (r: Option<Range<usize>>)
        ensures
            match r {
                Some(range) => id < self@.len() && range.start == self@[id as int] && range.end
                    == range_end(self@, id as int, end as int),
                None => id >= self@.len(),
            },
    {
        if !self.has_id(id) {
            return None;
        }
        let (start, stop) = self.index_item_unchecked(id, end);
        Some(start..stop)
    }

    /// Same as [`MemIndex::index_item`] for a caller that knows `id` to be in
    /// the index.
    #[inline]
    pub fn index_item_unchecked(&self, id: usize, end: usize) -> (r: (usize, usize))
        requires
            id < self@.len(),
        ensures
            r.0 == self@[id as int],
            r.1 == range_end(self@, id as int, end as int),
    {
        let count = self.inner.len();
        let start = self.inner[id] as usize;
        let next_id = id + 1;
        if next_id < count {
            (start, self.inner[next_id] as usize)
        } else {
            (start, end)
        }
    }

    /// Whether `id` names a record of the index.
    #[inline]
    pub fn has_id(&self, id: usize) -> (r: bool)
        ensures
            r == (id < self@.len()),
    {
        id < self.inner.len()
    }

    /// Adds `delta` to every offset at position `from_pos` or later.
    #[inline]
    pub fn update_range(&mut self, from_pos: usize, delta: isize)
        requires
            shift_fits(old(self)@, from_pos as int, delta as int),
        ensures
            final(self)@ == shifted(old(self)@, from_pos as int, delta as int),
    {
        self.shift(from_pos, delta as i64)
    }

    /// [`MemIndex::update_range`] with a delta of 64 bits on every machine.
    pub(crate) fn shift(&mut self, from_pos: usize, delta: i64)
        requires
            shift_fits(old(self)@, from_pos as int, delta as int),
        ensures
            final(self)@ == shifted(old(self)@, from_pos as int, delta as int),
    {
        let n = self.inner.len();
        let mut i: usize = from_pos;
        while i < n
            invariant
                n == self.inner@.len(),
                n == old(self)@.len(),
                from_pos <= i,
                shift_fits(old(self)@, from_pos as int, delta as int),
                forall|k: int|
                    0 <= k < n ==> self.inner@[k] == if from_pos <= k < i {
                        (old(self)@[k] + delta) as u32
                    } else {
                        old(self)@[k]
                    },
            decreases n - i,
        {
            let moved = self.inner[i] as i64 + delta;
            self.inner[i] = moved as u32;
            i += 1;
        }
    }

    /// The identifier that the next inserted record will get.
    #[inline]
    pub fn next_id(&self) -> (r: usize)
        ensures
            r == self@.len(),
    {
        self.inner.len()
    }

    /// The number of records in the index.
    #[inline]
    pub fn len(&self) -> (r: usize)
        ensures
            r == self@.len(),
    {
        self.inner.len()
    }

    /// The size of the index in its persisted form: an 8-byte prefix and four
    /// bytes per record.
    #[inline]
    pub fn bytes_len(&self) -> (r: usize)
        requires
            header_len(self@.len()) <= usize::MAX,
        ensures
            r == header_len(self@.len()),
    {
        (self.len() * 4) + 8
    }

    /// The offsets, in identifier order: what [`MemIndex::from`] takes.
    #[inline]
    pub fn into_inner(self) -> (r: Vec<u32>)
        ensures
            r@ == self@,
    {
        self.inner
    }

    /// Whether the index fits a data region of `data_len` bytes: no offset is
    /// smaller than the one before it, and none points past the end.
    pub fn fits(&self, data_len: usize) -> (r: bool)
        ensures
            r == well_formed(self@, data_len as int),
    {
        let n = self.inner.len();
        let mut i: usize = 0;
        while i < n
            invariant
                n == self.inner@.len(),
                i <= n,
                forall|a: int, b: int| 0 <= a <= b < i ==> self.inner@[a] <= self.inner@[b],
                forall|a: int| 0 <= a < i ==> self.inner@[a] <= data_len,
            decreases n - i,
        {
            let offset = self.inner[i];
            if offset as usize > data_len || (i > 0 && self.inner[i - 1] > offset) {
                return false;
            }
            assert forall|a: int, b: int| 0 <= a <= b < i + 1 implies self.inner@[a]
                <= self.inner@[b] by {
                if b == i && a < i {
                    assert(self.inner@[a] <= self.inner@[i - 1]);
                }
            }
            i += 1;
        }
        true
    }

    /// The index in its persisted form: the prefix, then the index region.
    pub fn encode(&self) -> (r: Vec<u8>)
        requires
            header_len(self@.len()) <= usize::MAX,
        ensures
            r@ == encode_index(self@),
    {
        let n = self.inner.len();
        let mut out = u64_to_le_bytes(4 * (n as u64));
        let ghost prefix = out@;
        let mut i: usize = 0;
        while i < n
            invariant
                n == self.inner@.len(),
                i <= n,
                out@ == prefix + encode_offsets(self.inner@.take(i as int)),
            decreases n - i,
        {
            let mut word = u32_to_le_bytes(self.inner[i]);
            out.append(&mut word);
            proof {
                let before = self.inner@.take(i as int);
                let after = self.inner@.take(i + 1);
                assert(after.drop_last() =~= before);
                assert(out@ =~= prefix + encode_offsets(after));
            }
            i += 1;
        }
        assert(self.inner@.take(n as int) =~= self.inner@);
        out
    }

    /// Where the index region of a persisted store ends and its data region
    /// starts, read from the store's first bytes. `None` if the prefix is
    /// incomplete or announces more than this machine can address.
    pub fn region_end(prefix: &[u8]) -> (r: Option<usize>)
        ensures
            match r {
                Some(end) => prefix@.len() >= 8 && end == 8 + region_len(prefix@),
                None => prefix@.len() < 8 || 8 + region_len(prefix@) > usize::MAX,
            },
    {
        if prefix.len() < 8 {
            return None;
        }
        let announced = u64_from_le_bytes(slice_subrange(prefix, 0, 8));
        if announced > (usize::MAX - 8) as u64 {
            return None;
        }
        Some(8 + announced as usize)
    }

    /// Reads an index from the head of `bytes`: the prefix, then the index
    /// region. Bytes after the index region are not looked at.
    pub fn decode(bytes: &[u8]) -> (r: Result<MemIndex, FormatError>)
        ensures
            match r {
                Ok(index) => decode_index(bytes@) == Ok::<Seq<u32>, FormatError>(index@),
                Err(e) => decode_index(bytes@) == Err::<Seq<u32>, FormatError>(e),
            },
    {
        if bytes.len() < 8 {
            return Err(FormatError::Truncated);
        }
        let announced = u64_from_le_bytes(slice_subrange(bytes, 0, 8));
        if announced % 4 != 0 {
            return Err(FormatError::Misaligned);
        }
        if announced > (bytes.len() - 8) as u64 {
            return Err(FormatError::Truncated);
        }
        let count = (announced / 4) as usize;
        let ghost region = bytes@.subrange(8, 8 + announced);
        let mut inner: Vec<u32> = Vec::with_capacity(count);
        let mut i: usize = 0;
        while i < count
            invariant
                4 * count == announced,
                8 + announced <= bytes@.len() <= usize::MAX,
                region == bytes@.subrange(8, 8 + announced),
                i <= count,
                inner@.len() == i,
                forall|k: int|
                    0 <= k < i ==> inner@[k] == vstd::bytes::spec_u32_from_le_bytes(
                        region.subrange(4 * k, 4 * k + 4),
                    ),
            decreases count - i,
        {
            let at = 8 + 4 * i;
            let word = slice_subrange(bytes, at, at + 4);
            assert(word@ =~= region.subrange(4 * i, 4 * i + 4));
            inner.push(u32_from_le_bytes(word));
            i += 1;
        }
        assert(inner@ =~= crate::persisted::decode_offsets(region));
        Ok(MemIndex { inner })
    }
}

impl From<Vec<u32>> for MemIndex {
    #[inline]
    fn from(inner: Vec<u32>) -> (r: Self)
        ensures
            r@ == inner@,
    {
        Self { inner }
    }
}

impl FromSpecImpl<Vec<u32>> for MemIndex {
    open spec fn obeys_from_spec() -> bool {
        true
    }

    closed spec fn from_spec(inner: Vec<u32>) -> Self {
        Self { inner }
    }
}

impl Clone for MemIndex {
    #[inline]
    fn clone(&self) -> (r: Self)
        ensures
            r@ == self@,
    {
        Self { inner: self.inner.clone() }
    }
}

impl Default for MemIndex {
    #[inline]
    fn default() -> (r: Self)
        ensures
            r@ == Seq::<u32>::empty(),
    {
        Self::new()
    }
}

} // verus!

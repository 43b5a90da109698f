//! The arena-backed store: one growable data region and its index.

use crate::layout::{
    all_start_in_reach, lemma_append, lemma_range_in_bounds, lemma_splice, records_of, spliced,
    total_len, views, well_formed,
};
use crate::mem_index::{range_end, shifted, MemIndex};
use crate::persisted::{header_len, persisted};
use crate::traits::{IndexedAccess, IndexedAccessMut};
use core::ops::Index;
use vstd::prelude::*;

verus! {

/// An in-memory indexable "file" that allows inserting, getting and replacing
/// variable-length byte records by identifier.
pub struct MemFile {
    pub(crate) index: MemIndex,
    pub(crate) data: Vec<u8>,
}

impl View for MemFile {
    type V = Seq<Seq<u8>>;

    open spec fn view(&self) -> Seq<Seq<u8>> {
        records_of(self.offsets(), self.raw())
    }
}

impl MemFile {
    /// The stored start offset of each record.
    pub closed spec fn offsets(&self) -> Seq<u32> {
        self.index@
    }

    /// The data region: the bytes of all records, one after the other.
    pub closed spec fn raw(&self) -> Seq<u8> {
        self.data@
    }

    /// The change in length when record `pos` is replaced by `len` bytes.
    pub open spec fn delta(&self, pos: int, len: nat) -> int {
        len - self@[pos].len()
    }

    /// The half-open byte range that record `id` takes in the data region.
    pub open spec fn byte_range(&self, id: int) -> (int, int) {
        (self.offsets()[id] as int, range_end(self.offsets(), id, self.raw().len() as int))
    }

    /// A store without records.
    #[inline]
    pub fn new() -> (r: Self)
        ensures
            r.wf(),
            r.offsets() == Seq::<u32>::empty(),
            r.raw() == Seq::<u8>::empty(),
    {
        Self { index: MemIndex::new(), data: Vec::new() }
    }

    /// A store without records, with room for `capacity` bytes of data.
    #[inline]
    pub fn with_capacity(capacity: usize) -> (r: Self)
        ensures
            r.wf(),
            r.offsets() == Seq::<u32>::empty(),
            r.raw() == Seq::<u8>::empty(),
    {
        Self { data: Vec::with_capacity(capacity), index: MemIndex::new() }
    }

    /// A store made of a data region and the start offsets of its records.
    #[inline]
    pub fn new_raw(data: Vec<u8>, index: Vec<u32>) -> (r: Self)
        requires
            well_formed(index@, data@.len() as int),
        ensures
            r.wf(),
            r.offsets() == index@,
            r.raw() == data@,
    {
        Self { data, index: MemIndex::from(index) }
    }

    /// The number of bytes in the data region.
    #[inline]
    pub fn raw_len(&self) -> (n: usize)
        ensures
            n == self.raw().len(),
    {
        self.data.len()
    }

    /// The data region and the start offsets that the store is made of: what
    /// [`MemFile::new_raw`] takes.
    #[inline]
    pub fn into_raw(self) -> (r: (Vec<u8>, Vec<u32>))
        ensures
            r.0@ == self.raw(),
            r.1@ == self.offsets(),
    {
        (self.data, self.index.into_inner())
    }

    /// Appends each of `records`, in order.
    pub fn extend(&mut self, records: &[&[u8]])
        requires
            old(self).wf(),
            all_start_in_reach(old(self).raw().len() as int, views(records@)),
        ensures
            final(self).wf(),
            final(self)@ == old(self)@ + views(records@),
    {
        let n = records.len();
        let mut i: usize = 0;
        while i < n
            invariant
                n == records@.len(),
                i <= n,
                self.wf(),
                all_start_in_reach(old(self).raw().len() as int, views(records@)),
                self.raw().len() == old(self).raw().len() + total_len(
                    views(records@).take(i as int),
                ),
                self@ == old(self)@ + views(records@).take(i as int),
            decreases n - i,
        {
            proof {
                let before = views(records@).take(i as int);
                let after = views(records@).take(i + 1);
                assert(after.drop_last() =~= before);
                assert(after.last() == records@[i as int]@);
            }
            self.insert(records[i]);
            assert(self@ =~= old(self)@ + views(records@).take(i + 1));
            i += 1;
        }
        assert(views(records@).take(n as int) =~= views(records@));
    }

    /// A store that holds `records`, in order.
    pub fn from(records: &[&[u8]]) -> (r: Self)
        requires
            all_start_in_reach(0, views(records@)),
        ensures
            r.wf(),
            r@ == views(records@),
    {
        let mut new = MemFile::new();
        new.extend(records);
        assert(new@ =~= views(records@));
        new
    }

    /// The store in its persisted form: the prefix, the index region and the
    /// data region.
    pub fn to_bytes(&self) -> (r: Vec<u8>)
        requires
            header_len(self.offsets().len()) <= usize::MAX,
        ensures
            r@ == persisted(self.offsets(), self.raw()),
    {
        let mut out = self.index.encode();
        out.extend_from_slice(self.data.as_slice());
        assert(out@ =~= persisted(self.offsets(), self.raw()));
        out
    }
}

impl Index<usize> for MemFile {
    type Output = [u8];

    /// The bytes of record `index`, which has to exist.
    #[inline]
    fn index(&self, index: usize) -> (r: &[u8])
        ensures
            r@ == self@[index as int],
    {
        self.get_unchecked(index)
    }
}

impl vstd::std_specs::core::IndexSpecImpl<usize> for MemFile {
    open spec fn index_req(&self, index: &usize) -> bool {
        self.wf() && *index < self@.len()
    }
}

impl Default for MemFile {
    #[inline]
    fn default() -> (r: Self)
        ensures
            r.wf(),
            r.offsets() == Seq::<u32>::empty(),
            r.raw() == Seq::<u8>::empty(),
    {
        Self::new()
    }
}

impl Clone for MemFile {
    #[inline]
    fn clone(&self) -> (r: Self)
        ensures
            r.offsets() == self.offsets(),
            r.raw() == self.raw(),
    {
        Self { index: self.index.clone(), data: self.data.clone() }
    }
}

impl IndexedAccess for MemFile {
    open spec fn wf(&self) -> bool {
        well_formed(self.offsets(), self.raw().len() as int)
    }

    #[inline]
    fn get(&self, pos: usize) -> (r: Option<&[u8]>) {
        let range = self.index.index_item(pos, self.raw_len())?;
        proof {
            lemma_range_in_bounds(self.offsets(), self.raw().len() as int, pos as int);
        }
        Some(&self.data[range])
    }

    #[inline]
    fn get_unchecked(&self, pos: usize) -> (r: &[u8]) {
        let (start, end) = self.index.index_item_unchecked(pos, self.raw_len());
        proof {
            lemma_range_in_bounds(self.offsets(), self.raw().len() as int, pos as int);
        }
        &self.data[start..end]
    }

    #[inline]
    fn len(&self) -> (n: usize) {
        self.index.len()
    }
}

impl IndexedAccessMut for MemFile {
    /// The start of the new record has to fit in an offset of 32 bits.
    open spec fn can_insert(&self, data: Seq<u8>) -> bool {
        self.raw().len() <= u32::MAX
    }

    /// The start of every later record has to fit in an offset of 32 bits once
    /// it has moved by the change in length.
    open spec fn can_replace(&self, pos: int, data: Seq<u8>) -> bool {
        pos + 1 < self.offsets().len() ==> self.offsets().last() + self.delta(pos, data.len())
            <= u32::MAX
    }

    #[inline]
    fn has_room(&self, data: &[u8]) -> (ok: bool) {
        self.data.len() as u64 <= u32::MAX as u64
    }

    fn has_room_at(&self, pos: usize, data: &[u8]) -> (ok: bool) {
        let count = self.index.len();
        if pos >= count || pos + 1 >= count {
            return true;
        }
        let (start, end) = self.index.index_item_unchecked(pos, self.raw_len());
        let last = self.index.index_item_unchecked(count - 1, self.raw_len()).0;
        proof {
            lemma_range_in_bounds(self.offsets(), self.raw().len() as int, pos as int);
            assert(self@[pos as int].len() == end - start);
        }
        data.len() as u64 <= (u32::MAX as usize - last) as u64 + (end - start) as u64
    }

    #[inline]
    fn insert(&mut self, data: &[u8]) -> (id: usize)
        ensures
            final(self).offsets() == old(self).offsets().push(old(self).raw().len() as u32),
            final(self).raw() == old(self).raw() + data@,
    {
        proof {
            lemma_append(self.offsets(), self.raw(), data@);
        }
        let id = self.index.insert(self.data.len() as u32);
        self.data.extend_from_slice(data);
        assert(self.data@ =~= old(self).raw() + data@);
        id
    }

    #[inline]
    fn replace(&mut self, pos: usize, data: &[u8]) -> (r: Option<()>)
        ensures
            r is Some ==> {
                let start = old(self).offsets()[pos as int] as int;
                let end = range_end(old(self).offsets(), pos as int, old(self).raw().len() as int);
                &&& final(self).raw() == spliced(old(self).raw(), start, end, data@)
                &&& final(self).offsets() == shifted(
                    old(self).offsets(),
                    pos + 1,
                    old(self).delta(pos as int, data@.len()),
                )
            },
            r is None ==> final(self).offsets() == old(self).offsets() && final(self).raw() == old(self).raw(),
            // A record of the same length moves nothing: every other record
            // keeps its byte range.
            r is Some && data@.len() == old(self)@[pos as int].len() ==> forall|id: int|
                0 <= id < old(self)@.len() ==> final(self).byte_range(id) == old(self).byte_range(
                    id,
                ),
            // A record of another length moves the start of each later record
            // by the change in length, and of no other.
            r is Some ==> forall|id: int|
                0 <= id < old(self)@.len() ==> #[trigger] final(self).offsets()[id] == if id
                    <= pos {
                    old(self).offsets()[id] as int
                } else {
                    old(self).offsets()[id] + old(self).delta(pos as int, data@.len())
                },
    {
        let range = self.index.index_item(pos, self.raw_len())?;
        let count = self.index.len();
        proof {
            lemma_range_in_bounds(self.offsets(), self.raw().len() as int, pos as int);
            lemma_splice(self.offsets(), self.raw(), pos as int, data@);
            assert(self@[pos as int].len() == range.end - range.start);
        }
        let mut tail = self.data.split_off(range.end);
        self.data.truncate(range.start);
        self.data.extend_from_slice(data);
        self.data.append(&mut tail);
        assert(self.data@ =~= spliced(old(self).raw(), range.start as int, range.end as int, data@));
        if pos + 1 < count {
            let diff = data.len() as i64 - (range.end - range.start) as i64;
            self.index.shift(pos + 1, diff);
        } else {
            assert(self.index@ =~= shifted(
                old(self).offsets(),
                pos + 1,
                old(self).delta(pos as int, data@.len()),
            ));
        }
        Some(())
    }
}

} // verus!

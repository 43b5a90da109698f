//! The reference store: one owned buffer per record.

use crate::traits::{IndexedAccess, IndexedAccessMut};
use core::ops::Index;
use vstd::prelude::*;
use vstd::slice::slice_to_vec;

verus! {

/// A vector-based in-memory store. It keeps each record in a buffer of its
/// own, which is simple and wasteful: it is meant for checking other stores
/// against it.
pub struct VecFile {
    data: Vec<Vec<u8>>,
}

impl View for VecFile {
    type V = Seq<Seq<u8>>;

    closed spec fn view(&self) -> Seq<Seq<u8>> {
        Seq::new(self.data@.len(), |id: int| self.data@[id]@)
    }
}

impl VecFile {
    /// A store without records.
    #[inline]
    pub fn new() -> (r: Self)
        ensures
            r@ == Seq::<Seq<u8>>::empty(),
    {
        Self { data: Vec::new() }
    }

    /// A store without records, with room for `capacity` of them.
    #[inline]
    pub fn with_capacity(capacity: usize) -> (r: Self)
        ensures
            r@ == Seq::<Seq<u8>>::empty(),
    {
        Self { data: Vec::with_capacity(capacity) }
    }

    /// A store that holds `records`, in order.
    #[inline]
    pub fn from_records(records: Vec<Vec<u8>>) -> (r: Self)
        ensures
            r@.len() == records@.len(),
            forall|id: int| 0 <= id < records@.len() ==> r@[id] == records@[id]@,
    {
        Self { data: records }
    }

    /// The records of the store, in order: what [`VecFile::from_records`]
    /// takes.
    #[inline]
    pub fn into_records(self) -> (r: Vec<Vec<u8>>)
        ensures
            r@.len() == self@.len(),
            forall|id: int| 0 <= id < r@.len() ==> r@[id]@ == self@[id],
    {
        self.data
    }
}

impl Index<usize> for VecFile {
    type Output = [u8];

    /// The bytes of record `index`, which has to exist.
    #[inline]
    fn index(&self, index: usize) -> (r: &[u8])
        ensures
            r@ == self@[index as int],
    {
        self.get_unchecked(index)
    }
}

impl vstd::std_specs::core::IndexSpecImpl<usize> for VecFile {
    open spec fn index_req(&self, index: &usize) -> bool {
        *index < self@.len()
    }
}

impl Clone for VecFile {
    #[inline]
    fn clone(&self) -> (r: Self)
        ensures
            r@ == self@,
    {
        let mut data: Vec<Vec<u8>> = Vec::with_capacity(self.data.len());
        let mut i: usize = 0;
        while i < self.data.len()
            invariant
                i <= self.data@.len(),
                data@.len() == i,
                forall|k: int| 0 <= k < i ==> data@[k]@ == self.data@[k]@,
            decreases self.data@.len() - i,
        {
            data.push(self.data[i].clone());
            i += 1;
        }
        let copy = Self { data };
        assert(copy@ =~= self@);
        copy
    }
}

impl IndexedAccess for VecFile {
    open spec fn wf(&self) -> bool {
        true
    }

    #[inline]
    fn get(&self, pos: usize) -> (r: Option<&[u8]>) {
        if pos < self.data.len() {
            Some(self.data[pos].as_slice())
        } else {
            None
        }
    }

    #[inline]
    fn get_unchecked(&self, pos: usize) -> (r: &[u8]) {
        self.data[pos].as_slice()
    }

    #[inline]
    fn len(&self) -> (n: usize) {
        self.data.len()
    }
}

impl IndexedAccessMut for VecFile {
    open spec fn can_insert(&self, data: Seq<u8>) -> bool {
        true
    }

    open spec fn can_replace(&self, pos: int, data: Seq<u8>) -> bool {
        true
    }

    #[inline]
    fn has_room(&self, data: &[u8]) -> (ok: bool) {
        true
    }

    #[inline]
    fn has_room_at(&self, pos: usize, data: &[u8]) -> (ok: bool) {
        true
    }

    #[inline]
    fn insert(&mut self, data: &[u8]) -> (id: usize) {
        let id = self.data.len();
        self.data.push(slice_to_vec(data));
        assert(self@ =~= old(self)@.push(data@));
        id
    }

    #[inline]
    fn replace(&mut self, pos: usize, data: &[u8]) -> (r: Option<()>) {
        if pos >= self.data.len() {
            return None;
        }
        self.data[pos] = slice_to_vec(data);
        assert(self@ =~= old(self)@.update(pos as int, data@));
        Some(())
    }
}

} // verus!

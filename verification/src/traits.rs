//! The read and write contracts that every store meets.

use crate::codec::{CodecError, TypedValue};
use crate::iter::IndexedAccessIter;
use crate::typed_iter::TypedIndexedAccessIter;
use vstd::prelude::*;

verus! {

/// Read access to a store of byte records.
///
/// The view of a store is the sequence of its records, in identifier order:
/// record `id` is `self@[id]`.
pub trait IndexedAccess: View<V = Seq<Seq<u8>>> {
    /// The invariant of the store. Every constructor establishes it and every
    /// operation keeps it.
    spec fn wf(&self) -> bool;

    /// The bytes of record `pos`, or `None` if there is no such record.
    fn get(&self, pos: usize) -> (r: Option<&[u8]>)
        requires
            self.wf(),
        ensures
            match r {
                Some(bytes) => pos < self@.len() && bytes@ == self@[pos as int],
                None => pos >= self@.len(),
            },
    ;

    /// The bytes of record `pos`, for a caller that knows the record to exist.
    fn get_unchecked(&self, pos: usize) -> (r: &[u8])
        requires
            self.wf(),
            pos < self@.len(),
        ensures
            r@ == self@[pos as int],
    ;

    /// An iterator over all records of the store.
    #[inline]
    fn iter(&self) -> (it: IndexedAccessIter<'_, Self>) where Self: Sized
        requires
            self.wf(),
        ensures
            it.store() == self,
            it.front() == 0,
            it.back() == self@.len(),
    {
        IndexedAccessIter::between(self, 0, self.len())
    }

    /// The number of records in the store.
    fn len(&self) -> (n: usize)
        requires
            self.wf(),
        ensures
            n == self@.len(),
    ;

    /// Whether the store holds no record.
    #[inline]
    fn is_empty(&self) -> (b: bool)
        requires
            self.wf(),
        ensures
            b == (self@.len() == 0),
    {
        self.len() == 0
    }
}

/// Write access to a store of byte records.
pub trait IndexedAccessMut: IndexedAccess {
    /// Whether the store has room for `data` as one more record.
    spec fn can_insert(&self, data: Seq<u8>) -> bool;

    /// Whether the store has room for `data` in place of record `pos`.
    spec fn can_replace(&self, pos: int, data: Seq<u8>) -> bool;

    /// Tests whether [`IndexedAccessMut::insert`] may be called with `data`.
    fn has_room(&self, data: &[u8]) -> (ok: bool)
        requires
            self.wf(),
        ensures
            ok == self.can_insert(data@),
    ;

    /// Tests whether [`IndexedAccessMut::replace`] may be called with `data`
    /// for record `pos`. Where there is no such record it may be.
    fn has_room_at(&self, pos: usize, data: &[u8]) -> (ok: bool)
        requires
            self.wf(),
        ensures
            ok == (pos < self@.len() ==> self.can_replace(pos as int, data@)),
    ;

    /// Appends a record and returns its identifier, which is the number of
    /// records that the store held before.
    fn insert(&mut self, data: &[u8]) -> (id: usize)
        requires
            old(self).wf(),
            old(self).can_insert(data@),
        ensures
            final(self).wf(),
            id == old(self)@.len(),
            final(self)@ == old(self)@.push(data@),
    ;

    /// Replaces record `pos` by `data`. Returns `None`, and changes nothing,
    /// if there is no such record.
    fn replace(&mut self, pos: usize, data: &[u8]) -> (r: Option<()>)
        requires
            old(self).wf(),
            pos < old(self)@.len() ==> old(self).can_replace(pos as int, data@),
        ensures
            final(self).wf(),
            match r {
                Some(_) => pos < old(self)@.len() && final(self)@ == old(self)@.update(
                    pos as int,
                    data@,
                ),
                None => pos >= old(self)@.len() && final(self)@ == old(self)@,
            },
    ;
}

/// The records of a store that held `start` and then took `records` through
/// [`IndexedAccessMut::insert`], one after the other.
pub open spec fn after_inserts(start: Seq<Seq<u8>>, records: Seq<Seq<u8>>) -> Seq<Seq<u8>>
    decreases records.len(),
{
    if records.len() == 0 {
        start
    } else {
        after_inserts(start, records.drop_last()).push(records.last())
    }
}

/// Round trip: a store that was empty and took `records` one after the other
/// holds as many records as it took, and under each identifier the bytes that
/// were inserted under it. A store that held records before keeps them, and
/// the new ones follow.
pub proof fn lemma_after_inserts(start: Seq<Seq<u8>>, records: Seq<Seq<u8>>)
    ensures
        after_inserts(start, records) == start + records,
        after_inserts(Seq::empty(), records) == records,
        after_inserts(Seq::empty(), records).len() == records.len(),
        forall|id: int|
            0 <= id < records.len() ==> after_inserts(Seq::empty(), records)[id] == records[id],
    decreases records.len(),
{
    if records.len() > 0 {
        lemma_after_inserts(start, records.drop_last());
        lemma_after_inserts(Seq::empty(), records.drop_last());
        assert(records.drop_last().push(records.last()) =~= records);
    }
    assert(after_inserts(start, records) =~= start + records);
    assert(Seq::<Seq<u8>>::empty() + records =~= records);
}

/// Typed write access: values go through the codec and are stored as records.
/// Every store with write access has it.
pub trait TypedIndexedAccessMut: IndexedAccessMut {
    /// Encodes `item` and appends it as a new record. If the codec fails, the
    /// store stays as it was.
    #[inline]
    fn insert_typed<T: TypedValue>(&mut self, item: &T) -> (r: Result<usize, CodecError>)
        requires
            old(self).wf(),
            old(self).can_insert(item.encoding()),
        ensures
            final(self).wf(),
            match r {
                Ok(id) => id == old(self)@.len() && final(self)@ == old(self)@.push(
                    item.encoding(),
                ),
                Err(e) => e is Encode && final(self)@ == old(self)@,
            },
    {
        let encoded = item.encode();
        self.insert_encoded(encoded)
    }

    /// Encodes `new` and puts it in place of record `pos`. Returns whether
    /// there was such a record. If the codec fails, the store stays as it
    /// was.
    fn replace_typed<T: TypedValue>(&mut self, pos: usize, new: &T) -> (r: Result<
        bool,
        CodecError,
    >)
        requires
            old(self).wf(),
            pos < old(self)@.len() ==> old(self).can_replace(pos as int, new.encoding()),
        ensures
            final(self).wf(),
            match r {
                Ok(true) => pos < old(self)@.len() && final(self)@ == old(self)@.update(
                    pos as int,
                    new.encoding(),
                ),
                Ok(false) => pos >= old(self)@.len() && final(self)@ == old(self)@,
                Err(e) => e is Encode && final(self)@ == old(self)@,
            },
    {
        let encoded = new.encode();
        self.replace_encoded(pos, encoded)
    }

    /// Appends what the codec made of a value: the record if there is one,
    /// else nothing, and the codec's error is handed on.
    fn insert_encoded(&mut self, encoded: Result<Vec<u8>, CodecError>) -> (r: Result<
        usize,
        CodecError,
    >)
        requires
            old(self).wf(),
            encoded matches Ok(record) ==> old(self).can_insert(record@),
        ensures
            final(self).wf(),
            match encoded {
                Ok(record) => {
                    &&& r matches Ok(id) && id == old(self)@.len()
                    &&& final(self)@ == old(self)@.push(record@)
                },
                Err(e) => r == Err::<usize, CodecError>(e) && final(self)@ == old(self)@,
            },
    {
        match encoded {
            Ok(record) => Ok(self.insert(record.as_slice())),
            Err(e) => Err(e),
        }
    }

    /// Puts what the codec made of a value in place of record `pos`: the
    /// record if there is one, else nothing, and the codec's error is handed
    /// on.
    fn replace_encoded(&mut self, pos: usize, encoded: Result<Vec<u8>, CodecError>) -> (r: Result<
        bool,
        CodecError,
    >)
        requires
            old(self).wf(),
            encoded matches Ok(record) ==> pos < old(self)@.len() ==> old(self).can_replace(
                pos as int,
                record@,
            ),
        ensures
            final(self).wf(),
            match encoded {
                Ok(record) => if pos < old(self)@.len() {
                    r == Ok::<bool, CodecError>(true) && final(self)@ == old(self)@.update(
                        pos as int,
                        record@,
                    )
                } else {
                    r == Ok::<bool, CodecError>(false) && final(self)@ == old(self)@
                },
                Err(e) => r == Err::<bool, CodecError>(e) && final(self)@ == old(self)@,
            },
    {
        match encoded {
            Ok(record) => Ok(self.replace(pos, record.as_slice()).is_some()),
            Err(e) => Err(e),
        }
    }
}

impl<U: IndexedAccessMut> TypedIndexedAccessMut for U {

}

/// Typed read access: records go through the codec and come out as values.
/// Every store has it.
pub trait TypedIndexedAccess: IndexedAccess {
    /// The value that record `id` holds; `Ok(None)` if there is no such
    /// record, and an error if the record holds no value of this type.
    #[inline]
    fn get_typed<T: TypedValue>(&self, id: usize) -> (r: Result<Option<T>, CodecError>)
        requires
            self.wf(),
        ensures
            match r {
                Ok(Some(value)) => id < self@.len() && T::decoding(self@[id as int]) == Some(
                    value,
                ),
                Ok(None) => id >= self@.len(),
                Err(e) => id < self@.len() && T::decoding(self@[id as int]) is None && e
                    is Decode,
            },
    {
        match self.get(id) {
            None => Ok(None),
            Some(record) => {
                let item = T::decode(record)?;
                Ok(Some(item))
            },
        }
    }

    /// An iterator over the values that the records of the store hold.
    #[inline]
    fn iter_typed<T: TypedValue>(&self) -> (it: TypedIndexedAccessIter<'_, Self, T>) where
        Self: Sized,

        requires
            self.wf(),
        ensures
            it.store() == self,
            it.front() == 0,
            it.back() == self@.len(),
    {
        TypedIndexedAccessIter::between(self, 0, self.len())
    }
}

impl<U: IndexedAccess> TypedIndexedAccess for U {

}

} // verus!

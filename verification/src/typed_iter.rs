//! Walking the values that the records of a store hold.

use crate::codec::{CodecError, TypedValue};
use crate::traits::{IndexedAccess, TypedIndexedAccess};
use core::marker::PhantomData;
use vstd::prelude::*;

verus! {

/// Iterator over the values in a store.
///
/// It moves as [`crate::iter::IndexedAccessIter`] does and decodes each
/// record that it visits. A record that does not decode ends the walk: what
/// comes after it may start anywhere.
pub struct TypedIndexedAccessIter<'a, I, T> {
    file: &'a I,
    start: usize,
    end: usize,
    p: PhantomData<T>,
}

impl<'a, I, T> TypedIndexedAccessIter<'a, I, T> {
    /// The store that is walked.
    pub closed spec fn store(&self) -> &'a I {
        self.file
    }

    /// The identifier that `next` hands out next.
    pub closed spec fn front(&self) -> int {
        self.start as int
    }

    /// One more than the identifier that `next_back` hands out next.
    pub closed spec fn back(&self) -> int {
        self.end as int
    }

    /// An iterator over the records of `file` from `start` up to `end`.
    #[inline]
    pub(crate) fn between(file: &'a I, start: usize, end: usize) -> (it: Self)
        ensures
            it.store() == file,
            it.front() == start,
            it.back() == end,
    {
        Self { file, start, end, p: PhantomData }
    }
}

impl<'a, I, T> TypedIndexedAccessIter<'a, I, T> where I: IndexedAccess, T: TypedValue {
    /// The cursors lie inside the store and have not crossed.
    pub open spec fn wf(&self) -> bool {
        &&& self.store().wf()
        &&& 0 <= self.front() <= self.back() <= self.store()@.len()
    }

    /// The records still to visit, in identifier order.
    pub open spec fn remaining(&self) -> Seq<Seq<u8>> {
        self.store()@.subrange(self.front(), self.back())
    }

    /// An iterator over the values in all records of `file`.
    #[inline]
    pub fn new(file: &'a I) -> (it: Self)
        requires
            file.wf(),
        ensures
            it.wf(),
            it.store() == file,
            it.front() == 0,
            it.back() == file@.len(),
            it.remaining() == file@,
    {
        let it = Self::between(file, 0, file.len());
        assert(it.remaining() =~= file@);
        it
    }

    /// The number of records in the store that is walked, visited or not.
    #[inline]
    pub fn len(&self) -> (n: usize)
        requires
            self.wf(),
        ensures
            n == self.store()@.len(),
    {
        self.file.len()
    }

    /// Takes the first of the remaining records and decodes it. If it does
    /// not decode, the error is handed out and nothing remains to visit.
    pub fn try_next(&mut self) -> (r: Option<Result<T, CodecError>>)
        requires
            old(self).wf(),
        ensures
            final(self).wf(),
            final(self).store() == old(self).store(),
            match r {
                Some(Ok(value)) => {
                    &&& old(self).remaining().len() > 0
                    &&& T::decoding(old(self).remaining().first()) == Some(value)
                    &&& final(self).remaining() == old(self).remaining().drop_first()
                    &&& final(self).front() == old(self).front() + 1
                    &&& final(self).back() == old(self).back()
                },
                Some(Err(e)) => {
                    &&& old(self).remaining().len() > 0
                    &&& T::decoding(old(self).remaining().first()) is None
                    &&& e is Decode
                    &&& final(self).remaining().len() == 0
                },
                None => {
                    &&& old(self).remaining().len() == 0
                    &&& final(self).front() == old(self).front()
                    &&& final(self).back() == old(self).back()
                },
            },
    {
        if self.start >= self.end {
            return None;
        }
        match self.file.get_typed::<T>(self.start) {
            Ok(Some(value)) => {
                self.start += 1;
                assert(self.remaining() =~= old(self).remaining().drop_first());
                Some(Ok(value))
            },
            Ok(None) => None,
            Err(e) => {
                self.start = self.end;
                Some(Err(e))
            },
        }
    }

    /// Takes the last of the remaining records and decodes it. If it does not
    /// decode, the error is handed out and nothing remains to visit.
    pub fn try_next_back(&mut self) -> (r: Option<Result<T, CodecError>>)
        requires
            old(self).wf(),
        ensures
            final(self).wf(),
            final(self).store() == old(self).store(),
            match r {
                Some(Ok(value)) => {
                    &&& old(self).remaining().len() > 0
                    &&& T::decoding(old(self).remaining().last()) == Some(value)
                    &&& final(self).remaining() == old(self).remaining().drop_last()
                    &&& final(self).front() == old(self).front()
                    &&& final(self).back() == old(self).back() - 1
                },
                Some(Err(e)) => {
                    &&& old(self).remaining().len() > 0
                    &&& T::decoding(old(self).remaining().last()) is None
                    &&& e is Decode
                    &&& final(self).remaining().len() == 0
                },
                None => {
                    &&& old(self).remaining().len() == 0
                    &&& final(self).front() == old(self).front()
                    &&& final(self).back() == old(self).back()
                },
            },
    {
        if self.start >= self.end {
            return None;
        }
        match self.file.get_typed::<T>(self.end - 1) {
            Ok(Some(value)) => {
                self.end -= 1;
                assert(self.remaining() =~= old(self).remaining().drop_last());
                Some(Ok(value))
            },
            Ok(None) => None,
            Err(e) => {
                self.end = self.start;
                Some(Err(e))
            },
        }
    }

    /// Takes the first of the remaining records and decodes it, for a caller
    /// that knows the record to hold a value.
    #[inline]
    pub fn next(&mut self) -> (r: Option<T>)
        requires
            old(self).wf(),
            old(self).remaining().len() > 0 ==> T::decoding(old(self).remaining().first())
                is Some,
        ensures
            final(self).wf(),
            final(self).store() == old(self).store(),
            final(self).back() == old(self).back(),
            match r {
                Some(value) => {
                    &&& old(self).remaining().len() > 0
                    &&& T::decoding(old(self).remaining().first()) == Some(value)
                    &&& final(self).remaining() == old(self).remaining().drop_first()
                    &&& final(self).front() == old(self).front() + 1
                },
                None => old(self).remaining().len() == 0 && final(self).front() == old(self).front(),
            },
    {
        match self.try_next() {
            Some(Ok(value)) => Some(value),
            _ => None,
        }
    }

    /// Takes the last of the remaining records and decodes it, for a caller
    /// that knows the record to hold a value.
    #[inline]
    pub fn next_back(&mut self) -> (r: Option<T>)
        requires
            old(self).wf(),
            old(self).remaining().len() > 0 ==> T::decoding(old(self).remaining().last())
                is Some,
        ensures
            final(self).wf(),
            final(self).store() == old(self).store(),
            final(self).front() == old(self).front(),
            match r {
                Some(value) => {
                    &&& old(self).remaining().len() > 0
                    &&& T::decoding(old(self).remaining().last()) == Some(value)
                    &&& final(self).remaining() == old(self).remaining().drop_last()
                    &&& final(self).back() == old(self).back() - 1
                },
                None => old(self).remaining().len() == 0 && final(self).back() == old(self).back(),
            },
    {
        match self.try_next_back() {
            Some(Ok(value)) => Some(value),
            _ => None,
        }
    }
}

} // verus!

//! Walking the records of a store from either end.

use crate::traits::IndexedAccess;
use vstd::prelude::*;

verus! {

/// Iterator over the records of a store.
///
/// It keeps two cursors, one at each end of what is left to visit.
/// [`IndexedAccessIter::next`] takes the first of the remaining records,
/// [`IndexedAccessIter::next_back`] the last; the two may be called in any
/// order and never hand out a record twice.
pub struct IndexedAccessIter<'a, I> {
    file: &'a I,
    start: usize,
    end: usize,
}

impl<'a, I> IndexedAccessIter<'a, I> {
    /// The store that is walked.
    pub closed spec fn store(&self) -> &'a I {
        self.file
    }

    /// The identifier that `next` hands out next.
    pub closed spec fn front(&self) -> int {
        self.start as int
    }

    /// One more than the identifier that `next_back` hands out next.
    pub closed spec fn back(&self) -> int {
        self.end as int
    }

    /// An iterator over the records of `file` from `start` up to `end`.
    #[inline]
    pub(crate) fn between(file: &'a I, start: usize, end: usize) -> (it: Self)
        ensures
            it.store() == file,
            it.front() == start,
            it.back() == end,
    {
        Self { file, start, end }
    }
}

impl<'a, I> IndexedAccessIter<'a, I> where I: IndexedAccess {
    /// The cursors lie inside the store and have not crossed.
    pub open spec fn wf(&self) -> bool {
        &&& self.store().wf()
        &&& 0 <= self.front() <= self.back() <= self.store()@.len()
    }

    /// The records still to visit, in identifier order.
    pub open spec fn remaining(&self) -> Seq<Seq<u8>> {
        self.store()@.subrange(self.front(), self.back())
    }

    /// An iterator over all records of `file`.
    #[inline]
    pub fn new(file: &'a I) -> (it: Self)
        requires
            file.wf(),
        ensures
            it.wf(),
            it.store() == file,
            it.front() == 0,
            it.back() == file@.len(),
            it.remaining() == file@,
    {
        let it = Self::between(file, 0, file.len());
        assert(it.remaining() =~= file@);
        it
    }

    /// The number of records in the store that is walked, visited or not.
    #[inline]
    pub fn len(&self) -> (n: usize)
        requires
            self.wf(),
        ensures
            n == self.store()@.len(),
    {
        self.file.len()
    }

    /// Takes the first of the remaining records.
    #[inline]
    pub fn next(&mut self) -> (r: Option<&'a [u8]>)
        requires
            old(self).wf(),
        ensures
            final(self).wf(),
            final(self).store() == old(self).store(),
            final(self).back() == old(self).back(),
            match r {
                Some(bytes) => {
                    &&& old(self).remaining().len() > 0
                    &&& bytes@ == old(self).remaining().first()
                    &&& final(self).front() == old(self).front() + 1
                    &&& final(self).remaining() == old(self).remaining().drop_first()
                },
                None => old(self).remaining().len() == 0 && final(self).front() == old(self).front(),
            },
    {
        if self.start >= self.end {
            return None;
        }
        let content = self.file.get_unchecked(self.start);
        self.start += 1;
        assert(self.remaining() =~= old(self).remaining().drop_first());
        Some(content)
    }

    /// Takes the last of the remaining records.
    #[inline]
    pub fn next_back(&mut self) -> (r: Option<&'a [u8]>)
        requires
            old(self).wf(),
        ensures
            final(self).wf(),
            final(self).store() == old(self).store(),
            final(self).front() == old(self).front(),
            match r {
                Some(bytes) => {
                    &&& old(self).remaining().len() > 0
                    &&& bytes@ == old(self).remaining().last()
                    &&& final(self).back() == old(self).back() - 1
                    &&& final(self).remaining() == old(self).remaining().drop_last()
                },
                None => old(self).remaining().len() == 0 && final(self).back() == old(self).back(),
            },
    {
        if self.start >= self.end {
            return None;
        }
        let item = self.file.get_unchecked(self.end - 1);
        self.end -= 1;
        assert(self.remaining() =~= old(self).remaining().drop_last());
        Some(item)
    }

    /// Visits the remaining records from the front and returns them in that
    /// order: the order of insertion.
    pub fn collect(self) -> (r: Vec<&'a [u8]>)
        requires
            self.wf(),
        ensures
            r@.len() == self.remaining().len(),
            forall|i: int| 0 <= i < r@.len() ==> (#[trigger] r@[i])@ == self.remaining()[i],
    {
        let ghost all = self.remaining();
        let mut rest = self;
        let mut out: Vec<&'a [u8]> = Vec::new();
        loop
            invariant
                rest.wf(),
                out@.len() + rest.remaining().len() == all.len(),
                rest.remaining() == all.skip(out@.len() as int),
                forall|i: int| 0 <= i < out@.len() ==> (#[trigger] out@[i])@ == all[i],
            ensures
                out@.len() == all.len(),
                forall|i: int| 0 <= i < out@.len() ==> (#[trigger] out@[i])@ == all[i],
            decreases rest.remaining().len(),
        {
            match rest.next() {
                Some(bytes) => {
                    out.push(bytes);
                    assert(rest.remaining() =~= all.skip(out@.len() as int));
                },
                None => {
                    break ;
                },
            }
        }
        out
    }

    /// Visits the remaining records from the back and returns them in that
    /// order: the reverse of the order of insertion.
    pub fn collect_rev(self) -> (r: Vec<&'a [u8]>)
        requires
            self.wf(),
        ensures
            r@.len() == self.remaining().len(),
            forall|i: int|
                0 <= i < r@.len() ==> (#[trigger] r@[i])@ == self.remaining()[r@.len() - 1 - i],
    {
        let ghost all = self.remaining();
        let mut rest = self;
        let mut out: Vec<&'a [u8]> = Vec::new();
        loop
            invariant
                rest.wf(),
                out@.len() + rest.remaining().len() == all.len(),
                rest.remaining() == all.take(all.len() - out@.len()),
                forall|i: int|
                    0 <= i < out@.len() ==> (#[trigger] out@[i])@ == all[all.len() - 1 - i],
            ensures
                out@.len() == all.len(),
                forall|i: int|
                    0 <= i < out@.len() ==> (#[trigger] out@[i])@ == all[all.len() - 1 - i],
            decreases rest.remaining().len(),
        {
            match rest.next_back() {
                Some(bytes) => {
                    out.push(bytes);
                    assert(rest.remaining() =~= all.take(all.len() - out@.len()));
                },
                None => {
                    break ;
                },
            }
        }
        out
    }
}

} // verus!

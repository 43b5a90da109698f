//! The mapped store: a persisted store read in place through a memory mapping.

use crate::layout::{lemma_range_in_bounds, records_of, well_formed};
use crate::mem_index::MemIndex;
use crate::persisted::{
    data_region, decode_index, header_len, lemma_persisted_records, persisted, FormatError,
};
use crate::traits::IndexedAccess;
use vstd::prelude::*;

verus! {

/// A read-only private memory mapping of a file.
///
/// The mapping is made by whoever opens the file; the store only reads it.
/// `mmarinus::Map` is bounded by traits that are private to its crate, so the
/// verifier cannot be told of the type itself: it is kept in this struct, of
/// which the verifier sees nothing but the name.
#[verifier::external_body]
pub struct Mapping {
    pub map: mmarinus::Map<mmarinus::perms::Read, mmarinus::Private>,
}

/// The bytes of a mapping: `mmarinus::Map` dereferences to them. A read-only
/// private mapping holds the same bytes for as long as it lives, provided that
/// nobody rewrites the mapped file in the meantime.
pub uninterp spec fn mapped_bytes(mapping: &Mapping) -> Seq<u8>;

impl Mapping {
    /// The mapped bytes, borrowed from the mapping and not copied. Calls
    /// `Deref::deref` of `mmarinus::Map`, which hands out the whole mapped
    /// range as a slice.
    #[verifier::external_body]
    pub(crate) fn as_bytes(&self) -> (r: &[u8])
        ensures
            r@ == mapped_bytes(self),
    {
        &self.map
    }
}

/// The index of a persisted store of `len` bytes, read from `header`, the
/// first bytes of the file; or the reason why there is none.
pub open spec fn parse_index(header: Seq<u8>, len: int) -> Result<Seq<u32>, FormatError> {
    match decode_index(header) {
        Err(e) => Err(e),
        Ok(offsets) => if len < header_len(offsets.len()) {
            Err(FormatError::Truncated)
        } else if !well_formed(offsets, len - header_len(offsets.len())) {
            Err(FormatError::BadOffset)
        } else {
            Ok(offsets)
        },
    }
}

/// What opening a persisted store yields: the offsets of its index, or the
/// reason why it cannot be read. `header` holds the first bytes of the file,
/// `len` is the length of the file and `mapped_len` that of its mapping.
pub open spec fn parse_store(header: Seq<u8>, len: int, mapped_len: int) -> Result<
    Seq<u32>,
    FormatError,
> {
    match parse_index(header, len) {
        Err(e) => Err(e),
        Ok(offsets) => if mapped_len < len {
            Err(FormatError::Truncated)
        } else {
            Ok(offsets)
        },
    }
}

/// The records of a persisted store: those that `offsets` marks in the data
/// region of the first `len` bytes of `file`.
pub open spec fn store_records(file: Seq<u8>, offsets: Seq<u32>, len: int) -> Seq<Seq<u8>> {
    records_of(offsets, data_region(file, offsets.len(), len))
}

/// A persisted store that is read through a memory mapping. It cannot be
/// changed: to change a persisted store, change an in-memory one and persist
/// it again.
pub struct MappedFile {
    map: Mapping,
    len: usize,
    index: MemIndex,
}

impl View for MappedFile {
    type V = Seq<Seq<u8>>;

    open spec fn view(&self) -> Seq<Seq<u8>> {
        store_records(self.file_bytes(), self.offsets(), self.file_len())
    }
}

impl MappedFile {
    /// The bytes of the current mapping.
    pub closed spec fn file_bytes(&self) -> Seq<u8> {
        mapped_bytes(&self.map)
    }

    /// The length of the file as it was when the store was opened.
    pub closed spec fn file_len(&self) -> int {
        self.len as int
    }

    /// The start offset of each record within the data region.
    pub closed spec fn offsets(&self) -> Seq<u32> {
        self.index@
    }

    /// Opens a persisted store. `map` is a mapping of the whole file, `header`
    /// holds the file's first bytes, at least up to the end of the index
    /// region, and `len` is the length of the file.
    pub fn open(map: Mapping, header: &[u8], len: usize) -> (r: Result<Self, FormatError>)
        ensures
            match r {
                Ok(file) => {
                    &&& file.wf()
                    &&& parse_store(header@, len as int, mapped_bytes(&map).len() as int) == Ok::<
                        Seq<u32>,
                        FormatError,
                    >(file.offsets())
                    &&& file.file_bytes() == mapped_bytes(&map)
                    &&& file.file_len() == len
                },
                Err(e) => parse_store(header@, len as int, mapped_bytes(&map).len() as int)
                    == Err::<Seq<u32>, FormatError>(e),
            },
    {
        let index = Self::check_index(header, len)?;
        if map.as_bytes().len() < len {
            return Err(FormatError::Truncated);
        }
        Ok(MappedFile { map, len, index })
    }

    /// Takes a new mapping of the file in place of the current one, and keeps
    /// the index and the recorded file length. A mapping shorter than the
    /// recorded length is refused, and the store stays as it was.
    pub fn reopen(&mut self, map: Mapping) -> (r: Result<(), FormatError>)
        requires
            old(self).wf(),
        ensures
            final(self).wf(),
            final(self).offsets() == old(self).offsets(),
            final(self).file_len() == old(self).file_len(),
            match r {
                Ok(_) => mapped_bytes(&map).len() >= old(self).file_len() && final(self).file_bytes() == mapped_bytes(&map),
                Err(e) => mapped_bytes(&map).len() < old(self).file_len() && e
                    == FormatError::Truncated && final(self).file_bytes() == old(self).file_bytes(),
            },
    {
        if map.as_bytes().len() < self.len {
            return Err(FormatError::Truncated);
        }
        self.map = map;
        Ok(())
    }

    /// Reads the index again from `header`, the file's first bytes, and keeps
    /// the mapping and the recorded file length. If the new index cannot be
    /// read or does not fit the file, the store stays as it was.
    pub fn reload_index(&mut self, header: &[u8]) -> (r: Result<(), FormatError>)
        requires
            old(self).wf(),
        ensures
            final(self).wf(),
            final(self).file_bytes() == old(self).file_bytes(),
            final(self).file_len() == old(self).file_len(),
            match r {
                Ok(_) => parse_index(header@, old(self).file_len()) == Ok::<Seq<u32>, FormatError>(
                    final(self).offsets(),
                ),
                Err(e) => parse_index(header@, old(self).file_len()) == Err::<
                    Seq<u32>,
                    FormatError,
                >(e) && final(self).offsets() == old(self).offsets(),
            },
    {
        let index = Self::check_index(header, self.len)?;
        self.index = index;
        Ok(())
    }

    /// Decodes the index of a file of `len` bytes and checks it against that
    /// length.
    fn check_index(header: &[u8], len: usize) -> (r: Result<MemIndex, FormatError>)
        ensures
            match r {
                Ok(index) => parse_index(header@, len as int) == Ok::<Seq<u32>, FormatError>(
                    index@,
                ),
                Err(e) => parse_index(header@, len as int) == Err::<Seq<u32>, FormatError>(e),
            },
    {
        let index = MemIndex::decode(header)?;
        let count = index.len();
        if count > (usize::MAX - 8) / 4 || len < 8 + 4 * count {
            return Err(FormatError::Truncated);
        }
        if !index.fits(len - index.bytes_len()) {
            return Err(FormatError::BadOffset);
        }
        Ok(index)
    }
}

impl IndexedAccess for MappedFile {
    open spec fn wf(&self) -> bool {
        &&& header_len(self.offsets().len()) <= self.file_len() <= self.file_bytes().len()
        &&& well_formed(self.offsets(), self.file_len() - header_len(self.offsets().len()))
    }

    fn get(&self, pos: usize) -> (r: Option<&[u8]>) {
        let index_bytes = self.index.bytes_len();
        let data_end = self.len - index_bytes;
        let range = self.index.index_item(pos, data_end)?;
        proof {
            lemma_range_in_bounds(self.offsets(), data_end as int, pos as int);
        }
        let start = range.start + index_bytes;
        let end = range.end + index_bytes;
        let bytes = &self.map.as_bytes()[start..end];
        assert(bytes@ =~= self@[pos as int]);
        Some(bytes)
    }

    #[inline]
    fn get_unchecked(&self, pos: usize) -> (r: &[u8]) {
        let index_bytes = self.index.bytes_len();
        let data_end = self.len - index_bytes;
        let (from, to) = self.index.index_item_unchecked(pos, data_end);
        proof {
            lemma_range_in_bounds(self.offsets(), data_end as int, pos as int);
        }
        let bytes = &self.map.as_bytes()[from + index_bytes..to + index_bytes];
        assert(bytes@ =~= self@[pos as int]);
        bytes
    }

    #[inline]
    fn len(&self) -> (n: usize) {
        self.index.len()
    }
}

/// Persist-then-map round trip: a store that is opened on the persisted form
/// of an in-memory store holds the same records as that store, and as many.
pub proof fn lemma_persist_then_map(offsets: Seq<u32>, data: Seq<u8>)
    requires
        well_formed(offsets, data.len() as int),
        4 * offsets.len() <= u64::MAX,
    ensures
        ({
            let file = persisted(offsets, data);
            &&& parse_store(file, file.len() as int, file.len() as int) == Ok::<
                Seq<u32>,
                FormatError,
            >(offsets)
            &&& store_records(file, offsets, file.len() as int) == records_of(offsets, data)
        }),
{
    lemma_persisted_records(offsets, data);
}

} // verus!

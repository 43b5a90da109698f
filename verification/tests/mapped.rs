use indexed_file::map::Mapping;
use indexed_file::persisted::FormatError;
use indexed_file::traits::{
    IndexedAccess, IndexedAccessMut, TypedIndexedAccess, TypedIndexedAccessMut,
};
use indexed_file::{MappedFile, MemFile};
use mmarinus::perms;

/// A read-only private mapping that holds `bytes`.
fn mapping_of(bytes: &[u8]) -> Mapping {
    let mut writable = match mmarinus::Map::bytes(bytes.len())
        .anywhere()
        .anonymously()
        .with(perms::ReadWrite)
    {
        Ok(map) => map,
        Err(_) => panic!("no mapping of {} bytes", bytes.len()),
    };
    writable.copy_from_slice(bytes);
    match writable.reprotect(perms::Read) {
        Ok(map) => Mapping { map },
        Err(_) => panic!("the mapping cannot be made read-only"),
    }
}

fn open(bytes: &[u8]) -> Result<MappedFile, FormatError> {
    MappedFile::open(mapping_of(bytes), bytes, bytes.len())
}

fn sample() -> MemFile {
    let mut mem = MemFile::new();
    mem.insert(b"a");
    mem.insert(b"bb");
    mem.insert(b"ccc");
    mem.replace(0, b"xyz");
    mem
}

#[test]
fn test_open_mapped() {
    let mut mem = MemFile::new();
    for i in (0..337547u32).step_by(3) {
        mem.insert_typed(&i).unwrap();
    }

    let bytes = mem.to_bytes();
    let mapped = open(&bytes).unwrap();

    assert_eq!(mapped.len(), mem.len());

    let mut mem_iter = mem.iter_typed::<u32>();
    let mut mapped_iter = mapped.iter_typed::<u32>();
    let mut expected = (0..337547u32).step_by(3);
    while let Some(i) = mapped_iter.next() {
        assert_eq!(mem_iter.next(), Some(i));
        assert_eq!(expected.next(), Some(i));
    }
    assert_eq!(mem_iter.next(), None);
    assert_eq!(expected.next(), None);

    let mut mem_iter = mem.iter_typed::<u32>();
    let mut mapped_iter = mapped.iter_typed::<u32>();
    while let Some(i) = mem_iter.next_back() {
        assert_eq!(mapped_iter.next_back(), Some(i));
    }
    assert_eq!(mapped_iter.next_back(), None);
}

#[test]
fn test_mapped_scenario() {
    let mem = sample();
    let bytes = mem.to_bytes();
    let mapping = mapping_of(&bytes);
    let from = mapping.map.addr();
    let to = from + mapping.map.size();
    let mapped = MappedFile::open(mapping, &bytes, bytes.len()).unwrap();

    assert_eq!(mapped.len(), 3);
    assert!(!mapped.is_empty());
    assert_eq!(mapped.get(0), Some(&b"xyz"[..]));
    assert_eq!(mapped.get(1), Some(&b"bb"[..]));
    assert_eq!(mapped.get(2), Some(&b"ccc"[..]));
    assert_eq!(mapped.get(3), None);
    assert_eq!(mapped.get_unchecked(1), &b"bb"[..]);

    // The slices point into the mapping: nothing was copied.
    for id in 0..3 {
        let record = mapped.get(id).unwrap();
        let at = record.as_ptr() as usize;
        assert!(from <= at && at + record.len() <= to);
    }
    let second = mapped.get(1).unwrap().as_ptr() as usize;
    assert_eq!(second, from + 8 + 12 + 3);
}

#[test]
fn test_mapped_equals_source_in_both_directions() {
    let mut mem = MemFile::new();
    for n in 0..200u32 {
        let record = vec![n as u8; (n % 7) as usize];
        mem.insert(&record);
    }
    let bytes = mem.to_bytes();
    let mapped = open(&bytes).unwrap();
    assert_eq!(mapped.len(), mem.len());
    for id in 0..mem.len() {
        assert_eq!(mapped.get(id), mem.get(id));
    }
    assert_eq!(mapped.get(mem.len()), None);
    assert_eq!(mapped.iter().collect(), mem.iter().collect());
    assert_eq!(mapped.iter().collect_rev(), mem.iter().collect_rev());
}

#[test]
fn test_mapped_empty_store() {
    let bytes = MemFile::new().to_bytes();
    let mapped = open(&bytes).unwrap();
    assert_eq!(mapped.len(), 0);
    assert!(mapped.is_empty());
    assert_eq!(mapped.get(0), None);
    assert_eq!(mapped.iter().collect().len(), 0);
}

#[test]
fn test_open_with_header_only() {
    let bytes = sample().to_bytes();
    let mapped = MappedFile::open(mapping_of(&bytes), &bytes[..20], bytes.len()).unwrap();
    assert_eq!(mapped.get(2), Some(&b"ccc"[..]));
}

#[test]
fn test_open_errors() {
    assert_eq!(open(&[0u8; 7]).err(), Some(FormatError::Truncated));

    let bytes = sample().to_bytes();
    // the index region is cut short
    assert_eq!(
        MappedFile::open(mapping_of(&bytes), &bytes[..19], bytes.len()).err(),
        Some(FormatError::Truncated)
    );
    // the file is shorter than its header
    assert_eq!(
        MappedFile::open(mapping_of(&bytes), &bytes, 19).err(),
        Some(FormatError::Truncated)
    );
    // the mapping is shorter than the file
    assert_eq!(
        MappedFile::open(mapping_of(&bytes[..25]), &bytes, bytes.len()).err(),
        Some(FormatError::Truncated)
    );

    let mut odd = bytes.clone();
    odd[0] = 10;
    assert_eq!(open(&odd).err(), Some(FormatError::Misaligned));

    // an offset past the end of the data region
    let mut far = bytes.clone();
    far[16] = 9;
    assert_eq!(open(&far).err(), Some(FormatError::BadOffset));

    // offsets that decrease
    let mut unordered = bytes.clone();
    unordered[12] = 4;
    unordered[16] = 3;
    assert_eq!(open(&unordered).err(), Some(FormatError::BadOffset));
}

#[test]
fn test_reopen() {
    let bytes = sample().to_bytes();
    let mut mapped = open(&bytes).unwrap();

    let mut other = sample();
    other.replace(1, b"BB");
    let mut changed = other.to_bytes();
    changed.extend_from_slice(b"grown");
    assert_eq!(mapped.reopen(mapping_of(&changed)), Ok(()));
    assert_eq!(mapped.len(), 3);
    assert_eq!(mapped.get(0), Some(&b"xyz"[..]));
    assert_eq!(mapped.get(1), Some(&b"BB"[..]));
    assert_eq!(mapped.get(2), Some(&b"ccc"[..]));

    assert_eq!(
        mapped.reopen(mapping_of(&bytes[..bytes.len() - 1])),
        Err(FormatError::Truncated)
    );
    assert_eq!(mapped.get(1), Some(&b"BB"[..]));
    assert_eq!(mapped.get(2), Some(&b"ccc"[..]));
}

#[test]
fn test_reload_index() {
    // A file of the same length whose index marks other records.
    let mut first = MemFile::new();
    first.insert(b"abcd");
    first.insert(b"efgh");
    let bytes = first.to_bytes();
    let mut mapped = open(&bytes).unwrap();
    assert_eq!(mapped.get(0), Some(&b"abcd"[..]));

    let mut header = bytes[..16].to_vec();
    header[12] = 1;
    assert_eq!(mapped.reload_index(&header), Ok(()));
    assert_eq!(mapped.len(), 2);
    assert_eq!(mapped.get(0), Some(&b"a"[..]));
    assert_eq!(mapped.get(1), Some(&b"bcdefgh"[..]));

    // A bad index leaves the store as it was.
    let mut bad = header.clone();
    bad[12] = 200;
    assert_eq!(mapped.reload_index(&bad), Err(FormatError::BadOffset));
    assert_eq!(mapped.reload_index(&bad[..10]), Err(FormatError::Truncated));
    bad[0] = 7;
    assert_eq!(mapped.reload_index(&bad), Err(FormatError::Misaligned));
    assert_eq!(mapped.len(), 2);
    assert_eq!(mapped.get(0), Some(&b"a"[..]));
    assert_eq!(mapped.get(1), Some(&b"bcdefgh"[..]));

    // An index with fewer records takes less room: the data region starts
    // earlier, and the recorded file length stays.
    let fewer: Vec<u8> = vec![4, 0, 0, 0, 0, 0, 0, 0, 2, 0, 0, 0];
    assert_eq!(mapped.reload_index(&fewer), Ok(()));
    assert_eq!(mapped.len(), 1);
    assert_eq!(mapped.get(0).map(|r| r.len()), Some(10));
}

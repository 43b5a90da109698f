use indexed_file::mem_index::MemIndex;
use indexed_file::traits::{IndexedAccess, IndexedAccessMut};
use indexed_file::MemFile;

fn test_data() -> &'static [&'static str] {
    &[
        "俺はプログラミングできねええ",
        "音楽好き",
        "昨日のコーヒー飲んじゃった",
        "this is a text",
    ]
}

fn test_entries(entries: &[&str]) {
    let mut new_file = MemFile::new();
    let mut map = std::collections::HashMap::new();

    for (pos, entry) in entries.iter().enumerate() {
        let file_pos = new_file.insert(entry.as_bytes());
        map.insert(pos, file_pos);
    }

    assert_eq!(new_file.len(), entries.len());

    for (entry_pos, file_pos) in map {
        let entry = entries[entry_pos];
        let raw = new_file.get(file_pos).unwrap();
        let file_str = std::str::from_utf8(raw).unwrap();
        assert_eq!(file_str, entry);
    }

    for (res, exp) in new_file.iter().collect().into_iter().zip(entries.iter()) {
        let res_str = std::str::from_utf8(res).unwrap();
        assert_eq!(res_str, *exp);
    }
}

fn test_from_iter(entries: &[&str]) {
    let records: Vec<&[u8]> = entries.iter().map(|e| e.as_bytes()).collect();
    let new_file = MemFile::from(&records);

    assert_eq!(new_file.len(), entries.len());

    for (pos, entry) in entries.iter().enumerate() {
        let raw = new_file.get(pos).unwrap();
        let file_str = std::str::from_utf8(raw).unwrap();
        assert_eq!(file_str, *entry);
    }
}

#[test]
fn test_mem_file_unicode() {
    test_entries(test_data());
}

#[test]
fn test_replace() {
    let mut m_file = MemFile::new();
    let data = test_data();
    for entry in data {
        m_file.insert(entry.as_bytes());
    }

    for (pos, i) in data.iter().enumerate() {
        assert_eq!(m_file.get(pos).unwrap(), i.as_bytes());
    }

    m_file.replace(0, "lol".as_bytes()).unwrap();
    assert_eq!(m_file.get(0), Some("lol".as_bytes()));
    for (pos, i) in data.iter().enumerate().skip(1) {
        assert_eq!(m_file.get(pos).unwrap(), i.as_bytes());
    }

    m_file.replace(0, "sometesttextあぶ".as_bytes()).unwrap();
    assert_eq!(m_file.get(0), Some("sometesttextあぶ".as_bytes()));
    for (pos, i) in data.iter().enumerate().skip(1) {
        assert_eq!(m_file.get(pos).unwrap(), i.as_bytes());
    }

    m_file.replace(0, data[0].as_bytes()).unwrap();
    for (pos, i) in data.iter().enumerate() {
        assert_eq!(m_file.get(pos).unwrap(), i.as_bytes());
    }

    m_file
        .replace(m_file.len() - 1, "lastlol".as_bytes())
        .unwrap();
    for (pos, i) in data.iter().enumerate().rev().skip(1) {
        assert_eq!(m_file.get(pos).unwrap(), i.as_bytes());
    }
    assert_eq!(m_file.get(m_file.len() - 1).unwrap(), "lastlol".as_bytes());
}

#[test]
fn test_mem_file_from_records() {
    test_from_iter(test_data());
    test_from_iter(&[]);
    test_from_iter(&["", "x", ""]);
}

#[test]
fn test_mem_file_extend() {
    let mut file = MemFile::new();
    file.insert(b"first");
    let more: Vec<&[u8]> = vec![b"second", b"", b"fourth"];
    file.extend(&more);
    assert_eq!(file.len(), 4);
    assert_eq!(file.get(0), Some(&b"first"[..]));
    assert_eq!(file.get(1), Some(&b"second"[..]));
    assert_eq!(file.get(2), Some(&b""[..]));
    assert_eq!(file.get(3), Some(&b"fourth"[..]));
    assert_eq!(file.raw_len(), 17);
}

#[test]
fn test_insert_replace_scenario() {
    let mut file = MemFile::new();
    assert!(file.is_empty());
    assert_eq!(file.insert(b"a"), 0);
    assert_eq!(file.insert(b"bb"), 1);
    assert_eq!(file.insert(b"ccc"), 2);
    assert_eq!(file.len(), 3);
    assert!(!file.is_empty());
    assert_eq!(file.get(0), Some(&b"a"[..]));
    assert_eq!(file.get(2), Some(&b"ccc"[..]));

    assert_eq!(file.replace(0, b"xyz"), Some(()));
    assert_eq!(file.get(0), Some(&b"xyz"[..]));
    assert_eq!(file.get(1), Some(&b"bb"[..]));
    assert_eq!(file.get(2), Some(&b"ccc"[..]));
    assert_eq!(file.len(), 3);
}

#[test]
fn test_get_past_the_end() {
    let mut file = MemFile::new();
    assert_eq!(file.get(0), None);
    file.insert(b"one");
    file.insert(b"two");
    assert_eq!(file.get(2), None);
    assert_eq!(file.get(3), None);
    assert_eq!(file.get(usize::MAX), None);
}

#[test]
fn test_replace_past_the_end_changes_nothing() {
    let mut file = MemFile::new();
    file.insert(b"one");
    file.insert(b"two");
    assert_eq!(file.replace(2, b"three"), None);
    assert_eq!(file.len(), 2);
    assert_eq!(file.raw_len(), 6);
    assert_eq!(file.get(0), Some(&b"one"[..]));
    assert_eq!(file.get(1), Some(&b"two"[..]));
    let mut empty = MemFile::new();
    assert_eq!(empty.replace(0, b"x"), None);
    assert_eq!(empty.len(), 0);
}

#[test]
fn test_length_counts_inserts() {
    let mut file = MemFile::new();
    for n in 0..100usize {
        assert_eq!(file.len(), n);
        assert_eq!(file.insert(&[n as u8; 3]), n);
    }
    assert_eq!(file.len(), 100);
    assert_eq!(file.raw_len(), 300);
    for n in 0..100usize {
        assert_eq!(file.get(n), Some(&[n as u8; 3][..]));
        assert_eq!(file.get_unchecked(n), &[n as u8; 3][..]);
        assert_eq!(&file[n], &[n as u8; 3][..]);
    }
}

#[test]
fn test_replace_same_length_keeps_offsets() {
    let mut file = MemFile::new();
    file.insert(b"aa");
    file.insert(b"bbb");
    file.insert(b"c");
    assert_eq!(file.replace(1, b"xyz"), Some(()));
    let (data, index) = file.into_raw();
    assert_eq!(index, vec![0, 2, 5]);
    assert_eq!(data, b"aaxyzc".to_vec());
}

#[test]
fn test_replace_other_length_moves_later_offsets() {
    let mut file = MemFile::new();
    file.insert(b"aa");
    file.insert(b"bbb");
    file.insert(b"c");
    file.insert(b"dd");
    assert_eq!(file.replace(1, b"longer!"), Some(()));
    let (data, index) = file.clone().into_raw();
    assert_eq!(index, vec![0, 2, 9, 10]);
    assert_eq!(data, b"aalonger!cdd".to_vec());

    assert_eq!(file.replace(1, b""), Some(()));
    let (data, index) = file.clone().into_raw();
    assert_eq!(index, vec![0, 2, 2, 3]);
    assert_eq!(data, b"aacdd".to_vec());
    assert_eq!(file.get(1), Some(&b""[..]));
    assert_eq!(file.get(2), Some(&b"c"[..]));
    assert_eq!(file.get(3), Some(&b"dd"[..]));

    assert_eq!(file.replace(3, b"the end"), Some(()));
    let (data, index) = file.into_raw();
    assert_eq!(index, vec![0, 2, 2, 3]);
    assert_eq!(data, b"aacthe end".to_vec());
}

#[test]
fn test_new_raw_and_with_capacity() {
    let file = MemFile::new_raw(b"abbccc".to_vec(), vec![0, 1, 3]);
    assert_eq!(file.len(), 3);
    assert_eq!(file.raw_len(), 6);
    assert_eq!(file.get(0), Some(&b"a"[..]));
    assert_eq!(file.get(1), Some(&b"bb"[..]));
    assert_eq!(file.get(2), Some(&b"ccc"[..]));
    assert_eq!(file.get(3), None);

    let mut roomy = MemFile::with_capacity(64);
    assert_eq!(roomy.len(), 0);
    assert_eq!(roomy.raw_len(), 0);
    assert_eq!(roomy.insert(b"x"), 0);

    let fresh = MemFile::default();
    assert_eq!(fresh.len(), 0);
    assert_eq!(fresh.raw_len(), 0);
}

#[test]
fn test_new_raw_condition_can_be_tested() {
    assert!(MemIndex::from(vec![0, 1, 3]).fits(6));
    assert!(MemIndex::from(vec![0, 1, 6]).fits(6));
    assert!(!MemIndex::from(vec![0, 1, 7]).fits(6));
    assert!(!MemIndex::from(vec![0, 3, 1]).fits(6));
    assert!(MemIndex::from(vec![]).fits(0));
    assert!(MemIndex::from(vec![2, 2, 2]).fits(2));
}

#[test]
fn test_to_bytes_layout() {
    let mut file = MemFile::new();
    file.insert(b"a");
    file.insert(b"bb");
    file.insert(b"ccc");
    let expected: Vec<u8> = vec![
        12, 0, 0, 0, 0, 0, 0, 0, // byte length of the index region
        0, 0, 0, 0, 1, 0, 0, 0, 3, 0, 0, 0, // offsets
        b'a', b'b', b'b', b'c', b'c', b'c', // data
    ];
    assert_eq!(file.to_bytes(), expected);
    assert_eq!(MemFile::new().to_bytes(), vec![0u8; 8]);
}

#[test]
fn test_has_room() {
    let mut file = MemFile::new();
    assert!(file.has_room(b"anything"));
    file.insert(b"aa");
    file.insert(b"bbb");
    assert!(file.has_room(b""));
    assert!(file.has_room_at(0, b"a longer record"));
    assert!(file.has_room_at(1, b"the last record moves nothing"));
    assert!(file.has_room_at(2, b"no such record"));
}

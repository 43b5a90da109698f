use indexed_file::codec::{CodecError, TypedValue};
use indexed_file::traits::{
    IndexedAccess, IndexedAccessMut, TypedIndexedAccess, TypedIndexedAccessMut,
};
use indexed_file::{MemFile, VecFile};

#[test]
fn test_u32_record_is_little_endian() {
    assert_eq!(0x0102_0304u32.encode().unwrap(), vec![4, 3, 2, 1]);
    assert_eq!(0u32.encode().unwrap(), vec![0, 0, 0, 0]);
    assert_eq!(u32::MAX.encode().unwrap(), vec![255, 255, 255, 255]);
    assert_eq!(<u32 as TypedValue>::decode(&[4, 3, 2, 1]).unwrap(), 0x0102_0304);
    assert_eq!(<u32 as TypedValue>::decode(&[1, 0, 0, 0, 9, 9]).unwrap(), 1);
}

#[test]
fn test_u32_short_record_does_not_decode() {
    assert!(matches!(<u32 as TypedValue>::decode(&[]), Err(CodecError::Decode(_))));
    assert!(matches!(<u32 as TypedValue>::decode(&[1, 2, 3]), Err(CodecError::Decode(_))));
}

#[test]
fn test_u32_same_as_codec() {
    for value in [0u32, 1, 255, 256, 65_535, 0xdead_beef, u32::MAX] {
        assert_eq!(value.encode().unwrap(), bincode::serialize(&value).unwrap());
        assert_eq!(value.encode().unwrap(), value.to_le_bytes().to_vec());
    }
}

#[test]
fn test_insert_typed_stores_the_record() {
    let mut file = MemFile::new();
    assert_eq!(file.insert_typed(&0x0102_0304u32).unwrap(), 0);
    assert_eq!(file.insert_typed(&7u32).unwrap(), 1);
    assert_eq!(file.len(), 2);
    assert_eq!(file.get(0), Some(&[4u8, 3, 2, 1][..]));
    assert_eq!(file.get(1), Some(&[7u8, 0, 0, 0][..]));
    assert_eq!(file.get_typed::<u32>(0).unwrap(), Some(0x0102_0304));
    assert_eq!(file.get_typed::<u32>(1).unwrap(), Some(7));
    assert_eq!(file.get_typed::<u32>(2).unwrap(), None);
}

#[test]
fn test_replace_typed() {
    let mut file = VecFile::new();
    file.insert_typed(&1u32).unwrap();
    file.insert_typed(&2u32).unwrap();
    assert!(file.replace_typed(0, &100u32).unwrap());
    assert!(!file.replace_typed(2, &300u32).unwrap());
    assert_eq!(file.len(), 2);
    assert_eq!(file.get_typed::<u32>(0).unwrap(), Some(100));
    assert_eq!(file.get_typed::<u32>(1).unwrap(), Some(2));
    assert_eq!(file.get(0), Some(&[100u8, 0, 0, 0][..]));
}

#[test]
fn test_get_typed_of_a_bad_record() {
    let mut file = MemFile::new();
    file.insert(b"abc");
    file.insert(b"abcdef");
    assert!(matches!(file.get_typed::<u32>(0), Err(CodecError::Decode(_))));
    assert_eq!(file.get_typed::<u32>(1).unwrap(), Some(u32::from_le_bytes(*b"abcd")));
}

#[test]
fn test_insert_encoded() {
    let mut file = MemFile::new();
    assert_eq!(file.insert_encoded(Ok(vec![1, 2, 3])).unwrap(), 0);
    assert_eq!(file.get(0), Some(&[1u8, 2, 3][..]));
    let failure = <u32 as TypedValue>::decode(&[]).unwrap_err();
    assert!(matches!(
        file.insert_encoded(Err(failure)),
        Err(CodecError::Decode(_))
    ));
    assert_eq!(file.len(), 1);

    assert!(file.replace_encoded(0, Ok(vec![9])).unwrap());
    assert!(!file.replace_encoded(1, Ok(vec![9])).unwrap());
    let failure = <u32 as TypedValue>::decode(&[]).unwrap_err();
    assert!(file.replace_encoded(0, Err(failure)).is_err());
    assert_eq!(file.get(0), Some(&[9u8][..]));
    assert_eq!(file.len(), 1);
}

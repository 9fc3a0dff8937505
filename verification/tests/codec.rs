use b1t_indexer::pebble::{Pebble, MultiPebble, PebbleError};
use b1t_indexer::reader::{ByteReader, ReadError};
use b1t_indexer::varint::{read_varint, varint_too_large, VarUint};

#[test]
fn reader_reads_little_endian_integers() {
    let data = [0x01u8, 0x34, 0x12, 0x78, 0x56, 0x34, 0x12, 1, 0, 0, 0, 0, 0, 0, 0x80];
    let mut r = ByteReader::new(&data);
    assert_eq!(r.read_u8(), Ok(1));
    assert_eq!(r.read_u16_le(), Ok(0x1234));
    assert_eq!(r.read_u32_le(), Ok(0x12345678));
    assert_eq!(r.read_u64_le(), Ok(0x8000_0000_0000_0001));
    assert_eq!(r.rest_len(), 0);
    assert_eq!(r.read_u8(), Err(ReadError::UnexpectedEof));
}

#[test]
fn reader_refuses_short_reads_without_moving() {
    let data = [1u8, 2, 3];
    let mut r = ByteReader::new(&data);
    assert_eq!(r.read_u32_le(), Err(ReadError::UnexpectedEof));
    assert_eq!(r.rest_len(), 3);
    assert_eq!(r.read_slice(2), Ok(&data[..2]));
    assert_eq!(r.rest_len(), 1);
}

#[test]
fn leveldb_varint_examples() {
    let cases: [(&[u8], u64, usize); 5] = [
        (&[0x00], 0, 1),
        (&[0x7f], 127, 1),
        (&[0x80, 0x00], 128, 2),
        (&[0x81, 0x00], 256, 2),
        (&[0xff, 0x7f], 16511, 2),
    ];
    for (bytes, value, used) in cases {
        let mut r = ByteReader::new(bytes);
        assert!(!varint_too_large(&r));
        assert_eq!(read_varint(&mut r), Ok(value));
        assert_eq!(bytes.len() - r.rest_len(), used);
    }
}

#[test]
fn leveldb_varint_ends_early() {
    let bytes = [0x80u8, 0x80];
    let mut r = ByteReader::new(&bytes);
    assert!(!varint_too_large(&r));
    assert_eq!(read_varint(&mut r), Err(ReadError::UnexpectedEof));
}

#[test]
fn leveldb_varint_too_large_is_detected() {
    let bytes = [0xffu8; 11];
    let r = ByteReader::new(&bytes);
    assert!(varint_too_large(&r));
}

#[test]
fn compact_size_forms() {
    assert_eq!(VarUint::from_u8(0x12).to_bytes(), vec![0x12]);
    assert_eq!(VarUint::from_u16(0x1234).to_bytes(), vec![0xfd, 0x34, 0x12]);
    assert_eq!(VarUint::from_u32(0x12345678).to_bytes(), vec![0xfe, 0x78, 0x56, 0x34, 0x12]);
    assert_eq!(
        VarUint::from_u64(0x0102030405060708).to_bytes(),
        vec![0xff, 8, 7, 6, 5, 4, 3, 2, 1]
    );
}

#[test]
fn compact_size_roundtrip_law_on_values() {
    for v in [VarUint::from_u8(0xfc), VarUint::from_u16(0xfffe), VarUint::from_u32(70000), VarUint::from_u64(u64::MAX)] {
        let mut bytes = v.to_bytes();
        bytes.extend_from_slice(&[0xaa, 0xbb]);
        let mut r = ByteReader::new(&bytes);
        let back = VarUint::read_from(&mut r).unwrap();
        assert_eq!(back.value, v.value);
        assert_eq!(back.to_bytes(), v.to_bytes());
        assert_eq!(r.rest_len(), 2);
    }
}

#[test]
fn compact_size_read_fails_on_short_input() {
    let bytes = [0xfeu8, 1, 2];
    let mut r = ByteReader::new(&bytes);
    assert!(VarUint::read_from(&mut r).is_err());
}

#[test]
fn pebble_integers_are_big_endian() {
    assert_eq!(<u32 as Pebble>::get_bytes(&0x01020304), vec![1, 2, 3, 4]);
    assert_eq!(<u16 as Pebble>::get_bytes(&0x0102), vec![1, 2]);
    assert_eq!(<u64 as Pebble>::get_bytes(&1), vec![0, 0, 0, 0, 0, 0, 0, 1]);
    assert_eq!(<i8 as Pebble>::get_bytes(&-1), vec![0xff]);
    assert_eq!(<i32 as Pebble>::get_bytes(&-2), vec![0xff, 0xff, 0xff, 0xfe]);
    assert_eq!(<u128 as Pebble>::get_bytes(&(u128::MAX - 1))[15], 0xfe);
    assert_eq!(<u32 as Pebble>::fixed_size(), Some(4));
    assert_eq!(<i128 as Pebble>::fixed_size(), Some(16));
    assert_eq!(<String as Pebble>::fixed_size(), None);
}

#[test]
fn pebble_integers_match_std() {
    for v in [0u64, 1, 255, 256, 0xdead_beef, u64::MAX] {
        assert_eq!(<u64 as Pebble>::get_bytes(&v), v.to_be_bytes().to_vec());
    }
    for v in [i64::MIN, -1, 0, 1, i64::MAX] {
        assert_eq!(<i64 as Pebble>::get_bytes(&v), v.to_be_bytes().to_vec());
        assert_eq!(<i64 as Pebble>::from_bytes(&v.to_be_bytes()), Ok(v));
    }
    for v in [i16::MIN, -300, 0, 300, i16::MAX] {
        assert_eq!(<i16 as Pebble>::from_bytes(&<i16 as Pebble>::get_bytes(&v)), Ok(v));
    }
}

#[test]
fn pebble_roundtrip_law_on_values() {
    assert_eq!(<u8 as Pebble>::from_bytes(&<u8 as Pebble>::get_bytes(&7)), Ok(7));
    assert_eq!(<u128 as Pebble>::from_bytes(&<u128 as Pebble>::get_bytes(&u128::MAX)), Ok(u128::MAX));
    assert_eq!(<i128 as Pebble>::from_bytes(&<i128 as Pebble>::get_bytes(&i128::MIN)), Ok(i128::MIN));
    let s = String::from("tick\u{e9}");
    assert_eq!(<String as Pebble>::from_bytes(&<String as Pebble>::get_bytes(&s)), Ok(s));
    let a = [9u8, 8, 7];
    assert_eq!(<[u8; 3] as Pebble>::from_bytes(&<[u8; 3] as Pebble>::get_bytes(&a)), Ok(a));
    let pair = (5u32, String::from("abc"));
    let bytes = <(u32, String) as Pebble>::get_bytes(&pair);
    assert_eq!(bytes, vec![0, 0, 0, 5, b'a', b'b', b'c']);
    assert_eq!(<(u32, String) as Pebble>::from_bytes(&bytes), Ok(pair));
    let list = vec![1u16, 2, 0xffff];
    let bytes = <Vec<u16> as Pebble>::get_bytes(&list);
    assert_eq!(bytes, vec![0, 1, 0, 2, 0xff, 0xff]);
    assert_eq!(<Vec<u16> as Pebble>::from_bytes(&bytes), Ok(list));
    assert_eq!(<() as Pebble>::get_bytes(&()), Vec::<u8>::new());
    assert_eq!(<() as Pebble>::from_bytes(&[1, 2]), Ok(()));
}

#[test]
fn pebble_errors() {
    assert_eq!(<u32 as Pebble>::from_bytes(&[1, 2, 3]), Err(PebbleError::WrongLength));
    assert_eq!(<u8 as Pebble>::from_bytes(&[]), Err(PebbleError::WrongLength));
    assert_eq!(<String as Pebble>::from_bytes(&[0xff, 0xfe]), Err(PebbleError::InvalidUtf8));
    assert_eq!(<(u16, u8) as Pebble>::from_bytes(&[0, 1]), Err(PebbleError::WrongLength));
    assert_eq!(<(u16, String) as Pebble>::from_bytes(&[0, 1, 0xff]), Err(PebbleError::InvalidUtf8));
    assert_eq!(<Vec<u16> as Pebble>::from_bytes(&[0, 1, 2]), Err(PebbleError::WrongLength));
}

#[test]
fn multi_pebble_writes_parts() {
    let mut dest = vec![9u8, 9, 9, 9, 9, 9];
    <(u16, u32) as MultiPebble>::get_bytes_k0_into(&0x0102, &mut dest);
    assert_eq!(dest, vec![1, 2]);
    <(u16, u32) as MultiPebble>::get_bytes_k1_into(&3, &mut dest);
    assert_eq!(dest, vec![1, 2, 0, 0, 0, 3]);
    let mut small = Vec::new();
    <(u64, u8) as MultiPebble>::get_bytes_k0_into(&1, &mut small);
    assert_eq!(small, vec![0, 0, 0, 0, 0, 0, 0, 1]);
}

#[test]
fn compact_size_text_is_its_value() {
    assert_eq!(VarUint::from_u32(70000).to_text(), "70000");
    assert_eq!(VarUint::from_u8(0).clone().to_text(), "0");
}

use bin_proto::discriminant::{
    convert_tag, discriminant_of, implicit_discriminants, resolve_external_tag, resolve_name,
    resolve_variant,
};
use bin_proto::error::{Discriminant, Error};
use bin_proto::protocol::Protocol;
use bin_proto::settings::{ByteOrder, Settings};
use bin_proto::stream::{BitReader, BitWriter};
use bin_proto::types::collections::map::{read_entries, write_borrowed_entries, write_entries};
use std::collections::{BTreeMap, HashMap};
use std::rc::Rc;
use std::sync::Arc;

const BIG: Settings = Settings { byte_order: ByteOrder::BigEndian };
const LITTLE: Settings = Settings { byte_order: ByteOrder::LittleEndian };

#[test]
fn can_read_array() {
    let mut data = BitReader::new(vec![0u8, 1, 2, 3], ByteOrder::BigEndian);
    let read_back: [u8; 4] = Protocol::read(&mut data, &Settings::default()).unwrap();
    assert_eq!(read_back, [0, 1, 2, 3]);
}

#[test]
fn can_write_array() {
    let mut writer = BitWriter::new(ByteOrder::BigEndian);

    [5u8, 7, 9, 11].write(&mut writer, &Settings::default()).unwrap();
    assert_eq!(writer.into_bytes(), vec![5, 7, 9, 11]);
}

#[test]
fn arrays_have_no_count() {
    assert_eq!([0x0102u16, 0x0304].bytes(&BIG).unwrap(), vec![1, 2, 3, 4]);
    assert_eq!([0x0102u16, 0x0304].bytes(&LITTLE).unwrap(), vec![2, 1, 4, 3]);
    assert_eq!(<[u16; 2]>::from_bytes(&[1, 2, 3, 4], &LITTLE).unwrap(), [0x0201, 0x0403]);
    assert!(matches!(<[u16; 2]>::from_bytes(&[1, 2, 3], &BIG), Err(Error::Io)));
    assert_eq!(<[u8; 0]>::from_bytes(&[], &BIG).unwrap(), [0u8; 0]);
}

#[test]
fn ranges_are_start_then_end() {
    assert_eq!((3u8..9).bytes(&BIG).unwrap(), vec![3, 9]);
    assert_eq!((0x0102u16..0x0304).bytes(&LITTLE).unwrap(), vec![2, 1, 4, 3]);
    assert_eq!(<std::ops::Range<u16>>::from_bytes(&[0, 1, 0, 5], &BIG).unwrap(), 1..5);
    assert!(matches!(<std::ops::Range<u16>>::from_bytes(&[0, 1, 0], &BIG), Err(Error::Io)));
}

#[test]
fn pairs_are_first_then_second() {
    let pair = (0x11u8, "é".to_string());
    assert_eq!(pair.bytes(&BIG).unwrap(), vec![0x11, 0, 0, 0, 2, 0xc3, 0xa9]);
    for settings in [BIG, LITTLE] {
        let bytes = pair.bytes(&settings).unwrap();
        assert_eq!(<(u8, String)>::from_bytes(&bytes, &settings).unwrap(), pair);
    }
}

#[test]
fn values_behind_pointers_are_sent_as_the_values() {
    assert_eq!(Box::new(0x0102u16).bytes(&BIG).unwrap(), vec![1, 2]);
    assert_eq!(Rc::new(0x0102u16).bytes(&LITTLE).unwrap(), vec![2, 1]);
    assert_eq!(Arc::new(vec![7u8]).bytes(&BIG).unwrap(), vec![0, 0, 0, 1, 7]);
    assert_eq!(*Box::<u16>::from_bytes(&[1, 2], &BIG).unwrap(), 0x0102);
    assert_eq!(*Rc::<u16>::from_bytes(&[1, 2], &LITTLE).unwrap(), 0x0201);
    assert_eq!(*Arc::<Vec<u8>>::from_bytes(&[0, 0, 0, 1, 7], &BIG).unwrap(), vec![7]);
    let shared = Rc::new(5u8);
    let twice = vec![shared.clone(), shared];
    let back = Vec::<Rc<u8>>::from_bytes(&twice.bytes(&BIG).unwrap(), &BIG).unwrap();
    assert_eq!(back, twice);
    assert!(!Rc::ptr_eq(&back[0], &back[1]));
}

#[test]
fn identifiers_are_their_sixteen_bytes() {
    let raw = [
        0xa1, 0xa2, 0xa3, 0xa4, 0xb1, 0xb2, 0xc1, 0xc2, 0xd1, 0xd2, 0xd3, 0xd4, 0xd5, 0xd6, 0xd7,
        0xd8,
    ];
    let id = uuid::Uuid::from_bytes(raw);
    for settings in [BIG, LITTLE] {
        assert_eq!(id.bytes(&settings).unwrap(), raw.to_vec());
        assert_eq!(uuid::Uuid::from_bytes(raw), <uuid::Uuid as Protocol>::from_bytes(&raw, &settings).unwrap());
    }
    assert!(matches!(<uuid::Uuid as Protocol>::from_bytes(&raw[..15], &BIG), Err(Error::Io)));
}

#[test]
fn maps_are_their_entries_with_a_count() {
    let mut map = BTreeMap::new();
    map.insert(2u8, "two".to_string());
    map.insert(1u8, "one".to_string());
    let entries: Vec<(u8, String)> = map.clone().into_iter().collect();
    let mut writer = BitWriter::new(ByteOrder::BigEndian);
    write_entries(&entries, &mut writer, &BIG).unwrap();
    let bytes = writer.into_bytes();
    assert_eq!(
        bytes,
        vec![0, 0, 0, 2, 1, 0, 0, 0, 3, b'o', b'n', b'e', 2, 0, 0, 0, 3, b't', b'w', b'o']
    );
    let mut reader = BitReader::new(bytes, ByteOrder::BigEndian);
    let back: Vec<(u8, String)> = read_entries(&mut reader, &BIG).unwrap();
    assert_eq!(back.into_iter().collect::<BTreeMap<_, _>>(), map);

    let mut map = HashMap::new();
    map.insert(7u16, 70u32);
    map.insert(8u16, 80u32);
    map.insert(9u16, 90u32);
    let entries: Vec<(u16, u32)> = map.clone().into_iter().collect();
    let mut writer = BitWriter::new(ByteOrder::LittleEndian);
    write_entries(&entries, &mut writer, &LITTLE).unwrap();
    let mut reader = BitReader::new(writer.into_bytes(), ByteOrder::LittleEndian);
    let back: Vec<(u16, u32)> = read_entries(&mut reader, &LITTLE).unwrap();
    assert_eq!(back.into_iter().collect::<HashMap<_, _>>(), map);
}

#[test]
fn implicit_tags_start_at_one() {
    assert_eq!(implicit_discriminants(0), Vec::<i128>::new());
    assert_eq!(implicit_discriminants(4), vec![1, 2, 3, 4]);
    assert!(!implicit_discriminants(100).contains(&0));
}

#[test]
fn tags_find_their_variants() {
    let tags = [5i128, -1, 9];
    assert_eq!(resolve_variant(&tags, 5).unwrap(), 0);
    assert_eq!(resolve_variant(&tags, -1).unwrap(), 1);
    assert_eq!(resolve_variant(&tags, 9).unwrap(), 2);
    match resolve_variant(&tags, 0) {
        Err(Error::UnknownDiscriminant(Discriminant::Integer(tag))) => assert_eq!(tag, 0),
        other => panic!("expected an unknown discriminant, got: {:?}", other),
    }
    assert_eq!(discriminant_of(&tags, 1).unwrap(), -1);
    assert!(matches!(discriminant_of(&tags, 3), Err(Error::InvalidConfiguration)));
    let names = ["Hello".to_string(), "Universe".to_string()];
    assert_eq!(resolve_name(&names, &"Universe".to_string()).unwrap(), 1);
    match resolve_name(&names, &"World".to_string()) {
        Err(Error::UnknownDiscriminant(Discriminant::Text(tag))) => assert_eq!(tag, "World"),
        other => panic!("expected an unknown discriminant, got: {:?}", other),
    }
}

#[test]
fn tags_from_the_caller_are_converted_first() {
    let tags = implicit_discriminants(3);
    assert_eq!(resolve_external_tag(&tags, 2u8).unwrap(), 1);
    assert_eq!(resolve_external_tag(&tags, 3i64).unwrap(), 2);
    assert!(matches!(
        resolve_external_tag(&tags, 4u16),
        Err(Error::UnknownDiscriminant(Discriminant::Integer(4)))
    ));
    assert!(matches!(resolve_external_tag(&tags, u128::MAX), Err(Error::TagConversion)));
    assert_eq!(convert_tag(7u32).unwrap(), 7);
    assert!(matches!(convert_tag(u128::MAX), Err(Error::TagConversion)));
}

#[test]
fn a_map_can_be_written_where_it_stands() {
    let mut map = BTreeMap::new();
    map.insert(2u8, "two".to_string());
    map.insert(1u8, "one".to_string());
    let (keys, values): (Vec<&u8>, Vec<&String>) = map.iter().unzip();
    let mut writer = BitWriter::new(ByteOrder::BigEndian);
    write_borrowed_entries(&keys, &values, &mut writer, &BIG).unwrap();
    let bytes = writer.into_bytes();
    assert_eq!(
        bytes,
        vec![0, 0, 0, 2, 1, 0, 0, 0, 3, b'o', b'n', b'e', 2, 0, 0, 0, 3, b't', b'w', b'o']
    );
    let mut reader = BitReader::new(bytes, ByteOrder::BigEndian);
    let back: Vec<(u8, String)> = read_entries(&mut reader, &BIG).unwrap();
    assert_eq!(back.into_iter().collect::<BTreeMap<_, _>>(), map);
    let mut writer = BitWriter::new(ByteOrder::BigEndian);
    let uneven = write_borrowed_entries(&keys, &values[..1], &mut writer, &BIG);
    assert!(matches!(uneven, Err(Error::InvalidConfiguration)));
    assert_eq!(writer.into_bytes(), Vec::<u8>::new());
}

#[test]
fn large_buffers_are_parsed_like_small_ones() {
    let bytes = vec![0x5au8; 1 << 16];
    let mut reader = BitReader::new(bytes.clone(), ByteOrder::LittleEndian);
    assert_eq!(reader.remaining_bits(), 8 << 16);
    assert_eq!(<[u8; 3]>::from_bytes(&bytes, &LITTLE).unwrap(), [0x5a; 3]);
}

#[test]
fn values_are_read_back_on_a_stream_of_the_other_order() {
    let value = (vec![Some(0x0102u16), None], "text".to_string());
    for (settings, order) in [(BIG, ByteOrder::LittleEndian), (LITTLE, ByteOrder::BigEndian)] {
        let mut writer = BitWriter::new(order);
        value.write(&mut writer, &settings).unwrap();
        let mut reader = BitReader::new(writer.into_bytes(), order);
        let back = <(Vec<Option<u16>>, String)>::read(&mut reader, &settings).unwrap();
        assert_eq!(back, value);
        assert_eq!(reader.remaining_bits(), 0);
    }
}

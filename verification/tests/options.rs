use bin_proto::bit_field::BitField;
use bin_proto::hint::Hints;
use bin_proto::protocol::Protocol;
use bin_proto::settings::{ByteOrder, Settings};
use bin_proto::stream::{BitReader, BitWriter};
use bin_proto::types::option::{read_conditional, write_conditional};

#[test]
fn can_read_some() {
    assert_eq!(Option::<u8>::from_bytes(&[1, 5], &Settings::default()).unwrap(), Some(5))
}

#[test]
fn can_read_none() {
    assert_eq!(Option::<u8>::from_bytes(&[0], &Settings::default()).unwrap(), None)
}

#[test]
fn can_write_some() {
    assert_eq!(Some(5u8).bytes(&Settings::default()).unwrap(), &[1, 5])
}

#[test]
fn can_write_none() {
    assert_eq!(None::<u8>.bytes(&Settings::default()).unwrap(), &[0])
}

#[test]
fn can_read_some_bitfield() {
    assert_eq!(
        <Option::<u8> as BitField>::read_bit_field(
            &mut BitReader::new(vec![0x82u8, 0x80], ByteOrder::BigEndian),
            &Settings::default(),
            &mut Hints::default(),
            1,
        )
        .unwrap(),
        Some(5)
    )
}

#[test]
fn can_read_none_bitfield() {
    assert_eq!(
        <Option::<u8> as BitField>::read_bit_field(
            &mut BitReader::new(vec![0x00], ByteOrder::BigEndian),
            &Settings::default(),
            &mut Hints::default(),
            1,
        )
        .unwrap(),
        None
    )
}

#[test]
fn can_write_some_bitfield() {
    let mut writer = BitWriter::new(ByteOrder::BigEndian);
    BitField::write_bit_field(
        &Some(5u8),
        &mut writer,
        &Settings::default(),
        &mut Hints::default(),
        1,
    )
    .unwrap();
    writer.byte_align();
    assert_eq!(vec![0x82, 0x80], writer.into_bytes())
}

#[test]
fn can_write_none_bitfield() {
    let mut writer = BitWriter::new(ByteOrder::BigEndian);
    BitField::write_bit_field(
        &None::<u8>,
        &mut writer,
        &Settings::default(),
        &mut Hints::default(),
        1,
    )
    .unwrap();
    writer.byte_align();
    assert_eq!(vec![0x00], writer.into_bytes())
}

#[test]
fn options_are_read_back() {
    for byte_order in [ByteOrder::BigEndian, ByteOrder::LittleEndian] {
        let settings = Settings { byte_order };
        for value in [Some(0x1234u16), None, Some(0)] {
            let bytes = value.bytes(&settings).unwrap();
            assert_eq!(Option::<u16>::from_bytes(&bytes, &settings).unwrap(), value);
        }
        let nested = Some(Some("x".to_string()));
        let bytes = nested.bytes(&settings).unwrap();
        assert_eq!(Option::<Option<String>>::from_bytes(&bytes, &settings).unwrap(), nested);
    }
}

#[test]
fn a_value_under_a_condition_has_no_flag() {
    let settings = Settings::default();
    let mut writer = BitWriter::new(ByteOrder::BigEndian);
    write_conditional(&Some(0x0102u16), &mut writer, &settings).unwrap();
    write_conditional(&None::<u16>, &mut writer, &settings).unwrap();
    write_conditional(&Some(7u8), &mut writer, &settings).unwrap();
    let bytes = writer.into_bytes();
    assert_eq!(bytes, vec![1, 2, 7]);
    let mut reader = BitReader::new(bytes, ByteOrder::BigEndian);
    assert_eq!(read_conditional::<u16>(true, &mut reader, &settings).unwrap(), Some(0x0102));
    assert_eq!(read_conditional::<u16>(false, &mut reader, &settings).unwrap(), None);
    assert_eq!(read_conditional::<u8>(true, &mut reader, &settings).unwrap(), Some(7));
    assert!(read_conditional::<u8>(true, &mut reader, &settings).is_err());
}

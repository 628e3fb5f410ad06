use bin_proto::error::Error;
use bin_proto::fields::{
    length_prefix_of, read_field_at, read_packed_at, read_prefix_at, read_unnamed_field,
    update_hints_after, update_hints_before, validate_fields, write_field_at, write_packed_at,
    write_prefix_at, write_unnamed_field, Field, FieldAttr,
};
use bin_proto::hint::{FieldLength, Hints, LengthPrefixKind};
use bin_proto::settings::{ByteOrder, Settings};
use bin_proto::stream::{BitReader, BitWriter};
use bin_proto::types::aligned::Aligned;

fn plain(name: &str) -> Field {
    Field { name: name.to_string(), attr: FieldAttr::Plain }
}

fn prefixed(name: &str, by: &str, kind: LengthPrefixKind) -> Field {
    Field {
        name: name.to_string(),
        attr: FieldAttr::LengthPrefix { kind, prefix_field_name: by.to_string() },
    }
}

fn bits(name: &str, width: u32) -> Field {
    Field { name: name.to_string(), attr: FieldAttr::BitField(width) }
}

#[derive(Debug, PartialEq)]
struct Record {
    count: u32,
    payload: Vec<u8>,
}

fn record_fields(kind: LengthPrefixKind) -> Vec<Field> {
    vec![plain("count"), prefixed("payload", "count", kind)]
}

fn write_record(
    record: &Record,
    kind: LengthPrefixKind,
    settings: &Settings,
) -> Result<Vec<u8>, Error> {
    let fields = record_fields(kind);
    validate_fields(&fields)?;
    let mut writer = BitWriter::new(settings.byte_order);
    let mut hints = Hints::default();
    hints.begin_fields();
    write_prefix_at(&record.count, 0, &fields, &mut writer, settings, &mut hints)?;
    write_field_at(&record.payload, 1, &fields, &mut writer, settings, &mut hints)?;
    writer.byte_align();
    Ok(writer.into_bytes())
}

fn read_record(bytes: &[u8], kind: LengthPrefixKind, settings: &Settings) -> Result<Record, Error> {
    let fields = record_fields(kind);
    validate_fields(&fields)?;
    let mut reader = BitReader::new(bytes.to_vec(), settings.byte_order);
    let mut hints = Hints::default();
    hints.begin_fields();
    let count = read_prefix_at(0, &fields, &mut reader, settings, &mut hints)?;
    let payload = read_field_at(1, &fields, &mut reader, settings, &mut hints)?;
    Ok(Record { count, payload })
}

#[test]
fn a_length_held_by_another_field_is_sent_once() {
    let record = Record { count: 3, payload: vec![7, 8, 9] };
    for kind in [LengthPrefixKind::Elements, LengthPrefixKind::Bytes] {
        let settings = Settings { byte_order: ByteOrder::BigEndian };
        let bytes = write_record(&record, kind, &settings).unwrap();
        assert_eq!(bytes, vec![0, 0, 0, 3, 7, 8, 9]);
        assert_eq!(read_record(&bytes, kind, &settings).unwrap(), record);
        let settings = Settings { byte_order: ByteOrder::LittleEndian };
        let bytes = write_record(&record, kind, &settings).unwrap();
        assert_eq!(bytes, vec![3, 0, 0, 0, 7, 8, 9]);
        assert_eq!(read_record(&bytes, kind, &settings).unwrap(), record);
    }
}

#[test]
fn the_reader_takes_the_length_from_the_other_field() {
    let settings = Settings::default();
    let record =
        read_record(&[0, 0, 0, 2, 7, 8, 9], LengthPrefixKind::Elements, &settings).unwrap();
    assert_eq!(record, Record { count: 2, payload: vec![7, 8] });
    let short = read_record(&[0, 0, 0, 4, 7, 8, 9], LengthPrefixKind::Bytes, &settings);
    assert!(matches!(short, Err(Error::Io)));
    let empty = read_record(&[0, 0, 0, 0], LengthPrefixKind::Bytes, &settings).unwrap();
    assert_eq!(empty, Record { count: 0, payload: vec![] });
}

#[test]
fn a_length_from_a_field_that_is_not_there_is_a_configuration_error() {
    let fields = vec![plain("count"), prefixed("payload", "size", LengthPrefixKind::Bytes)];
    assert!(matches!(validate_fields(&fields), Err(Error::InvalidConfiguration)));
    let fields = vec![prefixed("payload", "count", LengthPrefixKind::Bytes), plain("count")];
    assert!(matches!(validate_fields(&fields), Err(Error::InvalidConfiguration)));
    let fields = vec![prefixed("payload", "payload", LengthPrefixKind::Elements)];
    assert!(matches!(validate_fields(&fields), Err(Error::InvalidConfiguration)));
    assert!(validate_fields(&record_fields(LengthPrefixKind::Bytes)).is_ok());
    assert!(validate_fields(&[]).is_ok());
    assert!(validate_fields(&[plain("a"), bits("b", 3)]).is_ok());
}

#[test]
fn the_field_that_takes_a_length_is_found() {
    let fields = vec![
        plain("a"),
        plain("n"),
        prefixed("x", "n", LengthPrefixKind::Elements),
        prefixed("y", "a", LengthPrefixKind::Bytes),
        prefixed("z", "n", LengthPrefixKind::Bytes),
    ];
    assert_eq!(length_prefix_of(0, &fields).unwrap(), Some((3, LengthPrefixKind::Bytes)));
    assert_eq!(length_prefix_of(1, &fields).unwrap(), Some((2, LengthPrefixKind::Elements)));
    assert_eq!(length_prefix_of(2, &fields).unwrap(), None);
    assert_eq!(length_prefix_of(4, &fields).unwrap(), None);
}

#[test]
fn a_length_from_a_missing_field_is_never_passed_over() {
    let fields = vec![plain("a"), prefixed("b", "missing", LengthPrefixKind::Bytes)];
    assert!(matches!(length_prefix_of(0, &fields), Err(Error::InvalidConfiguration)));
    assert!(matches!(length_prefix_of(1, &fields), Err(Error::InvalidConfiguration)));
    let settings = Settings::default();
    let mut hints = Hints::default();
    hints.begin_fields();
    assert!(matches!(
        update_hints_after(&mut hints, 0, &fields, Some(1)),
        Err(Error::InvalidConfiguration)
    ));
    assert_eq!(hints.current_field_index, Some(0));
    let mut reader = BitReader::new(vec![1, 2, 3], settings.byte_order);
    let read: Result<u8, Error> = read_field_at(0, &fields, &mut reader, &settings, &mut hints);
    assert!(matches!(read, Err(Error::InvalidConfiguration)));
    let read: Result<u8, Error> = read_prefix_at(0, &fields, &mut reader, &settings, &mut hints);
    assert!(matches!(read, Err(Error::InvalidConfiguration)));
    let read: Result<u8, Error> = read_packed_at(0, &fields, &mut reader, &settings, &mut hints);
    assert!(matches!(read, Err(Error::InvalidConfiguration)));
    assert_eq!(reader.remaining_bits(), 24);
    assert_eq!(hints.current_field_index, Some(0));
    let mut writer = BitWriter::new(settings.byte_order);
    let wrote = write_field_at(&1u8, 0, &fields, &mut writer, &settings, &mut hints);
    assert!(matches!(wrote, Err(Error::InvalidConfiguration)));
    let wrote = write_prefix_at(&1u8, 0, &fields, &mut writer, &settings, &mut hints);
    assert!(matches!(wrote, Err(Error::InvalidConfiguration)));
    let wrote = write_packed_at(&1u8, 0, &fields, &mut writer, &settings, &mut hints);
    assert!(matches!(wrote, Err(Error::InvalidConfiguration)));
    assert_eq!(writer.into_bytes(), Vec::<u8>::new());
    assert_eq!(hints.current_field_index, Some(0));
}

#[test]
fn a_length_must_come_from_a_field_that_holds_a_number() {
    let fields = record_fields(LengthPrefixKind::Elements);
    let settings = Settings::default();
    let mut hints = Hints::default();
    hints.begin_fields();
    let mut reader = BitReader::new(vec![0, 0, 0, 1, 2], settings.byte_order);
    let read: Result<String, Error> =
        read_field_at(0, &fields, &mut reader, &settings, &mut hints);
    assert!(matches!(read, Err(Error::InvalidConfiguration)));
    let read: Result<bool, Error> =
        read_packed_at(0, &fields, &mut reader, &settings, &mut hints);
    assert!(matches!(read, Err(Error::InvalidConfiguration)));
    assert_eq!(reader.remaining_bits(), 40);
    assert!(matches!(
        update_hints_after(&mut hints, 0, &fields, None),
        Err(Error::InvalidConfiguration)
    ));
    update_hints_after(&mut hints, 0, &fields, Some(2)).unwrap();
    assert_eq!(
        hints.current_field_length(),
        Some(FieldLength { length: 2, kind: LengthPrefixKind::Elements })
    );
}

#[test]
fn a_pass_sets_the_width_announces_lengths_and_moves_on() {
    let fields = vec![bits("n", 4), prefixed("x", "n", LengthPrefixKind::Elements)];
    let mut hints = Hints::default();
    assert_eq!(hints.current_field_length(), None);
    hints.begin_fields();
    assert_eq!(hints.current_field_index, Some(0));
    update_hints_before(&mut hints, &fields[0]);
    assert_eq!(hints.field_width, Some(4));
    update_hints_after(&mut hints, 0, &fields, Some(5)).unwrap();
    assert_eq!(hints.field_width, None);
    assert_eq!(hints.current_field_index, Some(1));
    assert_eq!(
        hints.current_field_length(),
        Some(FieldLength { length: 5, kind: LengthPrefixKind::Elements })
    );
    update_hints_before(&mut hints, &fields[1]);
    assert_eq!(hints.field_width, None);
    hints.next_field();
    assert_eq!(hints.current_field_index, Some(2));
    assert_eq!(hints.current_field_length(), None);
}

#[test]
fn fields_of_declared_width_are_packed() {
    let fields = vec![bits("version", 4), bits("flag", 1), bits("kind", 3), plain("id")];
    let settings = Settings::default();
    let mut writer = BitWriter::new(settings.byte_order);
    let mut hints = Hints::default();
    hints.begin_fields();
    write_packed_at(&0xau8, 0, &fields, &mut writer, &settings, &mut hints).unwrap();
    write_packed_at(&true, 1, &fields, &mut writer, &settings, &mut hints).unwrap();
    write_packed_at(&5u8, 2, &fields, &mut writer, &settings, &mut hints).unwrap();
    write_packed_at(&0x1234u16, 3, &fields, &mut writer, &settings, &mut hints).unwrap();
    let bytes = writer.into_bytes();
    assert_eq!(bytes, vec![0xad, 0x12, 0x34]);
    let mut reader = BitReader::new(bytes, settings.byte_order);
    let mut hints = Hints::default();
    hints.begin_fields();
    let version: u8 = read_packed_at(0, &fields, &mut reader, &settings, &mut hints).unwrap();
    let flag: bool = read_packed_at(1, &fields, &mut reader, &settings, &mut hints).unwrap();
    let kind: u8 = read_packed_at(2, &fields, &mut reader, &settings, &mut hints).unwrap();
    let id: u16 = read_packed_at(3, &fields, &mut reader, &settings, &mut hints).unwrap();
    assert_eq!((version, flag, kind, id), (0xa, true, 5, 0x1234));
    assert_eq!(hints.current_field_index, Some(4));
}

#[test]
fn fields_without_names_are_processed_in_order() {
    let settings = Settings { byte_order: ByteOrder::LittleEndian };
    let field = plain("");
    let mut writer = BitWriter::new(settings.byte_order);
    let mut hints = Hints::default();
    hints.begin_fields();
    write_unnamed_field(&0xf1u8, &field, &mut writer, &settings, &mut hints).unwrap();
    write_unnamed_field(&vec![1u16], &field, &mut writer, &settings, &mut hints).unwrap();
    assert_eq!(hints.current_field_index, Some(2));
    let bytes = writer.into_bytes();
    assert_eq!(bytes, vec![0xf1, 1, 0, 0, 0, 1, 0]);
    let mut reader = BitReader::new(bytes, settings.byte_order);
    let mut hints = Hints::default();
    hints.begin_fields();
    let first: u8 = read_unnamed_field(&field, &mut reader, &settings, &mut hints).unwrap();
    let second: Vec<u16> = read_unnamed_field(&field, &mut reader, &settings, &mut hints).unwrap();
    assert_eq!((first, second), (0xf1, vec![1]));
    assert_eq!(hints.current_field_index, Some(2));
}

#[test]
fn a_length_that_no_usize_holds_is_an_integer_conversion_error() {
    let fields = record_fields(LengthPrefixKind::Elements);
    let settings = Settings::default();
    let mut writer = BitWriter::new(settings.byte_order);
    let mut hints = Hints::default();
    hints.begin_fields();
    let wrote = write_prefix_at(&-1i8, 0, &fields, &mut writer, &settings, &mut hints);
    assert!(matches!(wrote, Err(Error::IntegerConversion)));
    assert_eq!(hints.current_field_index, Some(0));
    assert_eq!(writer.into_bytes(), Vec::<u8>::new());
    let mut reader = BitReader::new(vec![0xff, 0, 0, 0, 1, 5], settings.byte_order);
    let read: Result<i8, Error> = read_prefix_at(0, &fields, &mut reader, &settings, &mut hints);
    assert!(matches!(read, Err(Error::IntegerConversion)));
    assert!(matches!(
        update_hints_after(&mut hints, 0, &fields, Some(-1)),
        Err(Error::IntegerConversion)
    ));
    assert_eq!(hints.current_field_length(), None);
    let plain_fields = vec![plain("count"), plain("payload")];
    let mut writer = BitWriter::new(settings.byte_order);
    write_prefix_at(&-1i8, 0, &plain_fields, &mut writer, &settings, &mut hints).unwrap();
    assert_eq!(writer.into_bytes(), vec![0xff]);
}

#[test]
fn an_aligned_text_takes_its_length_from_an_earlier_field() {
    let fields = vec![
        plain("reason_length"),
        plain("version_number"),
        prefixed("reason", "reason_length", LengthPrefixKind::Bytes),
    ];
    let settings = Settings::default();
    let reason: Aligned<String, u64> = "hello world!".to_owned().into();
    let mut writer = BitWriter::new(settings.byte_order);
    let mut hints = Hints::default();
    hints.begin_fields();
    write_prefix_at(&12u8, 0, &fields, &mut writer, &settings, &mut hints).unwrap();
    write_field_at(&(11u32, 0xdeadbeefu32), 1, &fields, &mut writer, &settings, &mut hints)
        .unwrap();
    write_field_at(&reason, 2, &fields, &mut writer, &settings, &mut hints).unwrap();
    let bytes = writer.into_bytes();
    assert_eq!(
        &[
            12, // reason length
            0, 0, 0, 11, 0xde, 0xad, 0xbe, 0xef, // version number
            b'h', b'e', b'l', b'l', b'o', b' ', b'w', b'o', b'r', b'l', b'd', b'!', 0x00, 0x00,
            0x00, 0x00, // padding bytes to align the string to 16 bytes
        ],
        &bytes[..]
    );
    let mut reader = BitReader::new(bytes, settings.byte_order);
    let mut hints = Hints::default();
    hints.begin_fields();
    let length: u8 = read_prefix_at(0, &fields, &mut reader, &settings, &mut hints).unwrap();
    let version: (u32, u32) =
        read_field_at(1, &fields, &mut reader, &settings, &mut hints).unwrap();
    let back: Aligned<String, u64> =
        read_field_at(2, &fields, &mut reader, &settings, &mut hints).unwrap();
    assert_eq!((length, version, back.value.as_str()), (12, (11, 0xdeadbeef), "hello world!"));
    assert_eq!(reader.remaining_bits(), 0);
}

#[test]
fn a_field_that_runs_to_the_end_must_be_the_last() {
    let flexible =
        |name: &str| Field { name: name.to_string(), attr: FieldAttr::FlexibleArrayMember };
    assert!(validate_fields(&[plain("a"), flexible("rest")]).is_ok());
    assert!(validate_fields(&[flexible("rest")]).is_ok());
    let fields = [flexible("rest"), plain("a")];
    assert!(matches!(validate_fields(&fields), Err(Error::InvalidConfiguration)));
    assert!(matches!(length_prefix_of(1, &fields), Err(Error::InvalidConfiguration)));
    let fields = [plain("a"), flexible("rest")];
    let settings = Settings::default();
    let mut hints = Hints::default();
    hints.begin_fields();
    let mut reader = BitReader::new(vec![7, 0, 0, 0, 1, b'x'], settings.byte_order);
    let first: u8 = read_field_at(0, &fields, &mut reader, &settings, &mut hints).unwrap();
    assert_eq!(first, 7);
    let rest: Result<String, Error> =
        read_field_at(1, &fields, &mut reader, &settings, &mut hints);
    assert!(matches!(rest, Err(Error::InvalidConfiguration)));
    assert_eq!(reader.remaining_bits(), 40);
    assert_eq!(hints.current_field_index, Some(1));
}

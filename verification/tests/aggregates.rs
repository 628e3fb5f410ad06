use bin_proto::aggregate::{read_fields, write_fields, Kind, NumberType, Value};
use bin_proto::error::Error;
use bin_proto::fields::{Field, FieldAttr};
use bin_proto::hint::LengthPrefixKind;
use bin_proto::settings::{ByteOrder, Settings};
use bin_proto::stream::{BitReader, BitWriter};

const BIG: Settings = Settings { byte_order: ByteOrder::BigEndian };
const LITTLE: Settings = Settings { byte_order: ByteOrder::LittleEndian };

fn field(name: &str, attr: FieldAttr) -> Field {
    Field { name: name.to_string(), attr }
}

fn length_from(name: &str, kind: LengthPrefixKind) -> FieldAttr {
    FieldAttr::LengthPrefix { kind, prefix_field_name: name.to_string() }
}

fn bytes_of(
    fields: &[Field],
    kinds: &[Kind],
    values: &[Value],
    settings: &Settings,
) -> Result<Vec<u8>, Error> {
    let mut writer = BitWriter::new(settings.byte_order);
    write_fields(fields, kinds, values, &mut writer, settings)?;
    writer.byte_align();
    Ok(writer.into_bytes())
}

fn values_of(
    fields: &[Field],
    kinds: &[Kind],
    bytes: &[u8],
    settings: &Settings,
) -> Result<Vec<Value>, Error> {
    let mut reader = BitReader::new(bytes.to_vec(), settings.byte_order);
    read_fields(fields, kinds, &mut reader, settings)
}

fn same(a: &[Value], b: &[Value]) -> bool {
    a.len() == b.len()
        && a.iter().zip(b).all(|pair| match pair {
            (Value::Number(x), Value::Number(y)) => x == y,
            (Value::Bool(x), Value::Bool(y)) => x == y,
            (Value::Bytes(x), Value::Bytes(y)) => x == y,
            (Value::Text(x), Value::Text(y)) => x == y,
            _ => false,
        })
}

#[test]
fn a_payload_counted_by_another_field_has_no_count_of_its_own() {
    for kind in [LengthPrefixKind::Elements, LengthPrefixKind::Bytes] {
        let fields =
            [field("count", FieldAttr::Plain), field("payload", length_from("count", kind))];
        let kinds = [Kind::Number(NumberType::U32), Kind::Bytes];
        let values = [Value::Number(3), Value::Bytes(vec![7, 8, 9])];
        let bytes = bytes_of(&fields, &kinds, &values, &BIG).unwrap();
        assert_eq!(bytes, vec![0, 0, 0, 3, 7, 8, 9]);
        assert!(same(&values_of(&fields, &kinds, &bytes, &BIG).unwrap(), &values));
        let bytes = bytes_of(&fields, &kinds, &values, &LITTLE).unwrap();
        assert_eq!(bytes, vec![3, 0, 0, 0, 7, 8, 9]);
        assert!(same(&values_of(&fields, &kinds, &bytes, &LITTLE).unwrap(), &values));
    }
}

#[test]
fn a_payload_with_no_field_for_its_length_brings_its_own_count() {
    let fields = [field("count", FieldAttr::Plain), field("payload", FieldAttr::Plain)];
    let kinds = [Kind::Number(NumberType::U8), Kind::Bytes];
    let values = [Value::Number(200), Value::Bytes(vec![7, 8])];
    let bytes = bytes_of(&fields, &kinds, &values, &BIG).unwrap();
    assert_eq!(bytes, vec![200, 0, 0, 0, 2, 7, 8]);
    assert!(same(&values_of(&fields, &kinds, &bytes, &BIG).unwrap(), &values));
}

#[test]
fn a_text_counted_in_bytes_by_an_earlier_field() {
    let fields = [
        field("reason_length", FieldAttr::Plain),
        field("version", FieldAttr::Plain),
        field("reason", length_from("reason_length", LengthPrefixKind::Bytes)),
        field("more", FieldAttr::Plain),
    ];
    let kinds =
        [Kind::Number(NumberType::U8), Kind::Number(NumberType::I16), Kind::Text, Kind::Bool];
    let values = [
        Value::Number(6),
        Value::Number(-2),
        Value::Text("héllo".to_string()),
        Value::Bool(true),
    ];
    let bytes = bytes_of(&fields, &kinds, &values, &BIG).unwrap();
    assert_eq!(bytes, vec![6, 0xff, 0xfe, b'h', 0xc3, 0xa9, b'l', b'l', b'o', 1]);
    assert!(same(&values_of(&fields, &kinds, &bytes, &BIG).unwrap(), &values));
    let cut =
        values_of(&fields, &kinds, &[4, 0, 0, b'h', 0xc3, 0xa9, b'l', 0, 9], &BIG).unwrap();
    assert!(same(
        &cut,
        &[Value::Number(4), Value::Number(0), Value::Text("hél".to_string()), Value::Bool(false)]
    ));
    let short = values_of(&fields, &kinds, &[5, 0, 0, b'h', 0xc3, 0xa9, b'l', b'l'], &BIG);
    assert!(matches!(short, Err(Error::Io)));
    let broken = values_of(&fields, &kinds, &[2, 0, 0, b'h', 0xc3, 0xa9, 1], &BIG);
    assert!(matches!(broken, Err(Error::Utf8)));
}

#[test]
fn bit_fields_are_packed_into_bytes() {
    let fields = [
        field("version", FieldAttr::BitField(4)),
        field("urgent", FieldAttr::BitField(1)),
        field("kind", FieldAttr::BitField(3)),
        field("id", FieldAttr::Plain),
    ];
    let kinds = [
        Kind::Number(NumberType::U8),
        Kind::Bool,
        Kind::Number(NumberType::U16),
        Kind::Number(NumberType::U16),
    ];
    let values = [Value::Number(0xa), Value::Bool(true), Value::Number(5), Value::Number(0x1234)];
    let bytes = bytes_of(&fields, &kinds, &values, &BIG).unwrap();
    assert_eq!(bytes, vec![0xad, 0x12, 0x34]);
    assert!(same(&values_of(&fields, &kinds, &bytes, &BIG).unwrap(), &values));
    let bytes = bytes_of(&fields, &kinds, &values, &LITTLE).unwrap();
    assert_eq!(bytes, vec![0xba, 0x34, 0x12]);
    assert!(same(&values_of(&fields, &kinds, &bytes, &LITTLE).unwrap(), &values));
}

#[test]
fn a_trailing_text_runs_to_the_end() {
    let fields = [field("id", FieldAttr::Plain), field("rest", FieldAttr::FlexibleArrayMember)];
    let kinds = [Kind::Number(NumberType::U8), Kind::Text];
    let values = [Value::Number(1), Value::Text("tail".to_string())];
    let bytes = bytes_of(&fields, &kinds, &values, &BIG).unwrap();
    assert_eq!(bytes, vec![1, b't', b'a', b'i', b'l']);
    assert!(same(&values_of(&fields, &kinds, &bytes, &BIG).unwrap(), &values));
    let kinds = [Kind::Number(NumberType::U8), Kind::Bytes];
    let values = [Value::Number(1), Value::Bytes(vec![9, 9])];
    let bytes = bytes_of(&fields, &kinds, &values, &BIG).unwrap();
    assert_eq!(bytes, vec![1, 9, 9]);
    assert!(same(&values_of(&fields, &kinds, &bytes, &BIG).unwrap(), &values));
}

#[test]
fn a_wrong_declaration_is_found_before_the_stream_is_touched() {
    let fields = [field("n", FieldAttr::Plain), field(
        "payload",
        length_from("size", LengthPrefixKind::Bytes),
    )];
    let kinds = [Kind::Number(NumberType::U8), Kind::Bytes];
    let mut reader = BitReader::new(vec![1, 2, 3], ByteOrder::BigEndian);
    let read = read_fields(&fields, &kinds, &mut reader, &BIG);
    assert!(matches!(read, Err(Error::InvalidConfiguration)));
    assert_eq!(reader.remaining_bits(), 24);
    let mut writer = BitWriter::new(ByteOrder::BigEndian);
    let values = [Value::Number(1), Value::Bytes(vec![2])];
    let written = write_fields(&fields, &kinds, &values, &mut writer, &BIG);
    assert!(matches!(written, Err(Error::InvalidConfiguration)));
    assert_eq!(writer.into_bytes(), Vec::<u8>::new());
    let fields = [field("n", FieldAttr::Plain)];
    let mut reader = BitReader::new(vec![1, 2, 3], ByteOrder::BigEndian);
    assert!(matches!(
        read_fields(&fields, &kinds, &mut reader, &BIG),
        Err(Error::InvalidConfiguration)
    ));
    assert_eq!(reader.remaining_bits(), 24);
}

#[test]
fn values_must_be_of_the_kinds_of_their_fields() {
    let fields = [field("n", FieldAttr::Plain)];
    let kinds = [Kind::Number(NumberType::U8)];
    let wrong = bytes_of(&fields, &kinds, &[Value::Bool(true)], &BIG);
    assert!(matches!(wrong, Err(Error::InvalidConfiguration)));
    let many = bytes_of(&fields, &kinds, &[Value::Number(1), Value::Number(2)], &BIG);
    assert!(matches!(many, Err(Error::InvalidConfiguration)));
    let large = bytes_of(&fields, &kinds, &[Value::Number(256)], &BIG);
    assert!(matches!(large, Err(Error::IntegerConversion)));
    let negative = bytes_of(&fields, &kinds, &[Value::Number(-1)], &BIG);
    assert!(matches!(negative, Err(Error::IntegerConversion)));
    let fields = [field("n", FieldAttr::BitField(3))];
    let wide = bytes_of(&fields, &kinds, &[Value::Number(8)], &BIG);
    assert!(matches!(wide, Err(Error::Io)));
    let signed = bytes_of(&fields, &[Kind::Number(NumberType::I8)], &[Value::Number(1)], &BIG);
    assert!(matches!(signed, Err(Error::InvalidConfiguration)));
    let text = bytes_of(&fields, &[Kind::Text], &[Value::Text("x".to_string())], &BIG);
    assert!(matches!(text, Err(Error::InvalidConfiguration)));
    let bytes = values_of(&fields, &[Kind::Bytes], &[0, 0, 0, 0], &BIG);
    assert!(matches!(bytes, Err(Error::InvalidConfiguration)));
}

#[test]
fn every_number_type_has_its_width() {
    let types = [
        (NumberType::U8, 1, 0xffi128),
        (NumberType::U16, 2, 0xffff),
        (NumberType::U32, 4, 0xffff_ffff),
        (NumberType::U64, 8, u64::MAX as i128),
        (NumberType::I8, 1, -0x80),
        (NumberType::I16, 2, -0x8000),
        (NumberType::I32, 4, i32::MIN as i128),
        (NumberType::I64, 8, i64::MIN as i128),
    ];
    for (ty, size, value) in types {
        for settings in [BIG, LITTLE] {
            let fields = [field("n", FieldAttr::Plain)];
            let kinds = [Kind::Number(ty)];
            let values = [Value::Number(value)];
            let bytes = bytes_of(&fields, &kinds, &values, &settings).unwrap();
            assert_eq!(bytes.len(), size);
            assert!(same(&values_of(&fields, &kinds, &bytes, &settings).unwrap(), &values));
        }
    }
}

#[test]
fn an_aggregate_without_fields_takes_no_bits() {
    assert_eq!(bytes_of(&[], &[], &[], &BIG).unwrap(), Vec::<u8>::new());
    assert_eq!(values_of(&[], &[], &[1, 2], &BIG).unwrap().len(), 0);
}

#[test]
fn a_count_that_is_no_length_is_an_integer_conversion_error() {
    let fields = [
        field("count", FieldAttr::Plain),
        field("payload", length_from("count", LengthPrefixKind::Elements)),
    ];
    let kinds = [Kind::Number(NumberType::I8), Kind::Bytes];
    let values = [Value::Number(-1), Value::Bytes(vec![5])];
    let mut writer = BitWriter::new(ByteOrder::BigEndian);
    let wrote = write_fields(&fields, &kinds, &values, &mut writer, &BIG);
    assert!(matches!(wrote, Err(Error::IntegerConversion)));
    assert_eq!(writer.into_bytes(), Vec::<u8>::new());
    let read = values_of(&fields, &kinds, &[0xff, 5], &BIG);
    assert!(matches!(read, Err(Error::IntegerConversion)));
}

#[test]
fn a_length_must_come_from_a_number() {
    let fields = [
        field("count", FieldAttr::Plain),
        field("payload", length_from("count", LengthPrefixKind::Elements)),
    ];
    let kinds = [Kind::Text, Kind::Bytes];
    let mut reader = BitReader::new(vec![0, 0, 0, 0, 5], ByteOrder::BigEndian);
    let read = read_fields(&fields, &kinds, &mut reader, &BIG);
    assert!(matches!(read, Err(Error::InvalidConfiguration)));
    assert_eq!(reader.remaining_bits(), 40);
    let values = [Value::Text(String::new()), Value::Bytes(vec![5])];
    assert!(matches!(bytes_of(&fields, &kinds, &values, &BIG), Err(Error::InvalidConfiguration)));
}

#[test]
fn a_bit_field_can_hold_a_length() {
    let fields = [
        field("count", FieldAttr::BitField(4)),
        field("flags", FieldAttr::BitField(4)),
        field("payload", length_from("count", LengthPrefixKind::Bytes)),
    ];
    let kinds = [Kind::Number(NumberType::U8), Kind::Number(NumberType::U8), Kind::Bytes];
    let values = [Value::Number(2), Value::Number(0xf), Value::Bytes(vec![7, 8])];
    let bytes = bytes_of(&fields, &kinds, &values, &BIG).unwrap();
    assert_eq!(bytes, vec![0x2f, 7, 8]);
    assert!(same(&values_of(&fields, &kinds, &bytes, &BIG).unwrap(), &values));
}

#[test]
fn a_text_that_runs_to_the_end_must_be_the_last_field() {
    let fields = [field("rest", FieldAttr::FlexibleArrayMember), field("id", FieldAttr::Plain)];
    let kinds = [Kind::Text, Kind::Number(NumberType::U8)];
    let mut reader = BitReader::new(vec![b'a', 1], ByteOrder::BigEndian);
    let read = read_fields(&fields, &kinds, &mut reader, &BIG);
    assert!(matches!(read, Err(Error::InvalidConfiguration)));
    assert_eq!(reader.remaining_bits(), 16);
    let values = [Value::Text("a".to_string()), Value::Number(1)];
    assert!(matches!(bytes_of(&fields, &kinds, &values, &BIG), Err(Error::InvalidConfiguration)));
}

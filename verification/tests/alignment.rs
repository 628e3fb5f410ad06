use bin_proto::error::Error;
use bin_proto::hint::{Hints, LengthPrefixKind};
use bin_proto::protocol::Protocol;
use bin_proto::settings::{ByteOrder, Settings};
use bin_proto::stream::{BitReader, BitWriter};
use bin_proto::types::aligned::{align_to, calculate_padding, Aligned};

#[test]
fn test_aligning_when_none_needed() {
    assert_eq!(vec![1, 2], align_to(1, 0x00, vec![1, 2]));
    assert_eq!(vec![1, 2], align_to(2, 0x00, vec![1, 2]));
}

#[test]
fn test_align_to_3_with_size_2() {
    assert_eq!(vec![1, 2, 0], align_to(3, 0x00, vec![1, 2]));
}

#[test]
fn test_align_to_4_with_size_2() {
    assert_eq!(vec![1, 2, 0xff, 0xff], align_to(4, 0xff, vec![1, 2]));
}

#[test]
fn test_align_to_3_with_size_5() {
    assert_eq!(vec![1, 2, 3, 4, 5, 0], align_to(3, 0x00, vec![1, 2, 3, 4, 5]));
}

#[test]
fn test_align_to_4_with_size_97() {
    let unaligned = [1; 97];
    let aligned = align_to(4, 0x00, unaligned.to_vec());

    let count_ones = aligned.iter().filter(|&&i| i == 1).count();
    let count_zeros = aligned.iter().filter(|&&i| i == 0).count();

    assert_eq!(97, count_ones);
    assert_eq!(3, count_zeros);
}

#[test]
fn padding_follows_the_formula() {
    assert_eq!(calculate_padding(4, 0), 0);
    assert_eq!(calculate_padding(4, 1), 3);
    assert_eq!(calculate_padding(4, 4), 0);
    assert_eq!(calculate_padding(8, 13), 3);
    assert_eq!(calculate_padding(1, 13), 0);
}

#[test]
fn aligned_values_are_padded_with_zero_bytes() {
    let settings = Settings::default();
    let value: Aligned<String, u64> = Aligned::new("hello world!".to_owned());
    let bytes = value.bytes(&settings).unwrap();
    assert_eq!(
        bytes,
        vec![
            0, 0, 0, 12, b'h', b'e', b'l', b'l', b'o', b' ', b'w', b'o', b'r', b'l', b'd', b'!'
        ]
    );
    let value: Aligned<u16, u32> = Aligned::new(0x0102);
    assert_eq!(value.bytes(&settings).unwrap(), vec![1, 2, 0, 0]);
    let little = Settings { byte_order: ByteOrder::LittleEndian };
    assert_eq!(value.bytes(&little).unwrap(), vec![2, 1, 0, 0]);
    let value: Aligned<Vec<u8>, u64> = Aligned::new(vec![9, 9, 9, 9, 9]);
    assert_eq!(
        value.bytes(&settings).unwrap(),
        vec![0, 0, 0, 5, 9, 9, 9, 9, 9, 0, 0, 0, 0, 0, 0, 0]
    );
    let value: Aligned<u8, u8> = Aligned::new(7);
    assert_eq!(value.bytes(&settings).unwrap(), vec![7]);
    assert_eq!(Aligned::<u8, u64>::alignment_bytes(), 8);
    assert_eq!(Aligned::<u8, u16>::alignment_bytes(), 2);
}

#[test]
fn aligned_values_are_read_back() {

    for settings in [
        Settings { byte_order: ByteOrder::BigEndian },
        Settings { byte_order: ByteOrder::LittleEndian },
    ] {
        let value: Aligned<String, u64> = Aligned::new("hello".to_owned());
        let bytes = value.bytes(&settings).unwrap();
        assert_eq!(bytes.len(), 16);
        let back = Aligned::<String, u64>::from_bytes(&bytes, &settings).unwrap();
        assert_eq!(back.value, "hello");
        let pair = (Aligned::<u8, u32>::new(1), 0x55u8);
        let bytes = pair.bytes(&settings).unwrap();
        assert_eq!(bytes, vec![1, 0, 0, 0, 0x55]);
        let back = <(Aligned<u8, u32>, u8)>::from_bytes(&bytes, &settings).unwrap();
        assert_eq!((back.0.value, back.1), (1, 0x55));
    }
}

#[test]
fn padding_that_is_not_zero_is_refused() {
    let settings = Settings::default();
    let read = Aligned::<u8, u32>::from_bytes(&[1, 0, 0, 1], &settings);
    assert!(matches!(read, Err(Error::NonZeroPadding)));
    let read = Aligned::<u8, u32>::from_bytes(&[1, 2, 0, 0], &settings);
    assert!(matches!(read, Err(Error::NonZeroPadding)));
    let read = Aligned::<u8, u32>::from_bytes(&[1, 0, 0], &settings);
    assert!(matches!(read, Err(Error::Io)));
    let read = Aligned::<u8, u32>::from_bytes(&[1, 0, 0, 0], &settings).unwrap();
    assert_eq!(read.value, 1);
}

#[test]
fn a_unit_of_no_bytes_is_a_configuration_error() {
    let settings = Settings::default();
    let value: Aligned<u8, ()> = Aligned::new(7);
    assert!(matches!(value.bytes(&settings), Err(Error::InvalidConfiguration)));
    let read = Aligned::<u8, ()>::from_bytes(&[7], &settings);
    assert!(matches!(read, Err(Error::InvalidConfiguration)));
}

#[test]
fn an_aligned_value_under_an_announced_length_has_no_count() {
    let settings = Settings::default();
    let mut hints = Hints::default();
    hints.begin_fields();
    hints.set_field_length(0, 12, LengthPrefixKind::Bytes);
    let value: Aligned<String, u64> = Aligned::new("hello world!".to_owned());
    let mut writer = BitWriter::new(settings.byte_order);
    value.write_field(&mut writer, &settings, &mut hints).unwrap();
    let bytes = writer.into_bytes();
    assert_eq!(bytes, b"hello world!\0\0\0\0".to_vec());
    let mut reader = BitReader::new(bytes, settings.byte_order);
    let back = Aligned::<String, u64>::read_field(&mut reader, &settings, &mut hints).unwrap();
    assert_eq!(back.value, "hello world!");
    assert_eq!(reader.remaining_bits(), 0);
    let mut reader = BitReader::new(
        b"hello world!\0\0\x01\0".to_vec(),
        settings.byte_order,
    );
    let bad = Aligned::<String, u64>::read_field(&mut reader, &settings, &mut hints);
    assert!(matches!(bad, Err(Error::NonZeroPadding)));
}

#[test]
fn aligned_values_are_read_back_on_a_stream_of_the_other_order() {
    let settings = Settings { byte_order: ByteOrder::LittleEndian };
    let value: Aligned<u16, u32> = Aligned::new(0x0102);
    let mut writer = BitWriter::new(ByteOrder::BigEndian);
    value.write(&mut writer, &settings).unwrap();
    let bytes = writer.into_bytes();
    assert_eq!(bytes, vec![2, 1, 0, 0]);
    let mut reader = BitReader::new(bytes, ByteOrder::BigEndian);
    assert_eq!(Aligned::<u16, u32>::read(&mut reader, &settings).unwrap().value, 0x0102);
    assert_eq!(reader.remaining_bits(), 0);
}

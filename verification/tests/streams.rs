use bin_proto::error::Error;
use bin_proto::settings::ByteOrder;
use bin_proto::stream::{BitReader, BitWriter};

#[test]
fn big_endian_reader_takes_the_most_significant_bit_first() {
    let mut reader = BitReader::new(vec![0b10110111], ByteOrder::BigEndian);
    assert_eq!(reader.read_bits(1).unwrap(), 0b1);
    assert_eq!(reader.read_bits(2).unwrap(), 0b01);
    assert_eq!(reader.read_bits(5).unwrap(), 0b10111);
}

#[test]
fn little_endian_reader_takes_the_least_significant_bit_first() {
    let mut reader = BitReader::new(vec![0b10110111], ByteOrder::LittleEndian);
    assert_eq!(reader.read_bits(1).unwrap(), 0b1);
    assert_eq!(reader.read_bits(2).unwrap(), 0b11);
    assert_eq!(reader.read_bits(5).unwrap(), 0b10110);
}

#[test]
fn reader_reads_numbers_across_bytes() {
    let data = vec![0x12, 0x34, 0x56, 0x78, 0x9a, 0xbc, 0xde, 0xf0];
    let mut reader = BitReader::new(data.clone(), ByteOrder::BigEndian);
    assert_eq!(reader.read_bits(64).unwrap(), 0x1234_5678_9abc_def0);
    let mut reader = BitReader::new(data.clone(), ByteOrder::LittleEndian);
    assert_eq!(reader.read_bits(64).unwrap(), 0xf0de_bc9a_7856_3412);
    let mut reader = BitReader::new(data.clone(), ByteOrder::BigEndian);
    assert_eq!(reader.read_bits(4).unwrap(), 0x1);
    assert_eq!(reader.read_bits(16).unwrap(), 0x2345);
    assert_eq!(reader.read_bits(12).unwrap(), 0x678);
    let mut reader = BitReader::new(data, ByteOrder::LittleEndian);
    assert_eq!(reader.read_bits(4).unwrap(), 0x2);
    assert_eq!(reader.read_bits(16).unwrap(), 0x6341);
    assert_eq!(reader.read_bits(12).unwrap(), 0x785);
}

#[test]
fn reader_fails_where_the_bits_run_out() {
    let mut reader = BitReader::new(vec![0xff], ByteOrder::BigEndian);
    assert_eq!(reader.read_bits(7).unwrap(), 0x7f);
    assert!(matches!(reader.read_bits(2), Err(Error::Io)));
    let mut reader = BitReader::new(vec![], ByteOrder::LittleEndian);
    assert!(matches!(reader.read_u8(), Err(Error::Io)));
    let mut reader = BitReader::new(vec![1, 2], ByteOrder::LittleEndian);
    assert!(matches!(reader.read_bytes(3), Err(Error::Io)));
}

#[test]
fn a_failed_read_is_the_last() {
    let mut reader = BitReader::new(vec![0xab, 0xcd], ByteOrder::BigEndian);
    assert_eq!(reader.read_bits(4).unwrap(), 0xa);
    assert!(matches!(reader.read_bits(16), Err(Error::Io)));
    assert_eq!(reader.remaining_bits(), 0);
    assert!(matches!(reader.read_bits(1), Err(Error::Io)));
    assert!(matches!(reader.read_u8(), Err(Error::Io)));
    assert_eq!(reader.read_bytes(0).unwrap(), Vec::<u8>::new());
}

#[test]
fn reader_counts_what_is_left() {
    let mut reader = BitReader::new(vec![1, 2, 3], ByteOrder::BigEndian);
    assert_eq!(reader.remaining_bits(), 24);
    reader.read_bits(5).unwrap();
    assert_eq!(reader.remaining_bits(), 19);
    assert_eq!(reader.read_bytes(2).unwrap(), vec![0x20, 0x40]);
    assert_eq!(reader.remaining_bits(), 3);
    reader.read_bits(3).unwrap();
    assert_eq!(reader.remaining_bits(), 0);
}

#[test]
fn reader_reads_whole_bytes() {
    let mut reader = BitReader::new(vec![9, 8, 7], ByteOrder::LittleEndian);
    assert_eq!(reader.read_u8().unwrap(), 9);
    assert_eq!(reader.read_bytes(2).unwrap(), vec![8, 7]);
    assert_eq!(reader.read_bytes(0).unwrap(), Vec::<u8>::new());
}

#[test]
fn big_endian_writer_fills_a_byte_from_the_top() {
    let mut writer = BitWriter::new(ByteOrder::BigEndian);
    writer.write_bits(1, 0b1).unwrap();
    writer.write_bits(2, 0b01).unwrap();
    writer.write_bits(5, 0b10111).unwrap();
    assert_eq!(writer.into_bytes(), vec![0b10110111]);
}

#[test]
fn little_endian_writer_fills_a_byte_from_the_bottom() {
    let mut writer = BitWriter::new(ByteOrder::LittleEndian);
    writer.write_bits(1, 0b1).unwrap();
    writer.write_bits(2, 0b11).unwrap();
    writer.write_bits(5, 0b10110).unwrap();
    assert_eq!(writer.into_bytes(), vec![0b10110111]);
}

#[test]
fn writer_writes_numbers_across_bytes() {
    let mut writer = BitWriter::new(ByteOrder::BigEndian);
    writer.write_bits(64, 0x1234_5678_9abc_def0).unwrap();
    assert_eq!(writer.into_bytes(), vec![0x12, 0x34, 0x56, 0x78, 0x9a, 0xbc, 0xde, 0xf0]);
    let mut writer = BitWriter::new(ByteOrder::LittleEndian);
    writer.write_bits(64, 0x1234_5678_9abc_def0).unwrap();
    assert_eq!(writer.into_bytes(), vec![0xf0, 0xde, 0xbc, 0x9a, 0x78, 0x56, 0x34, 0x12]);
    let mut writer = BitWriter::new(ByteOrder::BigEndian);
    writer.write_bits(4, 0x1).unwrap();
    writer.write_bytes(&[0x23, 0x45]);
    writer.write_bits(4, 0x6).unwrap();
    assert_eq!(writer.into_bytes(), vec![0x12, 0x34, 0x56]);
}

#[test]
fn writer_pads_with_zero_bits_to_a_byte() {
    let mut writer = BitWriter::new(ByteOrder::BigEndian);
    writer.write_bits(1, 1).unwrap();
    writer.byte_align();
    writer.write_u8(0xff);
    writer.byte_align();
    assert_eq!(writer.into_bytes(), vec![0x80, 0xff]);
    let mut writer = BitWriter::new(ByteOrder::LittleEndian);
    writer.write_bits(3, 0b101).unwrap();
    writer.byte_align();
    assert_eq!(writer.into_bytes(), vec![0b0000_0101]);
}

#[test]
fn writer_leaves_out_an_unfinished_byte() {
    let mut writer = BitWriter::new(ByteOrder::BigEndian);
    writer.write_u8(7);
    writer.write_bits(3, 0b111).unwrap();
    assert_eq!(writer.into_bytes(), vec![7]);
    let writer = BitWriter::new(ByteOrder::LittleEndian);
    assert_eq!(writer.into_bytes(), Vec::<u8>::new());
}

#[test]
fn what_is_written_is_read_back_bit_by_bit() {
    for order in [ByteOrder::BigEndian, ByteOrder::LittleEndian] {
        let mut writer = BitWriter::new(order);
        writer.write_bits(3, 5).unwrap();
        writer.write_bits(13, 0x1abc).unwrap();
        writer.write_bits(33, 0x1_2345_6789).unwrap();
        writer.write_bits(7, 0x55).unwrap();
        writer.byte_align();
        let mut reader = BitReader::new(writer.into_bytes(), order);
        assert_eq!(reader.read_bits(3).unwrap(), 5);
        assert_eq!(reader.read_bits(13).unwrap(), 0x1abc);
        assert_eq!(reader.read_bits(33).unwrap(), 0x1_2345_6789);
        assert_eq!(reader.read_bits(7).unwrap(), 0x55);
        assert_eq!(reader.remaining_bits(), 0);
    }
}

#[test]
fn widths_beyond_a_number_are_refused() {
    let mut reader = BitReader::new(vec![0xff; 16], ByteOrder::BigEndian);
    assert_eq!(reader.read_bits(0).unwrap(), 0);
    assert_eq!(reader.remaining_bits(), 128);
    assert!(matches!(reader.read_bits(65), Err(Error::Io)));
    assert_eq!(reader.read_bits(64).unwrap(), u64::MAX);
    let mut writer = BitWriter::new(ByteOrder::BigEndian);
    assert!(matches!(writer.write_bits(65, 0), Err(Error::Io)));
    assert!(matches!(writer.write_bits(3, 8), Err(Error::Io)));
    assert!(matches!(writer.write_bits(0, 1), Err(Error::Io)));
    writer.write_bits(0, 0).unwrap();
    writer.write_bits(3, 7).unwrap();
    writer.write_bits(5, 0).unwrap();
    assert_eq!(writer.into_bytes(), vec![0xe0]);
}

#[test]
fn reader_knows_whether_it_stands_on_a_byte_boundary() {
    let mut reader = BitReader::new(vec![0xff, 0x00], ByteOrder::LittleEndian);
    assert!(reader.byte_aligned());
    reader.read_bits(3).unwrap();
    assert!(!reader.byte_aligned());
    reader.read_bits(5).unwrap();
    assert!(reader.byte_aligned());
    reader.read_bits(8).unwrap();
    assert!(reader.byte_aligned());
}

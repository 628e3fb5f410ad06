use bin_proto::discriminant::{
    assign_discriminants, implicit_discriminants, read_named_variant, read_variant,
    write_named_variant, write_variant,
};
use bin_proto::error::{Discriminant, Error};
use bin_proto::protocol::Protocol;
use bin_proto::settings::{ByteOrder, Settings};
use bin_proto::stream::{BitReader, BitWriter};

fn names(names: &[&str]) -> Vec<String> {
    names.iter().map(|name| name.to_string()).collect()
}

#[derive(Debug, PartialEq)]
pub enum Axis {
    X,
    Y,
    Z,
    Other(String),
    Bimp { val: u64 },
}

fn axis_names() -> Vec<String> {
    names(&["X", "Y", "Z", "Other", "Bimp"])
}

fn read_axis(read: &mut BitReader, settings: &Settings) -> Result<Axis, Error> {
    Ok(match read_named_variant(&axis_names(), read, settings)? {
        0 => Axis::X,
        1 => Axis::Y,
        2 => Axis::Z,
        3 => Axis::Other(String::read(read, settings)?),
        _ => Axis::Bimp { val: u64::read(read, settings)? },
    })
}

fn write_axis(
    value: &Axis,
    write: &mut BitWriter,
    settings: &Settings,
) -> Result<(), Error> {
    let variant = match value {
        Axis::X => 0,
        Axis::Y => 1,
        Axis::Z => 2,
        Axis::Other(..) => 3,
        Axis::Bimp { .. } => 4,
    };
    write_named_variant(&axis_names(), variant, write, settings)?;
    match value {
        Axis::Other(text) => text.write(write, settings),
        Axis::Bimp { val } => val.write(write, settings),
        _ => Ok(()),
    }
}

#[derive(Debug, PartialEq)]
pub enum RenamedVariant {
    Hello,
    World,
}

fn renamed_names() -> Vec<String> {
    names(&["Hello", "Universe"])
}

fn read_renamed_variant(read: &mut BitReader, settings: &Settings) -> Result<RenamedVariant, Error> {
    Ok(match read_named_variant(&renamed_names(), read, settings)? {
        0 => RenamedVariant::Hello,
        _ => RenamedVariant::World,
    })
}

fn write_renamed_variant(
    value: &RenamedVariant,
    write: &mut BitWriter,
    settings: &Settings,
) -> Result<(), Error> {
    let variant = match value {
        RenamedVariant::Hello => 0,
        RenamedVariant::World => 1,
    };
    write_named_variant(&renamed_names(), variant, write, settings)
}

#[derive(Debug, PartialEq, Eq)]
pub enum BoatKind {
    Speedboat { warp_speed_enabled: bool },
    Dingy(u8, u8),
    Fart,
}

fn read_boat_kind(read: &mut BitReader, settings: &Settings) -> Result<BoatKind, Error> {
    let tags = implicit_discriminants(3);
    Ok(match read_variant::<u32>(&tags, read, settings)? {
        0 => BoatKind::Speedboat { warp_speed_enabled: bool::read(read, settings)? },
        1 => BoatKind::Dingy(u8::read(read, settings)?, u8::read(read, settings)?),
        _ => BoatKind::Fart,
    })
}

fn write_boat_kind(
    value: &BoatKind,
    write: &mut BitWriter,
    settings: &Settings,
) -> Result<(), Error> {
    let tags = implicit_discriminants(3);
    match value {
        BoatKind::Speedboat { warp_speed_enabled } => {
            write_variant::<u32>(&tags, 0, write, settings)?;
            warp_speed_enabled.write(write, settings)
        }
        BoatKind::Dingy(a, b) => {
            write_variant::<u32>(&tags, 1, write, settings)?;
            a.write(write, settings)?;
            b.write(write, settings)
        }
        BoatKind::Fart => write_variant::<u32>(&tags, 2, write, settings),
    }
}

#[derive(Debug, PartialEq, Eq)]
enum WithCustomRepr {
    First,
    Second,
}

fn read_with_custom_repr(read: &mut BitReader, settings: &Settings) -> Result<WithCustomRepr, Error> {
    let tags = assign_discriminants(&[Some(1), Some(2)])?;
    Ok(match read_variant::<u8>(&tags, read, settings)? {
        0 => WithCustomRepr::First,
        _ => WithCustomRepr::Second,
    })
}

fn write_with_custom_repr(
    value: &WithCustomRepr,
    write: &mut BitWriter,
    settings: &Settings,
) -> Result<(), Error> {
    let tags = assign_discriminants(&[Some(1), Some(2)])?;
    let variant = match value {
        WithCustomRepr::First => 0,
        WithCustomRepr::Second => 1,
    };
    write_variant::<u8>(&tags, variant, write, settings)
}

#[derive(Debug, PartialEq)]
pub enum CustomDiscriminantAttrs {
    Hello,
    World,
}

fn read_custom_discriminant_attrs(read: &mut BitReader, settings: &Settings) -> Result<CustomDiscriminantAttrs, Error> {
    let tags = assign_discriminants(&[Some(255), Some(122)])?;
    Ok(match read_variant::<u8>(&tags, read, settings)? {
        0 => CustomDiscriminantAttrs::Hello,
        _ => CustomDiscriminantAttrs::World,
    })
}

fn write_custom_discriminant_attrs(
    value: &CustomDiscriminantAttrs,
    write: &mut BitWriter,
    settings: &Settings,
) -> Result<(), Error> {
    let tags = assign_discriminants(&[Some(255), Some(122)])?;
    let variant = match value {
        CustomDiscriminantAttrs::Hello => 0,
        CustomDiscriminantAttrs::World => 1,
    };
    write_variant::<u8>(&tags, variant, write, settings)
}

#[derive(Debug, PartialEq, Eq)]
enum WithoutExplicitDiscriminants {
    Only,
}

fn read_without_explicit_discriminants(read: &mut BitReader, settings: &Settings) -> Result<WithoutExplicitDiscriminants, Error> {
    let tags = assign_discriminants(&[None])?;
    read_variant::<i8>(&tags, read, settings)?;
    Ok(WithoutExplicitDiscriminants::Only)
}

fn write_without_explicit_discriminants(
    _: &WithoutExplicitDiscriminants,
    write: &mut BitWriter,
    settings: &Settings,
) -> Result<(), Error> {
    let tags = assign_discriminants(&[None])?;
    write_variant::<i8>(&tags, 0, write, settings)
}

type Reader<T> = fn(&mut BitReader, &Settings) -> Result<T, Error>;
type Writer<T> = fn(&T, &mut BitWriter, &Settings) -> Result<(), Error>;

fn raw_bytes<T>(value: &T, write: Writer<T>, settings: &Settings) -> Result<Vec<u8>, Error> {
    let mut writer = BitWriter::new(settings.byte_order);
    write(value, &mut writer, settings)?;
    writer.byte_align();
    Ok(writer.into_bytes())
}

fn from_raw_bytes<T>(bytes: &[u8], read: Reader<T>, settings: &Settings) -> Result<T, Error> {
    let mut reader = BitReader::new(bytes.to_vec(), settings.byte_order);
    read(&mut reader, settings)
}

fn verify_read_back<T: PartialEq + std::fmt::Debug>(
    value: T,
    read: Reader<T>,
    write: Writer<T>,
    settings: &Settings,
) {
    let read_back =
        from_raw_bytes(&raw_bytes(&value, write, settings).unwrap()[..], read, settings).unwrap();
    assert_eq!(value, read_back);
}

fn verify_read_back_in_both_orders<T: PartialEq + std::fmt::Debug>(
    make: fn() -> T,
    read: Reader<T>,
    write: Writer<T>,
) {
    verify_read_back(make(), read, write, &Settings::default());
    verify_read_back(make(), read, write, &Settings { byte_order: ByteOrder::BigEndian });
    verify_read_back(make(), read, write, &Settings { byte_order: ByteOrder::LittleEndian });
}

#[test]
fn variant_names_are_discriminants() {
    let settings = Settings::default();
    assert_eq!(vec![0, 0, 0, 1, 'X' as u8], raw_bytes(&Axis::X, write_axis, &settings).unwrap());
    assert_eq!(
        vec![
            0, 0, 0, 5, 'O' as u8, 't' as u8, 'h' as u8, 'e' as u8, 'r' as u8, 0, 0, 0, 4,
            'r' as u8, 'o' as u8, 'l' as u8, 'l' as u8
        ],
        raw_bytes(&Axis::Other("roll".to_owned()), write_axis, &settings).unwrap()
    );
}

#[test]
fn mixed_enum_variants_can_be_read_back() {
    verify_read_back_in_both_orders(|| Axis::Other("boop".to_owned()), read_axis, write_axis);
    verify_read_back_in_both_orders(|| Axis::X, read_axis, write_axis);
    verify_read_back_in_both_orders(|| Axis::Y, read_axis, write_axis);
    verify_read_back_in_both_orders(|| Axis::Bimp { val: 77 }, read_axis, write_axis);
}

#[test]
fn renamed_variants_are_transmitted() {
    let settings = Settings::default();

    assert_eq!(
        vec![0, 0, 0, 5, 'H' as u8, 'e' as u8, 'l' as u8, 'l' as u8, 'o' as u8],
        raw_bytes(&RenamedVariant::Hello, write_renamed_variant, &settings).unwrap()
    );
    assert_eq!(
        vec![
            0, 0, 0, 8, 'U' as u8, 'n' as u8, 'i' as u8, 'v' as u8, 'e' as u8, 'r' as u8,
            's' as u8, 'e' as u8
        ],
        raw_bytes(&RenamedVariant::World, write_renamed_variant, &settings).unwrap()
    );
}

#[test]
fn variant_with_custom_name_can_be_read_back() {
    verify_read_back_in_both_orders(
        || RenamedVariant::World,
        read_renamed_variant,
        write_renamed_variant,
    );
}

#[test]
fn custom_discriminants_are_transmitted() {
    let settings = Settings::default();

    assert_eq!(vec![255], raw_bytes(&CustomDiscriminantAttrs::Hello, write_custom_discriminant_attrs, &settings).unwrap());
    assert_eq!(vec![122], raw_bytes(&CustomDiscriminantAttrs::World, write_custom_discriminant_attrs, &settings).unwrap());
}

#[test]
fn discriminant_zero_is_reserved() {
    assert_eq!(vec![1], raw_bytes(&WithoutExplicitDiscriminants::Only, write_without_explicit_discriminants, &Settings::default()).unwrap());
}

#[test]
fn named_fields_are_correctly_written() {
    assert_eq!(
        vec![0, 0, 0, 1, 1],
        raw_bytes(&BoatKind::Speedboat { warp_speed_enabled: true }, write_boat_kind, &Settings::default()).unwrap()
    );
}

#[test]
fn unnamed_fields_are_correctly_written() {
    assert_eq!(
        vec![
            0, 0, 0, 2, // discriminant
            0xf1, 0xed
        ],
        raw_bytes(&BoatKind::Dingy(0xf1, 0xed), write_boat_kind, &Settings::default()).unwrap()
    );
}

#[test]
fn unit_variants_are_correctly_written() {
    assert_eq!(
        vec![0, 0, 0, 3], // discriminant
        raw_bytes(&BoatKind::Fart, write_boat_kind, &Settings::default()).unwrap()
    );
}

#[test]
fn named_fields_are_correctly_read() {
    assert_eq!(
        BoatKind::Speedboat { warp_speed_enabled: true },
        from_raw_bytes(&[0, 0, 0, 1, 1], read_boat_kind, &Settings::default()).unwrap()
    );
}

#[test]
fn unnamed_fields_are_correctly_read() {
    assert_eq!(
        BoatKind::Dingy(99, 78),
        from_raw_bytes(&[0, 0, 0, 2, 99, 78], read_boat_kind, &Settings::default()).unwrap()
    );
}

#[test]
fn unit_variants_are_correctly_read() {
    assert_eq!(
        BoatKind::Fart,
        from_raw_bytes(&[0, 0, 0, 3], read_boat_kind, &Settings::default()).unwrap()
    );
}

#[test]
fn returns_error_on_unexpected_discriminant() {
    let result = from_raw_bytes(&[99, 99, 88, 11, 13], read_boat_kind, &Settings::default());
    match result {
        Err(Error::UnknownDiscriminant(..)) => (), // pass
        Err(unexpected_error) => {
            panic!("expected a different error but got: {:?}", unexpected_error)
        }
        Ok(res) => panic!("expected failure got: {:?}", res),
    }
}

#[test]
fn unexpected_discriminant_is_carried_in_the_error() {
    let result = from_raw_bytes(&[0, 0, 0, 9, 1], read_boat_kind, &Settings::default());
    match result {
        Err(Error::UnknownDiscriminant(Discriminant::Integer(tag))) => assert_eq!(tag, 9),
        other => panic!("expected an unknown discriminant, got: {:?}", other),
    }
    let result = from_raw_bytes(&[0, 0, 0, 1, 'W' as u8], read_axis, &Settings::default());
    match result {
        Err(Error::UnknownDiscriminant(Discriminant::Text(tag))) => assert_eq!(tag, "W"),
        other => panic!("expected an unknown discriminant, got: {:?}", other),
    }
}

#[test]
fn custom_int_discriminant_repr_is_respected() {
    assert_eq!(vec![1], raw_bytes(&WithCustomRepr::First, write_with_custom_repr, &Settings::default()).unwrap());
}

#[test]
fn tagged_unions_can_be_read_back() {
    verify_read_back_in_both_orders(|| BoatKind::Speedboat { warp_speed_enabled: true }, read_boat_kind, write_boat_kind);
    verify_read_back_in_both_orders(|| BoatKind::Dingy(0xf1, 0xed), read_boat_kind, write_boat_kind);
    verify_read_back_in_both_orders(|| BoatKind::Fart, read_boat_kind, write_boat_kind);
    verify_read_back_in_both_orders(|| WithCustomRepr::Second, read_with_custom_repr, write_with_custom_repr);
    verify_read_back_in_both_orders(|| CustomDiscriminantAttrs::Hello, read_custom_discriminant_attrs, write_custom_discriminant_attrs);
    verify_read_back_in_both_orders(|| WithoutExplicitDiscriminants::Only, read_without_explicit_discriminants, write_without_explicit_discriminants);
}

#[test]
fn duplicate_discriminants_are_refused() {
    match assign_discriminants(&[Some(2), None]) {
        Err(Error::InvalidConfiguration) => (),
        other => panic!("expected an invalid configuration, got: {:?}", other),
    }
    assert_eq!(assign_discriminants(&[None, Some(7), None]).unwrap(), vec![1, 7, 3]);
}

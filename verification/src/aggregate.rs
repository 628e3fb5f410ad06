//! Aggregates whose fields are known when the program runs.
//!
//! An aggregate is given by its fields in declaration order, each with what
//! is declared of it and the kind of value it holds. One pass reads or writes
//! all of them: it checks the declarations before it touches the stream, sets
//! the bit width before each field, announces after each field the length
//! that its value is for a later one, and moves on.

use crate::bit_field::BitField;
use crate::bits::bytes_bits;
use crate::error::{Error, Failure};
use crate::fields::{
    as_length, counted_payload, field_models, find_target, hints_after, hints_before,
    holds_length, length_of, length_prefix_target, move_on, named_before, placed,
    prefix_target,
    update_hints_before, validate_fields, well_configured, Field, FieldAttr, FieldModel,
};
use crate::hint::{FieldIndex, FieldLength, Hints, HintsModel, LengthPrefixKind};
use crate::number::lemma_spans;
use crate::protocol::{read_outcome, write_outcome, Context, Protocol};
use crate::settings::{ByteOrder, Settings};
use crate::stream::{BitReader, BitWriter};
use crate::types::numerics::Integer;
use crate::types::string::{
    read_string_to_eof, string_decoding, string_encoding, text_to_end, write_untagged_string,
};
use crate::util::{
    all_decoding, byte_models, items_encoding, lemma_bytes_as_items, lemma_items_plain,
    lemma_list_round_trip,
    list_decoding, list_described, list_encoding, model_bytes, models, read_items_to_eof,
    read_list, write_items, write_list, SizeType,
};
use vstd::prelude::*;
use vstd::utf8::encode_utf8;

verus! {

/// The whole number types.
#[derive(Clone, Copy, Debug, PartialEq, Eq, Structural)]
pub enum NumberType {
    U8,
    U16,
    U32,
    U64,
    I8,
    I16,
    I32,
    I64,
}

/// The kind of value that a field holds.
#[derive(Clone, Copy, Debug, PartialEq, Eq, Structural)]
pub enum Kind {
    /// A whole number of the given type.
    Number(NumberType),
    /// A `bool`.
    Bool,
    /// A list of bytes.
    Bytes,
    /// A string.
    Text,
}

/// The value of a field.
#[derive(Debug)]
pub enum Value {
    Number(i128),
    Bool(bool),
    Bytes(Vec<u8>),
    Text(String),
}

/// A [`Value`] as a mathematical value.
pub enum ValueModel {
    Number(int),
    Bool(bool),
    Bytes(Seq<u8>),
    Text(Seq<char>),
}

impl View for Value {
    type V = ValueModel;

    open spec fn view(&self) -> ValueModel {
        match self {
            Value::Number(v) => ValueModel::Number(*v as int),
            Value::Bool(b) => ValueModel::Bool(*b),
            Value::Bytes(bytes) => ValueModel::Bytes(bytes@),
            Value::Text(text) => ValueModel::Text(text@),
        }
    }
}

/// The values of the fields of an aggregate as mathematical values.
pub open spec fn value_models(values: Seq<Value>) -> Seq<ValueModel> {
    Seq::new(values.len(), |i: int| values[i]@)
}

/// The terms on which a field is processed: the context, the bit width set
/// for it, and whether it runs to the end of the stream.
pub struct Terms {
    pub cx: Context,
    pub width: Option<u32>,
    pub flexible: bool,
}

/// The terms on which a pass that stands at a field processes it.
pub open spec fn terms(
    settings: Settings,
    order: ByteOrder,
    hints: HintsModel,
    field: FieldModel,
) -> Terms {
    let ready = hints_before(hints, field);
    Terms {
        cx: Context { settings, order, length: ready.current_field_length() },
        width: ready.field_width,
        flexible: field.attr is FlexibleArrayMember,
    }
}

/// The number of type `S` at the front of `bits`, in the bit width set for it
/// if one is set.
pub open spec fn unsigned_member_decoding<S: Integer + BitField>(
    bits: Seq<bool>,
    at: Terms,
) -> Result<(int, nat), Failure> {
    match at.width {
        Some(width) => S::field_decoding(bits, width as nat, at.cx.inner()),
        None => S::decoding(bits, at.cx),
    }
}

/// The number of type `S` at the front of `bits`. A signed number has no bit
/// width.
pub open spec fn signed_member_decoding<S: Integer>(bits: Seq<bool>, at: Terms) -> Result<
    (int, nat),
    Failure,
> {
    match at.width {
        Some(_) => Err(Failure::InvalidConfiguration),
        None => S::decoding(bits, at.cx),
    }
}

/// The number of the given type at the front of `bits`.
pub open spec fn number_decoding(ty: NumberType, bits: Seq<bool>, at: Terms) -> Result<
    (int, nat),
    Failure,
> {
    match ty {
        NumberType::U8 => unsigned_member_decoding::<u8>(bits, at),
        NumberType::U16 => unsigned_member_decoding::<u16>(bits, at),
        NumberType::U32 => unsigned_member_decoding::<u32>(bits, at),
        NumberType::U64 => unsigned_member_decoding::<u64>(bits, at),
        NumberType::I8 => signed_member_decoding::<i8>(bits, at),
        NumberType::I16 => signed_member_decoding::<i16>(bits, at),
        NumberType::I32 => signed_member_decoding::<i32>(bits, at),
        NumberType::I64 => signed_member_decoding::<i64>(bits, at),
    }
}

/// The bits of a number of type `S`, in the bit width set for it if one is
/// set. It is `IntegerConversion` where the type does not have the number.
pub open spec fn unsigned_member_encoding<S: Integer + BitField>(v: int, at: Terms) -> Result<
    Seq<bool>,
    Failure,
> {
    if !S::holds(v) {
        Err(Failure::IntegerConversion)
    } else {
        match at.width {
            Some(width) => S::field_encoding(v, width as nat, at.cx.inner()),
            None => S::encoding(v, at.cx),
        }
    }
}

/// The bits of a number of type `S`. A signed number has no bit width.
pub open spec fn signed_member_encoding<S: Integer>(v: int, at: Terms) -> Result<
    Seq<bool>,
    Failure,
> {
    if !S::holds(v) {
        Err(Failure::IntegerConversion)
    } else {
        match at.width {
            Some(_) => Err(Failure::InvalidConfiguration),
            None => S::encoding(v, at.cx),
        }
    }
}

/// The bits of a number of the given type.
pub open spec fn number_encoding(ty: NumberType, v: int, at: Terms) -> Result<
    Seq<bool>,
    Failure,
> {
    match ty {
        NumberType::U8 => unsigned_member_encoding::<u8>(v, at),
        NumberType::U16 => unsigned_member_encoding::<u16>(v, at),
        NumberType::U32 => unsigned_member_encoding::<u32>(v, at),
        NumberType::U64 => unsigned_member_encoding::<u64>(v, at),
        NumberType::I8 => signed_member_encoding::<i8>(v, at),
        NumberType::I16 => signed_member_encoding::<i16>(v, at),
        NumberType::I32 => signed_member_encoding::<i32>(v, at),
        NumberType::I64 => signed_member_encoding::<i64>(v, at),
    }
}

/// The value of the given kind at the front of `bits`. Only numbers and
/// `bool`s have a bit width. Bytes and strings take their length from the
/// context, or run to the end of the stream.
#[verifier::opaque]
pub open spec fn member_decoding(kind: Kind, bits: Seq<bool>, at: Terms) -> Result<
    (ValueModel, nat),
    Failure,
> {
    match kind {
        Kind::Number(ty) => match number_decoding(ty, bits, at) {
            Ok((v, n)) => Ok((ValueModel::Number(v), n)),
            Err(f) => Err(f),
        },
        Kind::Bool => match at.width {
            Some(width) => match bool::field_decoding(bits, width as nat, at.cx.inner()) {
                Ok((b, n)) => Ok((ValueModel::Bool(b), n)),
                Err(f) => Err(f),
            },
            None => match bool::decoding(bits, at.cx) {
                Ok((b, n)) => Ok((ValueModel::Bool(b), n)),
                Err(f) => Err(f),
            },
        },
        Kind::Bytes => if at.width.is_some() {
            Err(Failure::InvalidConfiguration)
        } else if at.flexible {
            match all_decoding::<u8>(bits, at.cx.inner()) {
                Ok(values) => Ok((ValueModel::Bytes(model_bytes(values)), bits.len())),
                Err(f) => Err(f),
            }
        } else {
            match list_decoding::<SizeType, u8>(bits, at.cx) {
                Ok((values, n)) => Ok((ValueModel::Bytes(model_bytes(values)), n)),
                Err(f) => Err(f),
            }
        },
        Kind::Text => if at.width.is_some() {
            Err(Failure::InvalidConfiguration)
        } else if at.flexible {
            match text_to_end(all_decoding::<u8>(bits, at.cx.inner())) {
                Ok(text) => Ok((ValueModel::Text(text), bits.len())),
                Err(f) => Err(f),
            }
        } else {
            match string_decoding(bits, at.cx) {
                Ok((text, n)) => Ok((ValueModel::Text(text), n)),
                Err(f) => Err(f),
            }
        },
    }
}

/// The bits of a value of the given kind. It is `InvalidConfiguration` where
/// the value is of another kind.
#[verifier::opaque]
pub open spec fn member_encoding(kind: Kind, value: ValueModel, at: Terms) -> Result<
    Seq<bool>,
    Failure,
> {
    match (kind, value) {
        (Kind::Number(ty), ValueModel::Number(v)) => number_encoding(ty, v, at),
        (Kind::Bool, ValueModel::Bool(b)) => match at.width {
            Some(width) => bool::field_encoding(b, width as nat, at.cx.inner()),
            None => bool::encoding(b, at.cx),
        },
        (Kind::Bytes, ValueModel::Bytes(bytes)) => if at.width.is_some() {
            Err(Failure::InvalidConfiguration)
        } else if at.flexible {
            items_encoding::<u8>(byte_models(bytes), at.cx.inner())
        } else {
            list_encoding::<SizeType, u8>(byte_models(bytes), at.cx)
        },
        (Kind::Text, ValueModel::Text(text)) => if at.width.is_some() {
            Err(Failure::InvalidConfiguration)
        } else if at.flexible {
            items_encoding::<u8>(byte_models(encode_utf8(text)), at.cx.inner())
        } else {
            string_encoding(text, at.cx)
        },
        _ => Err(Failure::InvalidConfiguration),
    }
}

/// The length that a value announces for the field that takes its length
/// from it: a number that a `usize` holds, and nothing else.
pub open spec fn announced(value: ValueModel) -> Option<usize> {
    match value {
        ValueModel::Number(v) => as_length(v),
        _ => None,
    }
}

/// What the value of the field at `from` tells the field that takes its
/// length from it, if one does. It is `IntegerConversion` where the value is
/// a number that no `usize` holds, and `InvalidConfiguration` where it is no
/// number.
pub open spec fn told(fields: Seq<FieldModel>, from: nat, value: ValueModel) -> Result<
    Option<usize>,
    Failure,
> {
    if holds_length(fields, from) {
        match value {
            ValueModel::Number(v) => match as_length(v) {
                Some(length) => Ok(Some(length)),
                None => Err(Failure::IntegerConversion),
            },
            _ => Err(Failure::InvalidConfiguration),
        }
    } else {
        Ok(None)
    }
}

/// The value of the field at `from` at the front of `bits`, which must be
/// a length where a later field takes its length from it.
pub open spec fn step_decoding(
    fields: Seq<FieldModel>,
    kind: Kind,
    from: nat,
    bits: Seq<bool>,
    at: Terms,
) -> Result<(ValueModel, nat), Failure> {
    match member_decoding(kind, bits, at) {
        Ok((value, n)) => match told(fields, from, value) {
            Ok(_) => Ok((value, n)),
            Err(f) => Err(f),
        },
        Err(f) => Err(f),
    }
}

/// The bits of the value of the field at `from`, which must be a length
/// where a later field takes its length from it.
pub open spec fn step_encoding(
    fields: Seq<FieldModel>,
    kind: Kind,
    from: nat,
    value: ValueModel,
    at: Terms,
) -> Result<Seq<bool>, Failure> {
    match told(fields, from, value) {
        Ok(_) => member_encoding(kind, value, at),
        Err(f) => Err(f),
    }
}

/// Reads a number of type `S` under hints that are set for its field.
fn read_unsigned_member<S: Integer + BitField>(
    read: &mut BitReader,
    settings: &Settings,
    hints: &mut Hints,
) -> (r: Result<i128, Error>)
    ensures
        final(hints)@ == old(hints)@,
        read_outcome(
            match r {
                Ok(v) => Ok(v as int),
                Err(e) => Err(e@),
            },
            *old(read),
            *final(read),
            unsigned_member_decoding::<S>(
                old(read).remaining(),
                Terms {
                    cx: Context::field(*settings, old(read).order(), *old(hints)),
                    width: old(hints)@.field_width,
                    flexible: false,
                },
            ),
        ),
{
    let res = match hints.field_width {
        Some(bits) => S::read_bit_field(read, settings, hints, bits),
        None => S::read_field(read, settings, hints),
    };
    match res {
        Ok(v) => Ok(v.to_i128()),
        Err(e) => Err(e),
    }
}

/// Reads a number of type `S`, which has no bit width, under hints that are
/// set for its field.
fn read_signed_member<S: Integer>(read: &mut BitReader, settings: &Settings, hints: &mut Hints) -> (r:
    Result<i128, Error>)
    ensures
        final(hints)@ == old(hints)@,
        read_outcome(
            match r {
                Ok(v) => Ok(v as int),
                Err(e) => Err(e@),
            },
            *old(read),
            *final(read),
            signed_member_decoding::<S>(
                old(read).remaining(),
                Terms {
                    cx: Context::field(*settings, old(read).order(), *old(hints)),
                    width: old(hints)@.field_width,
                    flexible: false,
                },
            ),
        ),
{
    if hints.field_width.is_some() {
        return Err(Error::InvalidConfiguration);
    }
    match S::read_field(read, settings, hints) {
        Ok(v) => Ok(v.to_i128()),
        Err(e) => Err(e),
    }
}

/// Writes a number as an `S` under hints that are set for its field.
fn write_unsigned_member<S: Integer + BitField>(
    v: i128,
    write: &mut BitWriter,
    settings: &Settings,
    hints: &mut Hints,
) -> (r: Result<(), Error>)
    ensures
        final(hints)@ == old(hints)@,
        write_outcome(
            r,
            *old(write),
            *final(write),
            unsigned_member_encoding::<S>(
                v as int,
                Terms {
                    cx: Context::field(*settings, old(write).order(), *old(hints)),
                    width: old(hints)@.field_width,
                    flexible: false,
                },
            ),
        ),
{
    let number = match S::from_i128(v) {
        Some(number) => number,
        None => {
            return Err(Error::IntegerConversion);
        },
    };
    match hints.field_width {
        Some(bits) => number.write_bit_field(write, settings, hints, bits),
        None => number.write_field(write, settings, hints),
    }
}

/// Writes a number as an `S`, which has no bit width, under hints that are
/// set for its field.
fn write_signed_member<S: Integer>(
    v: i128,
    write: &mut BitWriter,
    settings: &Settings,
    hints: &mut Hints,
) -> (r: Result<(), Error>)
    ensures
        final(hints)@ == old(hints)@,
        write_outcome(
            r,
            *old(write),
            *final(write),
            signed_member_encoding::<S>(
                v as int,
                Terms {
                    cx: Context::field(*settings, old(write).order(), *old(hints)),
                    width: old(hints)@.field_width,
                    flexible: false,
                },
            ),
        ),
{
    let number = match S::from_i128(v) {
        Some(number) => number,
        None => {
            return Err(Error::IntegerConversion);
        },
    };
    if hints.field_width.is_some() {
        return Err(Error::InvalidConfiguration);
    }
    number.write_field(write, settings, hints)
}

/// Reads the field at `index` of an aggregate and leaves the hints ready
/// for the next field.
fn read_member(
    index: usize,
    fields: &[Field],
    kind: Kind,
    read: &mut BitReader,
    settings: &Settings,
    hints: &mut Hints,
) -> (r: Result<Value, Error>)
    requires
        index < fields@.len(),
        old(hints)@.current_field_index == Some(index),
    ensures
        read_outcome(
            match r {
                Ok(v) => Ok(v@),
                Err(e) => Err(e@),
            },
            *old(read),
            *final(read),
            step_decoding(
                field_models(fields@),
                kind,
                index as nat,
                old(read).remaining(),
                terms(*settings, old(read).order(), old(hints)@, fields@[index as int]@),
            ),
        ),
        r matches Ok(v) ==> final(hints)@ == hints_after(
            hints_before(old(hints)@, fields@[index as int]@),
            field_models(fields@),
            index as nat,
            announced(v@),
        ),
{
    let ghost start = read.remaining();
    proof {
        reveal(member_decoding);
    }
    update_hints_before(hints, &fields[index]);
    let flexible = match &fields[index].attr {
        FieldAttr::FlexibleArrayMember => true,
        _ => false,
    };
    let value = match kind {
        Kind::Number(ty) => {
            let read_number = match ty {
                NumberType::U8 => read_unsigned_member::<u8>(read, settings, hints),
                NumberType::U16 => read_unsigned_member::<u16>(read, settings, hints),
                NumberType::U32 => read_unsigned_member::<u32>(read, settings, hints),
                NumberType::U64 => read_unsigned_member::<u64>(read, settings, hints),
                NumberType::I8 => read_signed_member::<i8>(read, settings, hints),
                NumberType::I16 => read_signed_member::<i16>(read, settings, hints),
                NumberType::I32 => read_signed_member::<i32>(read, settings, hints),
                NumberType::I64 => read_signed_member::<i64>(read, settings, hints),
            };
            match read_number {
                Ok(v) => Value::Number(v),
                Err(e) => {
                    return Err(e);
                },
            }
        },
        Kind::Bool => {
            let read_bool = match hints.field_width {
                Some(bits) => bool::read_bit_field(read, settings, hints, bits),
                None => bool::read_field(read, settings, hints),
            };
            match read_bool {
                Ok(b) => Value::Bool(b),
                Err(e) => {
                    return Err(e);
                },
            }
        },
        Kind::Bytes => {
            if hints.field_width.is_some() {
                return Err(Error::InvalidConfiguration);
            }
            let read_bytes = if flexible {
                read_items_to_eof::<u8>(read, settings)
            } else {
                read_list::<u8>(read, settings, hints)
            };
            match read_bytes {
                Ok(bytes) => {
                    proof {
                        assert(model_bytes(models(bytes@)) =~= bytes@);
                        if flexible {
                            assert(read.remaining() =~= start.skip(start.len() as int));
                        }
                    }
                    Value::Bytes(bytes)
                },
                Err(e) => {
                    return Err(e);
                },
            }
        },
        Kind::Text => {
            if hints.field_width.is_some() {
                return Err(Error::InvalidConfiguration);
            }
            let read_text = if flexible {
                read_string_to_eof(read, settings)
            } else {
                String::read_field(read, settings, hints)
            };
            match read_text {
                Ok(text) => {
                    proof {
                        if flexible {
                            assert(read.remaining() =~= start.skip(start.len() as int));
                        }
                    }
                    Value::Text(text)
                },
                Err(e) => {
                    return Err(e);
                },
            }
        },
    };
    let holds = find_target(index, fields).is_some();
    let length = match &value {
        Value::Number(v) => {
            let length = length_of(*v);
            if holds && length.is_none() {
                return Err(Error::IntegerConversion);
            }
            length
        },
        _ => {
            if holds {
                return Err(Error::InvalidConfiguration);
            }
            None
        },
    };
    move_on(hints, index, fields, length);
    Ok(value)
}

/// Writes the field at `index` of an aggregate and leaves the hints ready
/// for the next field.
fn write_member(
    value: &Value,
    index: usize,
    fields: &[Field],
    kind: Kind,
    write: &mut BitWriter,
    settings: &Settings,
    hints: &mut Hints,
) -> (r: Result<(), Error>)
    requires
        index < fields@.len(),
        old(hints)@.current_field_index == Some(index),
    ensures
        write_outcome(
            r,
            *old(write),
            *final(write),
            step_encoding(
                field_models(fields@),
                kind,
                index as nat,
                value@,
                terms(*settings, old(write).order(), old(hints)@, fields@[index as int]@),
            ),
        ),
        told(field_models(fields@), index as nat, value@) is Err ==> final(write).written()
            == old(write).written(),
        r is Ok ==> final(hints)@ == hints_after(
            hints_before(old(hints)@, fields@[index as int]@),
            field_models(fields@),
            index as nat,
            announced(value@),
        ),
{
    proof {
        reveal(member_encoding);
    }
    let holds = find_target(index, fields).is_some();
    let length = match value {
        Value::Number(v) => {
            let length = length_of(*v);
            if holds && length.is_none() {
                return Err(Error::IntegerConversion);
            }
            length
        },
        _ => {
            if holds {
                return Err(Error::InvalidConfiguration);
            }
            None
        },
    };
    update_hints_before(hints, &fields[index]);
    let flexible = match &fields[index].attr {
        FieldAttr::FlexibleArrayMember => true,
        _ => false,
    };
    let res = match (kind, value) {
        (Kind::Number(ty), Value::Number(v)) => match ty {
            NumberType::U8 => write_unsigned_member::<u8>(*v, write, settings, hints),
            NumberType::U16 => write_unsigned_member::<u16>(*v, write, settings, hints),
            NumberType::U32 => write_unsigned_member::<u32>(*v, write, settings, hints),
            NumberType::U64 => write_unsigned_member::<u64>(*v, write, settings, hints),
            NumberType::I8 => write_signed_member::<i8>(*v, write, settings, hints),
            NumberType::I16 => write_signed_member::<i16>(*v, write, settings, hints),
            NumberType::I32 => write_signed_member::<i32>(*v, write, settings, hints),
            NumberType::I64 => write_signed_member::<i64>(*v, write, settings, hints),
        },
        (Kind::Bool, Value::Bool(b)) => match hints.field_width {
            Some(bits) => b.write_bit_field(write, settings, hints, bits),
            None => b.write_field(write, settings, hints),
        },
        (Kind::Bytes, Value::Bytes(bytes)) => {
            proof {
                assert(models(bytes@) =~= byte_models(bytes@));
            }
            if hints.field_width.is_some() {
                Err(Error::InvalidConfiguration)
            } else if flexible {
                write_items::<u8>(bytes.as_slice(), write, settings)
            } else {
                write_list::<u8>(bytes.as_slice(), write, settings, hints)
            }
        },
        (Kind::Text, Value::Text(text)) => {
            if hints.field_width.is_some() {
                Err(Error::InvalidConfiguration)
            } else if flexible {
                write_untagged_string(text, write, settings)
            } else {
                text.write_field(write, settings, hints)
            }
        },
        _ => Err(Error::InvalidConfiguration),
    };
    match res {
        Ok(()) => {
            move_on(hints, index, fields, length);
            Ok(())
        },
        Err(e) => Err(e),
    }
}

/// The hints of a pass that has just begun.
pub open spec fn begun() -> HintsModel {
    HintsModel {
        current_field_index: Some(0usize),
        known_field_lengths: Map::empty(),
        field_width: None,
    }
}

/// The hints of a pass after the field at `from`, whose value is `value`.
pub open spec fn moved_on(
    fields: Seq<FieldModel>,
    from: nat,
    hints: HintsModel,
    value: ValueModel,
) -> HintsModel {
    hints_after(hints_before(hints, fields[from as int]), fields, from, announced(value))
}

/// The values of the fields from `from` on at the front of `bits`, for a
/// pass that stands at that field with the given hints.
pub open spec fn fields_decoding(
    fields: Seq<FieldModel>,
    kinds: Seq<Kind>,
    from: nat,
    bits: Seq<bool>,
    settings: Settings,
    order: ByteOrder,
    hints: HintsModel,
) -> Result<(Seq<ValueModel>, nat), Failure>
    decreases fields.len() - from,
{
    if from >= fields.len() {
        Ok((Seq::empty(), 0))
    } else {
        match step_decoding(
            fields,
            kinds[from as int],
            from,
            bits,
            terms(settings, order, hints, fields[from as int]),
        ) {
            Ok((value, n)) => match fields_decoding(
                fields,
                kinds,
                from + 1,
                bits.skip(n as int),
                settings,
                order,
                moved_on(fields, from, hints, value),
            ) {
                Ok((values, k)) => Ok((seq![value] + values, n + k)),
                Err(f) => Err(f),
            },
            Err(f) => Err(f),
        }
    }
}

/// The bits of the values of the fields from `from` on, for a pass that
/// stands at that field with the given hints.
pub open spec fn fields_encoding(
    fields: Seq<FieldModel>,
    kinds: Seq<Kind>,
    from: nat,
    values: Seq<ValueModel>,
    settings: Settings,
    order: ByteOrder,
    hints: HintsModel,
) -> Result<Seq<bool>, Failure>
    decreases fields.len() - from,
{
    if from >= fields.len() {
        Ok(Seq::empty())
    } else {
        match step_encoding(
            fields,
            kinds[from as int],
            from,
            values[from as int],
            terms(settings, order, hints, fields[from as int]),
        ) {
            Ok(head) => match fields_encoding(
                fields,
                kinds,
                from + 1,
                values,
                settings,
                order,
                moved_on(fields, from, hints, values[from as int]),
            ) {
                Ok(tail) => Ok(head + tail),
                Err(f) => Err(f),
            },
            Err(f) => Err(f),
        }
    }
}

/// Every field that another takes its length from holds a number.
pub open spec fn lengths_are_numbers(fields: Seq<FieldModel>, kinds: Seq<Kind>) -> bool {
    forall|i: nat|
        i < fields.len() && #[trigger] holds_length(fields, i) ==> kinds[i as int] is Number
}

/// Whether the fields are given each with its kind, each stands where its
/// declaration lets it stand, and none takes its length from a field that
/// holds no number.
pub open spec fn well_formed(fields: Seq<FieldModel>, kinds: Seq<Kind>) -> bool {
    &&& fields.len() == kinds.len()
    &&& well_configured(fields)
    &&& lengths_are_numbers(fields, kinds)
}

/// Checks the declarations of an aggregate.
fn check_aggregate(fields: &[Field], kinds: &[Kind]) -> (r: Result<(), Error>)
    ensures
        match r {
            Ok(()) => well_formed(field_models(fields@), kinds@),
            Err(e) => !well_formed(field_models(fields@), kinds@) && e@
                == Failure::InvalidConfiguration,
        },
{
    if fields.len() != kinds.len() {
        return Err(Error::InvalidConfiguration);
    }
    match validate_fields(fields) {
        Ok(()) => {},
        Err(e) => {
            return Err(e);
        },
    }
    let ghost all = field_models(fields@);
    let mut i: usize = 0;
    while i < fields.len()
        invariant
            i <= fields@.len(),
            fields@.len() == kinds@.len(),
            all == field_models(fields@),
            forall|k: nat|
                k < i && #[trigger] holds_length(all, k) ==> kinds@[k as int] is Number,
        decreases fields@.len() - i,
    {
        if find_target(i, fields).is_some() {
            match kinds[i] {
                Kind::Number(_) => {},
                _ => {
                    assert(holds_length(all, i as nat) && !(kinds@[i as int] is Number));
                    assert(!lengths_are_numbers(all, kinds@));
                    return Err(Error::InvalidConfiguration);
                },
            }
        }
        i = i + 1;
    }
    Ok(())
}

/// The values of the fields of an aggregate at the front of `bits`. It is
/// `InvalidConfiguration`, whatever the bits, where the fields are not well
/// formed.
pub open spec fn aggregate_decoding(
    fields: Seq<FieldModel>,
    kinds: Seq<Kind>,
    bits: Seq<bool>,
    settings: Settings,
    order: ByteOrder,
) -> Result<(Seq<ValueModel>, nat), Failure> {
    if well_formed(fields, kinds) {
        fields_decoding(fields, kinds, 0, bits, settings, order, begun())
    } else {
        Err(Failure::InvalidConfiguration)
    }
}

/// The bits of the values of the fields of an aggregate. It is
/// `InvalidConfiguration` where the fields are not well formed, or the
/// values are not one for each field.
pub open spec fn aggregate_encoding(
    fields: Seq<FieldModel>,
    kinds: Seq<Kind>,
    values: Seq<ValueModel>,
    settings: Settings,
    order: ByteOrder,
) -> Result<Seq<bool>, Failure> {
    if well_formed(fields, kinds) && values.len() == fields.len() {
        fields_encoding(fields, kinds, 0, values, settings, order, begun())
    } else {
        Err(Failure::InvalidConfiguration)
    }
}

/// Values already read, put in front of what the rest of the fields decode
/// to.
pub open spec fn after_values(
    done: Seq<ValueModel>,
    used: nat,
    rest: Result<(Seq<ValueModel>, nat), Failure>,
) -> Result<(Seq<ValueModel>, nat), Failure> {
    match rest {
        Ok((tail, k)) => Ok((done + tail, used + k)),
        Err(f) => Err(f),
    }
}

/// Bits already written, put in front of what the rest of the fields encode
/// to.
pub open spec fn after_written(done: Seq<bool>, rest: Result<Seq<bool>, Failure>) -> Result<
    Seq<bool>,
    Failure,
> {
    match rest {
        Ok(tail) => Ok(done + tail),
        Err(f) => Err(f),
    }
}

/// Reads the fields of an aggregate, in declaration order. The declarations
/// are checked before any bit is read.
#[verifier::loop_isolation(false)]
pub fn read_fields(fields: &[Field], kinds: &[Kind], read: &mut BitReader, settings: &Settings) -> (r:
    Result<Vec<Value>, Error>)
    ensures
        read_outcome(
            match r {
                Ok(values) => Ok(value_models(values@)),
                Err(e) => Err(e@),
            },
            *old(read),
            *final(read),
            aggregate_decoding(
                field_models(fields@),
                kinds@,
                old(read).remaining(),
                *settings,
                old(read).order(),
            ),
        ),
        !well_formed(field_models(fields@), kinds@) ==> final(read).remaining() == old(
            read,
        ).remaining(),
{
    match check_aggregate(fields, kinds) {
        Ok(()) => {},
        Err(e) => {
            return Err(e);
        },
    }
    let ghost all = field_models(fields@);
    let ghost start = read.remaining();
    let ghost order = read.order();
    let ghost whole = fields_decoding(all, kinds@, 0, start, *settings, order, begun());
    let ghost mut used: nat = 0;
    let mut hints = Hints::default();
    hints.begin_fields();
    let mut values: Vec<Value> = Vec::new();
    let mut i: usize = 0;
    proof {
        assert(hints@.known_field_lengths =~= begun().known_field_lengths);
        assert(start.skip(0) =~= start);
        assert(value_models(values@) =~= Seq::<ValueModel>::empty());
        match whole {
            Ok((found, n)) => assert(Seq::<ValueModel>::empty() + found =~= found),
            Err(_) => {},
        }
    }
    while i < fields.len()
        invariant
            i <= fields@.len(),
            fields@.len() == kinds@.len(),
            all == field_models(fields@),
            start == old(read).remaining(),
            order == old(read).order(),
            read.order() == order,
            hints@.current_field_index == Some(i),
            used <= start.len(),
            read.remaining() == start.skip(used as int),
            values@.len() == i,
            whole == fields_decoding(all, kinds@, 0, start, *settings, order, begun()),
            whole == after_values(
                value_models(values@),
                used,
                fields_decoding(all, kinds@, i as nat, read.remaining(), *settings, order, hints@),
            ),
        decreases fields@.len() - i,
    {
        let ghost here = read.remaining();
        let ghost before = value_models(values@);
        let ghost at = hints@;
        match read_member(i, fields, kinds[i], read, settings, &mut hints) {
            Ok(value) => {
                proof {
                    let (m, n) = step_decoding(
                        all,
                        kinds@[i as int],
                        i as nat,
                        here,
                        terms(*settings, order, at, all[i as int]),
                    )->Ok_0;
                    assert(read.remaining() =~= start.skip((used + n) as int));
                    assert(value_models(values@.push(value)) =~= before.push(m));
                    match fields_decoding(
                        all,
                        kinds@,
                        (i + 1) as nat,
                        here.skip(n as int),
                        *settings,
                        order,
                        moved_on(all, i as nat, at, m),
                    ) {
                        Ok((tail, k)) => {
                            assert(before + (seq![m] + tail) =~= before.push(m) + tail);
                        },
                        Err(_) => {},
                    }
                    used = used + n;
                }
                values.push(value);
                i = i + 1;
            },
            Err(e) => {
                return Err(e);
            },
        }
    }
    proof {
        assert(value_models(values@) + Seq::<ValueModel>::empty() =~= value_models(values@));
    }
    Ok(values)
}

/// Writes the fields of an aggregate, in declaration order. The declarations
/// are checked before any bit is written.
#[verifier::loop_isolation(false)]
pub fn write_fields(
    fields: &[Field],
    kinds: &[Kind],
    values: &[Value],
    write: &mut BitWriter,
    settings: &Settings,
) -> (r: Result<(), Error>)
    ensures
        write_outcome(
            r,
            *old(write),
            *final(write),
            aggregate_encoding(
                field_models(fields@),
                kinds@,
                value_models(values@),
                *settings,
                old(write).order(),
            ),
        ),
        !well_formed(field_models(fields@), kinds@) || values@.len() != fields@.len()
            ==> final(write).written() == old(write).written(),
{
    match check_aggregate(fields, kinds) {
        Ok(()) => {},
        Err(e) => {
            return Err(e);
        },
    }
    if values.len() != fields.len() {
        return Err(Error::InvalidConfiguration);
    }
    let ghost all = field_models(fields@);
    let ghost given = value_models(values@);
    let ghost order = write.order();
    let ghost whole = fields_encoding(all, kinds@, 0, given, *settings, order, begun());
    let ghost mut done: Seq<bool> = Seq::empty();
    let mut hints = Hints::default();
    hints.begin_fields();
    let mut i: usize = 0;
    proof {
        assert(hints@.known_field_lengths =~= begun().known_field_lengths);
        assert(old(write).written() + done =~= old(write).written());
        match whole {
            Ok(bits) => assert(done + bits =~= bits),
            Err(_) => {},
        }
    }
    while i < fields.len()
        invariant
            i <= fields@.len(),
            fields@.len() == kinds@.len(),
            values@.len() == fields@.len(),
            all == field_models(fields@),
            given == value_models(values@),
            order == old(write).order(),
            write.order() == order,
            hints@.current_field_index == Some(i),
            write.written() == old(write).written() + done,
            whole == fields_encoding(all, kinds@, 0, given, *settings, order, begun()),
            whole == after_written(
                done,
                fields_encoding(all, kinds@, i as nat, given, *settings, order, hints@),
            ),
        decreases fields@.len() - i,
    {
        let ghost at = hints@;
        match write_member(&values[i], i, fields, kinds[i], write, settings, &mut hints) {
            Ok(()) => {
                proof {
                    let head = step_encoding(
                        all,
                        kinds@[i as int],
                        i as nat,
                        given[i as int],
                        terms(*settings, order, at, all[i as int]),
                    )->Ok_0;
                    match fields_encoding(
                        all,
                        kinds@,
                        (i + 1) as nat,
                        given,
                        *settings,
                        order,
                        moved_on(all, i as nat, at, given[i as int]),
                    ) {
                        Ok(tail) => assert(done + (head + tail) =~= (done + head) + tail),
                        Err(_) => {},
                    }
                    assert(old(write).written() + (done + head) =~= (old(write).written() + done)
                        + head);
                    done = done + head;
                }
                i = i + 1;
            },
            Err(e) => {
                return Err(e);
            },
        }
    }
    proof {
        assert(done + Seq::<bool>::empty() =~= done);
    }
    Ok(())
}

/// Whether a reader expects the value where a writer has put it: bytes and
/// strings have the length that the context announces, if it announces one,
/// and do not run to the end of the stream.
#[verifier::opaque]
pub open spec fn member_described(kind: Kind, value: ValueModel, at: Terms) -> bool {
    match (kind, value) {
        (Kind::Number(_), ValueModel::Number(_)) => true,
        (Kind::Bool, ValueModel::Bool(_)) => true,
        (Kind::Bytes, ValueModel::Bytes(bytes)) => !at.flexible && list_described::<u8>(
            byte_models(bytes),
            at.cx,
        ),
        (Kind::Text, ValueModel::Text(text)) => !at.flexible && String::described(text, at.cx),
        _ => false,
    }
}

/// Whether a reader expects the values of the fields from `from` on where a
/// writer has put them.
pub open spec fn fields_described(
    fields: Seq<FieldModel>,
    kinds: Seq<Kind>,
    from: nat,
    values: Seq<ValueModel>,
    settings: Settings,
    order: ByteOrder,
    hints: HintsModel,
) -> bool
    decreases fields.len() - from,
{
    if from >= fields.len() {
        true
    } else {
        &&& member_described(
            kinds[from as int],
            values[from as int],
            terms(settings, order, hints, fields[from as int]),
        )
        &&& fields_described(
            fields,
            kinds,
            from + 1,
            values,
            settings,
            order,
            moved_on(fields, from, hints, values[from as int]),
        )
    }
}

proof fn lemma_unsigned_member_round_trip<S: Integer + BitField>(v: int, at: Terms, rest: Seq<bool>)
    requires
        unsigned_member_encoding::<S>(v, at) is Ok,
        S::field_described(v, at.cx.inner()),
    ensures
        unsigned_member_decoding::<S>(unsigned_member_encoding::<S>(v, at)->Ok_0 + rest, at)
            == Ok::<(int, nat), Failure>((v, unsigned_member_encoding::<S>(v, at)->Ok_0.len())),
{
    match at.width {
        Some(width) => S::lemma_field_round_trip(v, width as nat, at.cx.inner(), rest),
        None => {
            S::lemma_holds_described(v, at.cx);
            S::lemma_round_trip(v, at.cx, rest);
        },
    }
}

proof fn lemma_signed_member_round_trip<S: Integer>(v: int, at: Terms, rest: Seq<bool>)
    requires
        signed_member_encoding::<S>(v, at) is Ok,
    ensures
        signed_member_decoding::<S>(signed_member_encoding::<S>(v, at)->Ok_0 + rest, at) == Ok::<
            (int, nat),
            Failure,
        >((v, signed_member_encoding::<S>(v, at)->Ok_0.len())),
{
    S::lemma_holds_described(v, at.cx);
    S::lemma_round_trip(v, at.cx, rest);
}

/// A field that a reader expects is read back as written, whatever follows.
pub proof fn lemma_member_round_trip(kind: Kind, value: ValueModel, at: Terms, rest: Seq<bool>)
    requires
        member_encoding(kind, value, at) is Ok,
        member_described(kind, value, at),
    ensures
        member_decoding(kind, member_encoding(kind, value, at)->Ok_0 + rest, at) == Ok::<
            (ValueModel, nat),
            Failure,
        >((value, member_encoding(kind, value, at)->Ok_0.len())),
{
    reveal(member_encoding);
    reveal(member_decoding);
    reveal(member_described);
    match (kind, value) {
        (Kind::Number(ty), ValueModel::Number(v)) => match ty {
            NumberType::U8 => lemma_unsigned_member_round_trip::<u8>(v, at, rest),
            NumberType::U16 => lemma_unsigned_member_round_trip::<u16>(v, at, rest),
            NumberType::U32 => lemma_unsigned_member_round_trip::<u32>(v, at, rest),
            NumberType::U64 => lemma_unsigned_member_round_trip::<u64>(v, at, rest),
            NumberType::I8 => lemma_signed_member_round_trip::<i8>(v, at, rest),
            NumberType::I16 => lemma_signed_member_round_trip::<i16>(v, at, rest),
            NumberType::I32 => lemma_signed_member_round_trip::<i32>(v, at, rest),
            NumberType::I64 => lemma_signed_member_round_trip::<i64>(v, at, rest),
        },
        (Kind::Bool, ValueModel::Bool(b)) => match at.width {
            Some(width) => bool::lemma_field_round_trip(b, width as nat, at.cx.inner(), rest),
            None => bool::lemma_round_trip(b, at.cx, rest),
        },
        (Kind::Bytes, ValueModel::Bytes(bytes)) => {
            lemma_list_round_trip::<SizeType, u8>(byte_models(bytes), at.cx, rest);
            assert(model_bytes(byte_models(bytes)) =~= bytes);
        },
        (Kind::Text, ValueModel::Text(text)) => {
            String::lemma_round_trip(text, at.cx, rest);
        },
        _ => {},
    }
}

/// The fields from `from` on are read back as written, whatever follows,
/// where a reader expects each of them.
pub proof fn lemma_fields_round_trip(
    fields: Seq<FieldModel>,
    kinds: Seq<Kind>,
    from: nat,
    values: Seq<ValueModel>,
    settings: Settings,
    order: ByteOrder,
    hints: HintsModel,
    rest: Seq<bool>,
)
    requires
        from <= fields.len(),
        values.len() == fields.len(),
        fields_encoding(fields, kinds, from, values, settings, order, hints) is Ok,
        fields_described(fields, kinds, from, values, settings, order, hints),
    ensures
        fields_decoding(
            fields,
            kinds,
            from,
            fields_encoding(fields, kinds, from, values, settings, order, hints)->Ok_0 + rest,
            settings,
            order,
            hints,
        ) == Ok::<(Seq<ValueModel>, nat), Failure>(
            (
                values.skip(from as int),
                fields_encoding(fields, kinds, from, values, settings, order, hints)->Ok_0.len(),
            ),
        ),
    decreases fields.len() - from,
{
    if from < fields.len() {
        let at = terms(settings, order, hints, fields[from as int]);
        let value = values[from as int];
        let next = moved_on(fields, from, hints, value);
        let head = step_encoding(fields, kinds[from as int], from, value, at)->Ok_0;
        let tail = fields_encoding(fields, kinds, from + 1, values, settings, order, next)->Ok_0;
        lemma_member_round_trip(kinds[from as int], value, at, tail + rest);
        assert((head + tail) + rest =~= head + (tail + rest));
        assert((head + (tail + rest)).skip(head.len() as int) =~= tail + rest);
        lemma_fields_round_trip(fields, kinds, from + 1, values, settings, order, next, rest);
        assert(seq![value] + values.skip(from as int + 1) =~= values.skip(from as int));
    } else {
        assert(values.skip(from as int) =~= Seq::<ValueModel>::empty());
    }
}

/// An aggregate is read back as written, whatever follows, where a reader
/// expects each of its fields.
pub proof fn lemma_aggregate_round_trip(
    fields: Seq<FieldModel>,
    kinds: Seq<Kind>,
    values: Seq<ValueModel>,
    settings: Settings,
    order: ByteOrder,
    rest: Seq<bool>,
)
    requires
        aggregate_encoding(fields, kinds, values, settings, order) is Ok,
        fields_described(fields, kinds, 0, values, settings, order, begun()),
    ensures
        aggregate_decoding(
            fields,
            kinds,
            aggregate_encoding(fields, kinds, values, settings, order)->Ok_0 + rest,
            settings,
            order,
        ) == Ok::<(Seq<ValueModel>, nat), Failure>(
            (values, aggregate_encoding(fields, kinds, values, settings, order)->Ok_0.len()),
        ),
{
    lemma_fields_round_trip(fields, kinds, 0, values, settings, order, begun(), rest);
    assert(values.skip(0) =~= values);
}

/// A record that holds a count and then a payload of bytes whose length is
/// that count is written as the count and then exactly the bytes of the
/// payload, with no second count, and is read back as it was.
pub proof fn lemma_counted_payload_aggregate(
    payload: Seq<u8>,
    kind: LengthPrefixKind,
    settings: Settings,
    order: ByteOrder,
    rest: Seq<bool>,
)
    requires
        payload.len() <= u32::MAX,
    ensures
        ({
            let fields = counted_payload(kind);
            let kinds = seq![Kind::Number(NumberType::U32), Kind::Bytes];
            let values = seq![
                ValueModel::Number(payload.len() as int),
                ValueModel::Bytes(payload),
            ];
            let count = u32::encoding(
                payload.len() as int,
                Context::plain(settings, order),
            )->Ok_0;
            &&& aggregate_encoding(fields, kinds, values, settings, order) == Ok::<
                Seq<bool>,
                Failure,
            >(count + bytes_bits(payload, order))
            &&& aggregate_decoding(
                fields,
                kinds,
                (count + bytes_bits(payload, order)) + rest,
                settings,
                order,
            ) == Ok::<(Seq<ValueModel>, nat), Failure>(
                (values, count.len() + 8 * payload.len()),
            )
        }),
{
    reveal(member_encoding);
    reveal(member_described);
    let fields = counted_payload(kind);
    let kinds = seq![Kind::Number(NumberType::U32), Kind::Bytes];
    let values = seq![ValueModel::Number(payload.len() as int), ValueModel::Bytes(payload)];
    let h0 = begun();
    let at0 = terms(settings, order, h0, fields[0]);
    let h1 = moved_on(fields, 0, h0, values[0]);
    let at1 = terms(settings, order, h1, fields[1]);
    let h2 = moved_on(fields, 1, h1, values[1]);
    assert(well_configured(fields)) by {
        assert(fields[0].name == "count"@);
        assert(named_before(fields, "count"@, 1));
        assert forall|j: int| 0 <= j < fields.len() implies #[trigger] placed(fields, j) by {
            assert(j == 0 || j == 1);
        }
    }
    reveal_with_fuel(prefix_target, 3);
    assert(length_prefix_target(fields, 0) == Some((1nat, kind)));
    assert(!holds_length(fields, 1)) by {
        reveal_strlit("count");
        reveal_strlit("payload");
        assert("count"@.len() != "payload"@.len());
    }
    assert(lengths_are_numbers(fields, kinds)) by {
        assert forall|i: nat| i < fields.len() && #[trigger] holds_length(
            fields,
            i,
        ) implies kinds[i as int] is Number by {
            assert(i == 0);
        }
    }
    assert(at0.cx == Context::plain(settings, order)) by {
        assert(h0.known_field_lengths.dom() =~= Set::<FieldIndex>::empty());
    }
    assert(at1.cx.length == Some(FieldLength { length: payload.len() as usize, kind }));
    lemma_spans();
    u32::lemma_holds_encodes(payload.len() as int, at0.cx);
    lemma_bytes_as_items(payload, at1.cx.inner());
    lemma_bytes_as_items(payload, at1.cx.detached());
    lemma_items_plain::<u8>(byte_models(payload), settings, order);
    reveal_with_fuel(fields_encoding, 4);
    reveal_with_fuel(fields_described, 4);
    let count = u32::encoding(payload.len() as int, Context::plain(settings, order))->Ok_0;
    assert(fields_encoding(fields, kinds, 0, values, settings, order, h0) == Ok::<
        Seq<bool>,
        Failure,
    >(count + bytes_bits(payload, order))) by {
        assert(fields_encoding(fields, kinds, 2, values, settings, order, h2) == Ok::<
            Seq<bool>,
            Failure,
        >(Seq::<bool>::empty()));
        assert(bytes_bits(payload, order) + Seq::<bool>::empty() =~= bytes_bits(payload, order));
    }
    lemma_aggregate_round_trip(fields, kinds, values, settings, order, rest);
}

} // verus!

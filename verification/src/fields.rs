//! The fields of an aggregate, and what each tells the pass over them.
//!
//! A field may be sent in a declared number of bits, and it may take its
//! length from the value of a field before it, which it names. A pass
//! processes the fields in declaration order. Before a field it sets the bit
//! width; after a field whose value is the length of a later one it announces
//! that length; then it moves on.

use crate::bit_field::BitField;
use crate::bits::bytes_bits;
use crate::error::{Error, Failure};
use crate::hint::{FieldLength, Hints, HintsModel, LengthPrefixKind};
use crate::protocol::{read_outcome, write_outcome, Context, Protocol};
use crate::settings::{ByteOrder, Settings};
use crate::stream::{BitReader, BitWriter};
use crate::types::numerics::Integer;
use crate::util::{
    byte_models, lemma_disjoint_length_prefix, list_decoding, list_encoding, SizeType,
};
use vstd::prelude::*;

verus! {

/// What is declared of a field besides its type.
#[derive(Debug)]
pub enum FieldAttr {
    /// Nothing.
    Plain,
    /// The field is sent in this many bits.
    BitField(u32),
    /// The field has no length on the wire and runs to the end of the stream.
    FlexibleArrayMember,
    /// The length of the field is the value of the field named here.
    LengthPrefix { kind: LengthPrefixKind, prefix_field_name: String },
}

/// A field of an aggregate.
#[derive(Debug)]
pub struct Field {
    pub name: String,
    pub attr: FieldAttr,
}

/// A [`FieldAttr`] as a mathematical value.
pub enum FieldAttrModel {
    Plain,
    BitField(u32),
    FlexibleArrayMember,
    LengthPrefix { kind: LengthPrefixKind, prefix_field_name: Seq<char> },
}

/// A [`Field`] as a mathematical value.
pub struct FieldModel {
    pub name: Seq<char>,
    pub attr: FieldAttrModel,
}

impl View for FieldAttr {
    type V = FieldAttrModel;

    open spec fn view(&self) -> FieldAttrModel {
        match self {
            FieldAttr::Plain => FieldAttrModel::Plain,
            FieldAttr::BitField(bits) => FieldAttrModel::BitField(*bits),
            FieldAttr::FlexibleArrayMember => FieldAttrModel::FlexibleArrayMember,
            FieldAttr::LengthPrefix { kind, prefix_field_name } => FieldAttrModel::LengthPrefix {
                kind: *kind,
                prefix_field_name: prefix_field_name@,
            },
        }
    }
}

impl View for Field {
    type V = FieldModel;

    open spec fn view(&self) -> FieldModel {
        FieldModel { name: self.name@, attr: self.attr@ }
    }
}

/// The fields of an aggregate as mathematical values.
pub open spec fn field_models(fields: Seq<Field>) -> Seq<FieldModel> {
    Seq::new(fields.len(), |i: int| fields[i]@)
}

/// Whether the field takes its length from the field called `name`.
pub open spec fn prefixed_by(field: FieldModel, name: Seq<char>) -> bool {
    field.attr matches FieldAttrModel::LengthPrefix { prefix_field_name, .. } && prefix_field_name
        == name
}

/// The first field at or after `from` that takes its length from the field
/// called `name`, with the unit of that length.
pub open spec fn prefix_target(fields: Seq<FieldModel>, name: Seq<char>, from: nat) -> Option<
    (nat, LengthPrefixKind),
>
    decreases fields.len() - from,
{
    if from >= fields.len() {
        None
    } else if prefixed_by(fields[from as int], name) {
        Some((from, fields[from as int].attr->LengthPrefix_kind))
    } else {
        prefix_target(fields, name, from + 1)
    }
}

/// The field whose length the field at `source` holds, if it holds one.
pub open spec fn length_prefix_target(fields: Seq<FieldModel>, source: nat) -> Option<
    (nat, LengthPrefixKind),
> {
    prefix_target(fields, fields[source as int].name, 0)
}

/// Whether a field before `limit` is called `name`.
pub open spec fn named_before(fields: Seq<FieldModel>, name: Seq<char>, limit: nat) -> bool {
    exists|i: int| 0 <= i < limit && i < fields.len() && (#[trigger] fields[i]).name == name
}

/// Whether the field at `j` stands where its declaration lets it stand: a
/// field that takes its length from another names a field strictly before
/// it, and a field that runs to the end of the stream is the last.
pub open spec fn placed(fields: Seq<FieldModel>, j: int) -> bool {
    match fields[j].attr {
        FieldAttrModel::LengthPrefix { prefix_field_name, .. } => named_before(
            fields,
            prefix_field_name,
            j as nat,
        ),
        FieldAttrModel::FlexibleArrayMember => j == fields.len() - 1,
        _ => true,
    }
}

/// Every field stands where its declaration lets it stand.
pub open spec fn well_configured(fields: Seq<FieldModel>) -> bool {
    forall|j: int| 0 <= j < fields.len() ==> #[trigger] placed(fields, j)
}

/// Whether a field before `limit` is called `name`.
fn is_named_before(fields: &[Field], name: &String, limit: usize) -> (found: bool)
    requires
        limit <= fields@.len(),
    ensures
        found == named_before(field_models(fields@), name@, limit as nat),
{
    let mut i: usize = 0;
    while i < limit
        invariant
            i <= limit <= fields@.len(),
            forall|k: int| 0 <= k < i ==> (#[trigger] field_models(fields@)[k]).name != name@,
        decreases limit - i,
    {
        if fields[i].name == *name {
            assert(field_models(fields@)[i as int].name == name@);
            return true;
        }
        i = i + 1;
    }
    false
}

/// Checks the fields of an aggregate before any of them is read or written.
/// It is `InvalidConfiguration` where a field takes its length from a name
/// that no field before it has, or a field that runs to the end of the
/// stream is not the last.
pub fn validate_fields(fields: &[Field]) -> (r: Result<(), Error>)
    ensures
        match r {
            Ok(()) => well_configured(field_models(fields@)),
            Err(e) => e@ == Failure::InvalidConfiguration && !well_configured(
                field_models(fields@),
            ),
        },
{
    let ghost all = field_models(fields@);
    let mut j: usize = 0;
    while j < fields.len()
        invariant
            j <= fields@.len(),
            all == field_models(fields@),
            forall|k: int| 0 <= k < j ==> #[trigger] placed(all, k),
        decreases fields@.len() - j,
    {
        match &fields[j].attr {
            FieldAttr::LengthPrefix { kind, prefix_field_name } => {
                if !is_named_before(fields, prefix_field_name, j) {
                    assert(!placed(all, j as int));
                    return Err(Error::InvalidConfiguration);
                }
            },
            FieldAttr::FlexibleArrayMember => {
                if j + 1 != fields.len() {
                    assert(!placed(all, j as int));
                    return Err(Error::InvalidConfiguration);
                }
            },
            _ => {},
        }
        assert(placed(all, j as int));
        j = j + 1;
    }
    Ok(())
}

/// The field whose length the field at `source` holds, with the unit of that
/// length, if any field takes its length from it.
pub(crate) fn find_target(source: usize, fields: &[Field]) -> (target: Option<
    (usize, LengthPrefixKind),
>)
    requires
        source < fields@.len(),
    ensures
        match length_prefix_target(field_models(fields@), source as nat) {
            Some((index, kind)) => target == Some((index as usize, kind)) && index < fields@.len(),
            None => target.is_none(),
        },
{
    let ghost all = field_models(fields@);
    let ghost name = all[source as int].name;
    let mut j: usize = 0;
    while j < fields.len()
        invariant
            j <= fields@.len(),
            source < fields@.len(),
            all == field_models(fields@),
            name == all[source as int].name,
            prefix_target(all, name, 0) == prefix_target(all, name, j as nat),
        decreases fields@.len() - j,
    {
        match &fields[j].attr {
            FieldAttr::LengthPrefix { kind, prefix_field_name } => {
                if *prefix_field_name == fields[source].name {
                    return Some((j, *kind));
                }
            },
            _ => {},
        }
        j = j + 1;
    }
    None
}

/// Whether a field takes its length from the field at `source`.
pub open spec fn holds_length(fields: Seq<FieldModel>, source: nat) -> bool {
    length_prefix_target(fields, source) is Some
}

/// The field whose length the field at `source` holds, with the unit of that
/// length, if any field takes its length from it. It is
/// `InvalidConfiguration` where any field of the aggregate does not stand
/// where its declaration lets it stand.
pub fn length_prefix_of(source: usize, fields: &[Field]) -> (r: Result<
    Option<(usize, LengthPrefixKind)>,
    Error,
>)
    requires
        source < fields@.len(),
    ensures
        !well_configured(field_models(fields@)) ==> (r matches Err(e) && e@
            == Failure::InvalidConfiguration),
        well_configured(field_models(fields@)) ==> match length_prefix_target(
            field_models(fields@),
            source as nat,
        ) {
            Some((index, kind)) => r == Ok::<Option<(usize, LengthPrefixKind)>, Error>(
                Some((index as usize, kind)),
            ) && index < fields@.len(),
            None => r == Ok::<Option<(usize, LengthPrefixKind)>, Error>(None),
        },
{
    match validate_fields(fields) {
        Ok(()) => Ok(find_target(source, fields)),
        Err(e) => Err(e),
    }
}

/// The hints as a pass leaves them before the field: the bit width is the
/// one declared for the field, or none.
pub open spec fn hints_before(hints: HintsModel, field: FieldModel) -> HintsModel {
    HintsModel {
        field_width: match field.attr {
            FieldAttrModel::BitField(bits) => Some(bits),
            _ => None,
        },
        ..hints
    }
}

/// The hints as a pass leaves them after the field at `source`, whose value
/// is `value`: where another field takes its length from this one, that
/// length is announced for it; then the pass moves on.
pub open spec fn hints_after(
    hints: HintsModel,
    fields: Seq<FieldModel>,
    source: nat,
    value: Option<usize>,
) -> HintsModel {
    HintsModel {
        current_field_index: Some((source + 1) as usize),
        field_width: None,
        known_field_lengths: match (length_prefix_target(fields, source), value) {
            (Some((index, kind)), Some(length)) => hints.known_field_lengths.insert(
                index as usize,
                FieldLength { length, kind },
            ),
            _ => hints.known_field_lengths,
        },
    }
}

/// Sets the bit width for the field that is about to be processed.
pub fn update_hints_before(hints: &mut Hints, field: &Field)
    ensures
        final(hints)@ == hints_before(old(hints)@, field@),
{
    match &field.attr {
        FieldAttr::BitField(bits) => {
            hints.field_width = Some(*bits);
        },
        _ => {
            hints.field_width = None;
        },
    }
}

/// Announces what the field just processed tells a later one, and moves on.
pub(crate) fn move_on(hints: &mut Hints, source: usize, fields: &[Field], length: Option<usize>)
    requires
        source < fields@.len(),
        old(hints)@.current_field_index == Some(source),
    ensures
        final(hints)@ == hints_after(old(hints)@, field_models(fields@), source as nat, length),
{
    let _count: usize = fields.len();
    match find_target(source, fields) {
        Some((target, kind)) => match length {
            Some(length) => {
                hints.set_field_length(target, length, kind);
            },
            None => {},
        },
        None => {},
    }
    hints.next_field();
}

/// The value of a number as a length, where a `usize` holds it.
pub open spec fn as_length(v: int) -> Option<usize> {
    if 0 <= v <= usize::MAX {
        Some(v as usize)
    } else {
        None
    }
}

/// A number as a length, where a `usize` holds it.
pub(crate) fn length_of(v: i128) -> (length: Option<usize>)
    ensures
        length == as_length(v as int),
{
    if 0 <= v && v <= usize::MAX as i128 {
        Some(v as usize)
    } else {
        None
    }
}

/// The hints after the field at `source`, whose value is the number `value`
/// or not a number. It is `InvalidConfiguration` where a field does not stand
/// where its declaration lets it stand, or takes its length from a field that
/// holds no number, and `IntegerConversion` where the number that is to be
/// a length is one that no `usize` holds.
pub open spec fn after_field(
    hints: HintsModel,
    fields: Seq<FieldModel>,
    source: nat,
    value: Option<int>,
) -> Result<HintsModel, Failure> {
    if !well_configured(fields) {
        Err(Failure::InvalidConfiguration)
    } else if !holds_length(fields, source) {
        Ok(hints_after(hints, fields, source, None))
    } else {
        match value {
            None => Err(Failure::InvalidConfiguration),
            Some(v) => match as_length(v) {
                Some(length) => Ok(hints_after(hints, fields, source, Some(length))),
                None => Err(Failure::IntegerConversion),
            },
        }
    }
}

/// Announces what the field just processed tells a later one, and moves on.
/// `value` is the value of the field where it is a number. On an error the
/// hints stay as they were.
pub fn update_hints_after(
    hints: &mut Hints,
    source: usize,
    fields: &[Field],
    value: Option<i128>,
) -> (r: Result<(), Error>)
    requires
        source < fields@.len(),
        old(hints)@.current_field_index == Some(source),
    ensures
        match after_field(
            old(hints)@,
            field_models(fields@),
            source as nat,
            match value {
                Some(v) => Some(v as int),
                None => None,
            },
        ) {
            Ok(after) => r is Ok && final(hints)@ == after,
            Err(f) => r matches Err(e) && e@ == f && final(hints)@ == old(hints)@,
        },
{
    match validate_fields(fields) {
        Ok(()) => {},
        Err(e) => {
            return Err(e);
        },
    }
    let length = match find_target(source, fields) {
        Some(_) => match value {
            Some(v) => match length_of(v) {
                Some(length) => Some(length),
                None => {
                    return Err(Error::IntegerConversion);
                },
            },
            None => {
                return Err(Error::InvalidConfiguration);
            },
        },
        None => None,
    };
    move_on(hints, source, fields, length);
    Ok(())
}

/// The context in which the field at `index` is processed by a pass that
/// stands at it.
pub open spec fn field_context(
    settings: Settings,
    order: ByteOrder,
    hints: HintsModel,
    field: FieldModel,
) -> Context {
    Context { settings, order, length: hints_before(hints, field).current_field_length() }
}

/// Whether the field at `index` is refused before the stream is touched: a
/// field of the aggregate does not stand where its declaration lets it
/// stand, or a field takes its length from this one, which holds no number,
/// or this field runs to the end of the stream, which a single value does
/// not.
pub open spec fn refused(fields: Seq<FieldModel>, index: nat, number: bool) -> bool {
    ||| !well_configured(fields)
    ||| !number && holds_length(fields, index)
    ||| fields[index as int].attr is FlexibleArrayMember
}

/// Checks the declarations for the field at `index` before it is processed.
fn vet_field(index: usize, fields: &[Field], number: bool) -> (r: Result<(), Error>)
    requires
        index < fields@.len(),
    ensures
        match r {
            Ok(()) => !refused(field_models(fields@), index as nat, number),
            Err(e) => refused(field_models(fields@), index as nat, number) && e@
                == Failure::InvalidConfiguration,
        },
{
    match validate_fields(fields) {
        Ok(()) => {},
        Err(e) => {
            return Err(e);
        },
    }
    if !number && find_target(index, fields).is_some() {
        return Err(Error::InvalidConfiguration);
    }
    match &fields[index].attr {
        FieldAttr::FlexibleArrayMember => Err(Error::InvalidConfiguration),
        _ => Ok(()),
    }
}

/// Reads the field at `index` of an aggregate, a field that holds no length.
/// It is `InvalidConfiguration`, with the stream and the hints as they were,
/// where the declarations of the aggregate are wrong, another field takes
/// its length from this one, or this field runs to the end of the stream.
pub fn read_field_at<T: Protocol>(
    index: usize,
    fields: &[Field],
    read: &mut BitReader,
    settings: &Settings,
    hints: &mut Hints,
) -> (r: Result<T, Error>)
    requires
        index < fields@.len(),
        old(hints)@.current_field_index == Some(index),
    ensures
        refused(field_models(fields@), index as nat, false) ==> {
            &&& r matches Err(e) && e@ == Failure::InvalidConfiguration
            &&& final(read).remaining() == old(read).remaining()
            &&& final(read).order() == old(read).order()
            &&& final(hints)@ == old(hints)@
        },
        !refused(field_models(fields@), index as nat, false) ==> {
            &&& final(hints)@ == hints_after(old(hints)@, field_models(fields@), index as nat, None)
            &&& read_outcome(
                match r {
                    Ok(v) => Ok(v.model()),
                    Err(e) => Err(e@),
                },
                *old(read),
                *final(read),
                T::decoding(
                    old(read).remaining(),
                    field_context(
                        *settings,
                        old(read).order(),
                        old(hints)@,
                        fields@[index as int]@,
                    ),
                ),
            )
        },
{
    match vet_field(index, fields, false) {
        Ok(()) => {},
        Err(e) => {
            return Err(e);
        },
    }
    update_hints_before(hints, &fields[index]);
    let res = T::read_field(read, settings, hints);
    move_on(hints, index, fields, None);
    res
}

/// Writes the field at `index` of an aggregate, a field that holds no
/// length. It is `InvalidConfiguration`, with the stream and the hints as
/// they were, where the declarations of the aggregate are wrong, another
/// field takes its length from this one, or this field runs to the end of
/// the stream.
pub fn write_field_at<T: Protocol>(
    value: &T,
    index: usize,
    fields: &[Field],
    write: &mut BitWriter,
    settings: &Settings,
    hints: &mut Hints,
) -> (r: Result<(), Error>)
    requires
        index < fields@.len(),
        old(hints)@.current_field_index == Some(index),
    ensures
        refused(field_models(fields@), index as nat, false) ==> {
            &&& r matches Err(e) && e@ == Failure::InvalidConfiguration
            &&& final(write).written() == old(write).written()
            &&& final(write).order() == old(write).order()
            &&& final(hints)@ == old(hints)@
        },
        !refused(field_models(fields@), index as nat, false) ==> {
            &&& final(hints)@ == hints_after(old(hints)@, field_models(fields@), index as nat, None)
            &&& write_outcome(
                r,
                *old(write),
                *final(write),
                T::encoding(
                    value.model(),
                    field_context(
                        *settings,
                        old(write).order(),
                        old(hints)@,
                        fields@[index as int]@,
                    ),
                ),
            )
        },
{
    match vet_field(index, fields, false) {
        Ok(()) => {},
        Err(e) => {
            return Err(e);
        },
    }
    update_hints_before(hints, &fields[index]);
    let res = value.write_field(write, settings, hints);
    move_on(hints, index, fields, None);
    res
}

/// The hints as a pass over fields without names leaves them after a field:
/// nothing is announced, and the pass moves on.
pub open spec fn hints_after_unnamed(hints: HintsModel) -> HintsModel {
    HintsModel {
        current_field_index: Some((hints.current_field_index->Some_0 + 1) as usize),
        field_width: None,
        ..hints
    }
}

/// Reads a field of an aggregate whose fields have no names. Such a field
/// neither holds nor takes a length.
pub fn read_unnamed_field<T: Protocol>(
    field: &Field,
    read: &mut BitReader,
    settings: &Settings,
    hints: &mut Hints,
) -> (r: Result<T, Error>)
    requires
        old(hints)@.current_field_index matches Some(index) && index < usize::MAX,
    ensures
        final(hints)@ == hints_after_unnamed(old(hints)@),
        read_outcome(
            match r {
                Ok(v) => Ok(v.model()),
                Err(e) => Err(e@),
            },
            *old(read),
            *final(read),
            T::decoding(
                old(read).remaining(),
                field_context(*settings, old(read).order(), old(hints)@, field@),
            ),
        ),
{
    update_hints_before(hints, field);
    let res = T::read_field(read, settings, hints);
    hints.next_field();
    res
}

/// Writes a field of an aggregate whose fields have no names.
pub fn write_unnamed_field<T: Protocol>(
    value: &T,
    field: &Field,
    write: &mut BitWriter,
    settings: &Settings,
    hints: &mut Hints,
) -> (r: Result<(), Error>)
    requires
        old(hints)@.current_field_index matches Some(index) && index < usize::MAX,
    ensures
        final(hints)@ == hints_after_unnamed(old(hints)@),
        write_outcome(
            r,
            *old(write),
            *final(write),
            T::encoding(
                value.model(),
                field_context(*settings, old(write).order(), old(hints)@, field@),
            ),
        ),
{
    update_hints_before(hints, field);
    let res = value.write_field(write, settings, hints);
    hints.next_field();
    res
}

/// The number at the front of `bits` that may be the length of a later
/// field. It is `IntegerConversion` where it is to be a length and no
/// `usize` holds it.
pub open spec fn prefix_decoding<S: Integer>(
    fields: Seq<FieldModel>,
    index: nat,
    bits: Seq<bool>,
    cx: Context,
) -> Result<(int, nat), Failure> {
    match S::decoding(bits, cx) {
        Ok((v, n)) => if holds_length(fields, index) && as_length(v).is_none() {
            Err(Failure::IntegerConversion)
        } else {
            Ok((v, n))
        },
        Err(f) => Err(f),
    }
}

/// The bits of a number that may be the length of a later field. It is
/// `IntegerConversion` where it is to be a length and no `usize` holds it.
pub open spec fn prefix_encoding<S: Integer>(
    fields: Seq<FieldModel>,
    index: nat,
    v: int,
    cx: Context,
) -> Result<Seq<bool>, Failure> {
    if holds_length(fields, index) && as_length(v).is_none() {
        Err(Failure::IntegerConversion)
    } else {
        S::encoding(v, cx)
    }
}

/// Reads the field at `index` of an aggregate, a number that may be the
/// length of a later field. Once it is read the length is announced. It is
/// `InvalidConfiguration`, with the stream and the hints as they were, where
/// the declarations of the aggregate are wrong or this field runs to the end
/// of the stream.
pub fn read_prefix_at<S: Integer>(
    index: usize,
    fields: &[Field],
    read: &mut BitReader,
    settings: &Settings,
    hints: &mut Hints,
) -> (r: Result<S, Error>)
    requires
        index < fields@.len(),
        old(hints)@.current_field_index == Some(index),
    ensures
        refused(field_models(fields@), index as nat, true) ==> {
            &&& r matches Err(e) && e@ == Failure::InvalidConfiguration
            &&& final(read).remaining() == old(read).remaining()
            &&& final(read).order() == old(read).order()
            &&& final(hints)@ == old(hints)@
        },
        !refused(field_models(fields@), index as nat, true) ==> {
            &&& r matches Ok(v) ==> final(hints)@ == hints_after(
                old(hints)@,
                field_models(fields@),
                index as nat,
                as_length(v.model()),
            )
            &&& read_outcome(
                match r {
                    Ok(v) => Ok(v.model()),
                    Err(e) => Err(e@),
                },
                *old(read),
                *final(read),
                prefix_decoding::<S>(
                    field_models(fields@),
                    index as nat,
                    old(read).remaining(),
                    field_context(
                        *settings,
                        old(read).order(),
                        old(hints)@,
                        fields@[index as int]@,
                    ),
                ),
            )
        },
{
    match vet_field(index, fields, true) {
        Ok(()) => {},
        Err(e) => {
            return Err(e);
        },
    }
    update_hints_before(hints, &fields[index]);
    let number = match S::read_field(read, settings, hints) {
        Ok(number) => number,
        Err(e) => {
            return Err(e);
        },
    };
    let length = number.to_usize();
    if length.is_none() && find_target(index, fields).is_some() {
        return Err(Error::IntegerConversion);
    }
    move_on(hints, index, fields, length);
    Ok(number)
}

/// Writes the field at `index` of an aggregate, a number that may be the
/// length of a later field. Once it is written the length is announced.
/// Nothing is written, and the hints stay as they were, where the
/// declarations of the aggregate are wrong or this field runs to the end of
/// the stream (`InvalidConfiguration`) and
/// where the number is to be a length and no `usize` holds it
/// (`IntegerConversion`).
pub fn write_prefix_at<S: Integer>(
    value: &S,
    index: usize,
    fields: &[Field],
    write: &mut BitWriter,
    settings: &Settings,
    hints: &mut Hints,
) -> (r: Result<(), Error>)
    requires
        index < fields@.len(),
        old(hints)@.current_field_index == Some(index),
    ensures
        refused(field_models(fields@), index as nat, true) ==> {
            &&& r matches Err(e) && e@ == Failure::InvalidConfiguration
            &&& final(write).written() == old(write).written()
            &&& final(write).order() == old(write).order()
            &&& final(hints)@ == old(hints)@
        },
        !refused(field_models(fields@), index as nat, true) ==> {
            &&& r is Ok ==> final(hints)@ == hints_after(
                old(hints)@,
                field_models(fields@),
                index as nat,
                as_length(value.model()),
            )
            &&& holds_length(field_models(fields@), index as nat) && as_length(
                value.model(),
            ).is_none() ==> final(write).written() == old(write).written() && final(hints)@
                == old(hints)@
            &&& write_outcome(
                r,
                *old(write),
                *final(write),
                prefix_encoding::<S>(
                    field_models(fields@),
                    index as nat,
                    value.model(),
                    field_context(
                        *settings,
                        old(write).order(),
                        old(hints)@,
                        fields@[index as int]@,
                    ),
                ),
            )
        },
{
    match vet_field(index, fields, true) {
        Ok(()) => {},
        Err(e) => {
            return Err(e);
        },
    }
    let length = value.to_usize();
    if length.is_none() && find_target(index, fields).is_some() {
        return Err(Error::IntegerConversion);
    }
    update_hints_before(hints, &fields[index]);
    match value.write_field(write, settings, hints) {
        Ok(()) => {
            move_on(hints, index, fields, length);
            Ok(())
        },
        Err(e) => Err(e),
    }
}

/// What the field at the front of `bits` decodes to where the field may be
/// declared to be sent in a number of bits.
pub open spec fn packed_decoding<T: BitField>(
    bits: Seq<bool>,
    field: FieldModel,
    cx: Context,
) -> Result<(T::Model, nat), Failure> {
    match field.attr {
        FieldAttrModel::BitField(width) => T::field_decoding(bits, width as nat, cx.inner()),
        _ => T::decoding(bits, cx),
    }
}

/// What a field encodes to where it may be declared to be sent in a number
/// of bits.
pub open spec fn packed_encoding<T: BitField>(
    m: T::Model,
    field: FieldModel,
    cx: Context,
) -> Result<Seq<bool>, Failure> {
    match field.attr {
        FieldAttrModel::BitField(width) => T::field_encoding(m, width as nat, cx.inner()),
        _ => T::encoding(m, cx),
    }
}

/// Reads the field at `index` of an aggregate, in the bit width declared for
/// it if one is declared. The field holds no length. It is
/// `InvalidConfiguration`, with the stream and the hints as they were, where
/// the declarations of the aggregate are wrong, another field takes its
/// length from this one, or this field runs to the end of the stream.
pub fn read_packed_at<T: BitField>(
    index: usize,
    fields: &[Field],
    read: &mut BitReader,
    settings: &Settings,
    hints: &mut Hints,
) -> (r: Result<T, Error>)
    requires
        index < fields@.len(),
        old(hints)@.current_field_index == Some(index),
    ensures
        refused(field_models(fields@), index as nat, false) ==> {
            &&& r matches Err(e) && e@ == Failure::InvalidConfiguration
            &&& final(read).remaining() == old(read).remaining()
            &&& final(read).order() == old(read).order()
            &&& final(hints)@ == old(hints)@
        },
        !refused(field_models(fields@), index as nat, false) ==> {
            &&& final(hints)@ == hints_after(old(hints)@, field_models(fields@), index as nat, None)
            &&& read_outcome(
                match r {
                    Ok(v) => Ok(v.model()),
                    Err(e) => Err(e@),
                },
                *old(read),
                *final(read),
                packed_decoding::<T>(
                    old(read).remaining(),
                    fields@[index as int]@,
                    field_context(
                        *settings,
                        old(read).order(),
                        old(hints)@,
                        fields@[index as int]@,
                    ),
                ),
            )
        },
{
    match vet_field(index, fields, false) {
        Ok(()) => {},
        Err(e) => {
            return Err(e);
        },
    }
    update_hints_before(hints, &fields[index]);
    let res = match hints.field_width {
        Some(bits) => T::read_bit_field(read, settings, hints, bits),
        None => T::read_field(read, settings, hints),
    };
    move_on(hints, index, fields, None);
    res
}

/// Writes the field at `index` of an aggregate, in the bit width declared
/// for it if one is declared. The field holds no length. It is
/// `InvalidConfiguration`, with the stream and the hints as they were, where
/// the declarations of the aggregate are wrong, another field takes its
/// length from this one, or this field runs to the end of the stream.
pub fn write_packed_at<T: BitField>(
    value: &T,
    index: usize,
    fields: &[Field],
    write: &mut BitWriter,
    settings: &Settings,
    hints: &mut Hints,
) -> (r: Result<(), Error>)
    requires
        index < fields@.len(),
        old(hints)@.current_field_index == Some(index),
    ensures
        refused(field_models(fields@), index as nat, false) ==> {
            &&& r matches Err(e) && e@ == Failure::InvalidConfiguration
            &&& final(write).written() == old(write).written()
            &&& final(write).order() == old(write).order()
            &&& final(hints)@ == old(hints)@
        },
        !refused(field_models(fields@), index as nat, false) ==> {
            &&& final(hints)@ == hints_after(old(hints)@, field_models(fields@), index as nat, None)
            &&& write_outcome(
                r,
                *old(write),
                *final(write),
                packed_encoding::<T>(
                    value.model(),
                    fields@[index as int]@,
                    field_context(
                        *settings,
                        old(write).order(),
                        old(hints)@,
                        fields@[index as int]@,
                    ),
                ),
            )
        },
{
    match vet_field(index, fields, false) {
        Ok(()) => {},
        Err(e) => {
            return Err(e);
        },
    }
    update_hints_before(hints, &fields[index]);
    let res = match hints.field_width {
        Some(bits) => value.write_bit_field(write, settings, hints, bits),
        None => value.write_field(write, settings, hints),
    };
    move_on(hints, index, fields, None);
    res
}

/// The fields of a record that holds a count and then a payload of bytes
/// whose length is that count.
pub open spec fn counted_payload(kind: LengthPrefixKind) -> Seq<FieldModel> {
    seq![
        FieldModel { name: "count"@, attr: FieldAttrModel::Plain },
        FieldModel {
            name: "payload"@,
            attr: FieldAttrModel::LengthPrefix { kind, prefix_field_name: "count"@ },
        },
    ]
}

/// In a record that holds a count and then a payload of bytes whose length
/// is that count, the pass that has processed the count tells the payload
/// its length; the payload is then written as exactly its bytes, with no
/// count of its own, and read back exactly.
pub proof fn lemma_counted_payload(
    payload: Seq<u8>,
    kind: LengthPrefixKind,
    settings: Settings,
    order: ByteOrder,
    hints: HintsModel,
    rest: Seq<bool>,
)
    requires
        payload.len() <= usize::MAX,
        hints.current_field_index == Some(0usize),
    ensures
        ({
            let fields = counted_payload(kind);
            let told = hints_after(
                hints_before(hints, fields[0]),
                fields,
                0,
                as_length(payload.len() as int),
            );
            let cx = field_context(settings, order, told, fields[1]);
            &&& told.current_field_index == Some(1usize)
            &&& cx.length == Some(FieldLength { length: payload.len() as usize, kind })
            &&& list_encoding::<SizeType, u8>(byte_models(payload), cx) == Ok::<
                Seq<bool>,
                Failure,
            >(bytes_bits(payload, order))
            &&& bytes_bits(payload, order).len() == 8 * payload.len()
            &&& list_decoding::<SizeType, u8>(bytes_bits(payload, order) + rest, cx) == Ok::<
                (Seq<int>, nat),
                Failure,
            >((byte_models(payload), 8 * payload.len()))
        }),
{
    let fields = counted_payload(kind);
    reveal_with_fuel(prefix_target, 3);
    assert(length_prefix_target(fields, 0) == Some((1nat, kind)));
    lemma_disjoint_length_prefix(payload, kind, settings, order, rest);
}

} // verus!

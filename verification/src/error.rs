//! The ways in which a read or a write fails.

use vstd::prelude::*;

verus! {

/// The tag of a tagged union as it stood on the wire.
#[derive(Debug)]
pub enum Discriminant {
    /// A tag of an integer type.
    Integer(i128),
    /// A tag that is a string.
    Text(String),
}

/// What a reported tag is, as a mathematical value.
pub enum DiscriminantModel {
    Integer(i128),
    Text(Seq<char>),
}

impl View for Discriminant {
    type V = DiscriminantModel;

    open spec fn view(&self) -> DiscriminantModel {
        match self {
            Discriminant::Integer(v) => DiscriminantModel::Integer(*v),
            Discriminant::Text(s) => DiscriminantModel::Text(s@),
        }
    }
}

/// Why an operation stopped. Every failure ends the operation in progress.
#[derive(Debug)]
pub enum Error {
    /// The source ended before the value did, or the sink refused a write.
    Io,
    /// Bytes that should spell a string are not UTF-8.
    Utf8,
    /// A count or a tag does not fit the integer type it must be held in.
    IntegerConversion,
    /// A padding byte after an aligned value is not zero.
    NonZeroPadding,
    /// The tag read matches no variant; it is carried along.
    UnknownDiscriminant(Discriminant),
    /// A tag supplied by the caller does not convert to the union's tag type.
    TagConversion,
    /// A length prefix names a field that its aggregate does not have, or
    /// counts bytes of elements that take none.
    InvalidConfiguration,
}

/// An [`Error`] as a mathematical value.
pub enum Failure {
    Io,
    Utf8,
    IntegerConversion,
    NonZeroPadding,
    UnknownDiscriminant(DiscriminantModel),
    TagConversion,
    InvalidConfiguration,
}

impl View for Error {
    type V = Failure;

    open spec fn view(&self) -> Failure {
        match self {
            Error::Io => Failure::Io,
            Error::Utf8 => Failure::Utf8,
            Error::IntegerConversion => Failure::IntegerConversion,
            Error::NonZeroPadding => Failure::NonZeroPadding,
            Error::UnknownDiscriminant(d) => Failure::UnknownDiscriminant(d@),
            Error::TagConversion => Failure::TagConversion,
            Error::InvalidConfiguration => Failure::InvalidConfiguration,
        }
    }
}

} // verus!

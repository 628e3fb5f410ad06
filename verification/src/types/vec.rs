//! Growable sequences: `std::vec::Vec` counted by a `u32`, and a sequence
//! counted by an integer type of the caller's choice.

use crate::error::{Error, Failure};
use crate::hint::Hints;
use crate::protocol::{Context, Protocol};
use crate::settings::{ByteOrder, Settings};
use crate::stream::{BitReader, BitWriter};
use crate::types::numerics::Integer;
use crate::util::{
    lemma_list_decoding_fits, lemma_list_plain, lemma_list_round_trip, list_decoding,
    list_described, list_encoding, models, read_list, read_list_ext, write_list, write_list_ext,
    SizeType,
};
use vstd::prelude::*;

verus! {

/// A sequence whose element count is sent as an `S`.
pub struct Vec<S: Integer, T: Protocol> {
    /// The elements.
    pub elements: std::vec::Vec<T>,
    /// Only holds the type of the count.
    pub _a: std::marker::PhantomData<S>,
}

impl<S: Integer, T: Protocol> Vec<S, T> {
    /// A sequence of the given elements.
    pub fn new(elements: std::vec::Vec<T>) -> (v: Self)
        ensures
            v.elements == elements,
    {
        Vec { elements, _a: std::marker::PhantomData }
    }
}

impl<S: Integer, T: Protocol> Protocol for Vec<S, T> {
    type Model = Seq<T::Model>;

    open spec fn model(&self) -> Seq<T::Model> {
        models(self.elements@)
    }

    open spec fn encoding(m: Seq<T::Model>, cx: Context) -> Result<Seq<bool>, Failure> {
        list_encoding::<S, T>(m, cx)
    }

    open spec fn decoding(bits: Seq<bool>, cx: Context) -> Result<(Seq<T::Model>, nat), Failure> {
        list_decoding::<S, T>(bits, cx)
    }

    open spec fn described(m: Seq<T::Model>, cx: Context) -> bool {
        list_described::<T>(m, cx)
    }

    proof fn lemma_plain(m: Seq<T::Model>, settings: Settings, order: ByteOrder) {
        lemma_list_plain::<S, T>(m, settings, order);
    }

    proof fn lemma_decoding_fits(bits: Seq<bool>, cx: Context) {
        lemma_list_decoding_fits::<S, T>(bits, cx);
    }

    proof fn lemma_round_trip(m: Seq<T::Model>, cx: Context, rest: Seq<bool>) {
        lemma_list_round_trip::<S, T>(m, cx, rest);
    }

    fn read_field(read: &mut BitReader, settings: &Settings, hints: &mut Hints) -> (r: Result<
        Self,
        Error,
    >) {
        match read_list_ext::<S, T>(read, settings, hints) {
            Ok(elements) => Ok(Self::new(elements)),
            Err(e) => Err(e),
        }
    }

    fn write_field(&self, write: &mut BitWriter, settings: &Settings, hints: &mut Hints) -> (r:
        Result<(), Error>) {
        write_list_ext::<S, T>(self.elements.as_slice(), write, settings, hints)
    }
}

impl<T: Protocol> Protocol for std::vec::Vec<T> {
    type Model = Seq<T::Model>;

    open spec fn model(&self) -> Seq<T::Model> {
        models(self@)
    }

    open spec fn encoding(m: Seq<T::Model>, cx: Context) -> Result<Seq<bool>, Failure> {
        list_encoding::<SizeType, T>(m, cx)
    }

    open spec fn decoding(bits: Seq<bool>, cx: Context) -> Result<(Seq<T::Model>, nat), Failure> {
        list_decoding::<SizeType, T>(bits, cx)
    }

    open spec fn described(m: Seq<T::Model>, cx: Context) -> bool {
        list_described::<T>(m, cx)
    }

    proof fn lemma_plain(m: Seq<T::Model>, settings: Settings, order: ByteOrder) {
        lemma_list_plain::<SizeType, T>(m, settings, order);
    }

    proof fn lemma_decoding_fits(bits: Seq<bool>, cx: Context) {
        lemma_list_decoding_fits::<SizeType, T>(bits, cx);
    }

    proof fn lemma_round_trip(m: Seq<T::Model>, cx: Context, rest: Seq<bool>) {
        lemma_list_round_trip::<SizeType, T>(m, cx, rest);
    }

    fn read_field(read: &mut BitReader, settings: &Settings, hints: &mut Hints) -> (r: Result<
        Self,
        Error,
    >) {
        read_list(read, settings, hints)
    }

    fn write_field(&self, write: &mut BitWriter, settings: &Settings, hints: &mut Hints) -> (r:
        Result<(), Error>) {
        write_list(self.as_slice(), write, settings, hints)
    }
}

} // verus!

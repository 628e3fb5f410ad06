//! Values behind a pointer: sent as the value, read into a fresh allocation.

use crate::error::{Error, Failure};
use crate::hint::Hints;
use crate::protocol::{Context, Protocol};
use crate::settings::{ByteOrder, Settings};
use crate::stream::{BitReader, BitWriter};
use std::rc::Rc;
use std::sync::Arc;
use vstd::prelude::*;

verus! {

impl<T: Protocol> Protocol for Box<T> {
    type Model = T::Model;

    open spec fn model(&self) -> T::Model {
        (**self).model()
    }

    open spec fn encoding(m: T::Model, cx: Context) -> Result<Seq<bool>, Failure> {
        T::encoding(m, cx.inner())
    }

    open spec fn decoding(bits: Seq<bool>, cx: Context) -> Result<(T::Model, nat), Failure> {
        T::decoding(bits, cx.inner())
    }

    open spec fn described(m: T::Model, cx: Context) -> bool {
        T::described(m, cx.inner())
    }

    proof fn lemma_plain(m: T::Model, settings: Settings, order: ByteOrder) {
        T::lemma_plain(m, settings, order);
    }

    proof fn lemma_decoding_fits(bits: Seq<bool>, cx: Context) {
        T::lemma_decoding_fits(bits, cx.inner());
    }

    proof fn lemma_round_trip(m: T::Model, cx: Context, rest: Seq<bool>) {
        T::lemma_round_trip(m, cx.inner(), rest);
    }

    fn read_field(read: &mut BitReader, settings: &Settings, hints: &mut Hints) -> (r: Result<
        Box<T>,
        Error,
    >) {
        match T::read(read, settings) {
            Ok(value) => Ok(Box::new(value)),
            Err(e) => Err(e),
        }
    }

    fn write_field(&self, write: &mut BitWriter, settings: &Settings, hints: &mut Hints) -> (r:
        Result<(), Error>) {
        (**self).write(write, settings)
    }
}

impl<T: Protocol> Protocol for Rc<T> {
    type Model = T::Model;

    open spec fn model(&self) -> T::Model {
        (**self).model()
    }

    open spec fn encoding(m: T::Model, cx: Context) -> Result<Seq<bool>, Failure> {
        T::encoding(m, cx.inner())
    }

    open spec fn decoding(bits: Seq<bool>, cx: Context) -> Result<(T::Model, nat), Failure> {
        T::decoding(bits, cx.inner())
    }

    open spec fn described(m: T::Model, cx: Context) -> bool {
        T::described(m, cx.inner())
    }

    proof fn lemma_plain(m: T::Model, settings: Settings, order: ByteOrder) {
        T::lemma_plain(m, settings, order);
    }

    proof fn lemma_decoding_fits(bits: Seq<bool>, cx: Context) {
        T::lemma_decoding_fits(bits, cx.inner());
    }

    proof fn lemma_round_trip(m: T::Model, cx: Context, rest: Seq<bool>) {
        T::lemma_round_trip(m, cx.inner(), rest);
    }

    fn read_field(read: &mut BitReader, settings: &Settings, hints: &mut Hints) -> (r: Result<
        Rc<T>,
        Error,
    >) {
        match T::read(read, settings) {
            Ok(value) => Ok(Rc::new(value)),
            Err(e) => Err(e),
        }
    }

    fn write_field(&self, write: &mut BitWriter, settings: &Settings, hints: &mut Hints) -> (r:
        Result<(), Error>) {
        (**self).write(write, settings)
    }
}

impl<T: Protocol> Protocol for Arc<T> {
    type Model = T::Model;

    open spec fn model(&self) -> T::Model {
        (**self).model()
    }

    open spec fn encoding(m: T::Model, cx: Context) -> Result<Seq<bool>, Failure> {
        T::encoding(m, cx.inner())
    }

    open spec fn decoding(bits: Seq<bool>, cx: Context) -> Result<(T::Model, nat), Failure> {
        T::decoding(bits, cx.inner())
    }

    open spec fn described(m: T::Model, cx: Context) -> bool {
        T::described(m, cx.inner())
    }

    proof fn lemma_plain(m: T::Model, settings: Settings, order: ByteOrder) {
        T::lemma_plain(m, settings, order);
    }

    proof fn lemma_decoding_fits(bits: Seq<bool>, cx: Context) {
        T::lemma_decoding_fits(bits, cx.inner());
    }

    proof fn lemma_round_trip(m: T::Model, cx: Context, rest: Seq<bool>) {
        T::lemma_round_trip(m, cx.inner(), rest);
    }

    fn read_field(read: &mut BitReader, settings: &Settings, hints: &mut Hints) -> (r: Result<
        Arc<T>,
        Error,
    >) {
        match T::read(read, settings) {
            Ok(value) => Ok(Arc::new(value)),
            Err(e) => Err(e),
        }
    }

    fn write_field(&self, write: &mut BitWriter, settings: &Settings, hints: &mut Hints) -> (r:
        Result<(), Error>) {
        (**self).write(write, settings)
    }
}

} // verus!

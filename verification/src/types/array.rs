//! Fixed-size arrays: their elements, with no count before them.

use crate::error::{Error, Failure};
use crate::hint::Hints;
use crate::protocol::{Context, Protocol};
use crate::settings::{ByteOrder, Settings};
use crate::stream::{BitReader, BitWriter};
use crate::util::{
    each_described, items_decoding, items_encoding, lemma_items_decoding_fits, lemma_items_plain,
    lemma_items_round_trip, models, read_items, write_items,
};
use vstd::prelude::*;

verus! {

/// `TryFrom<Vec<T>>` for `[T; N]`: the elements as an array where there are
/// exactly `N` of them, and the untouched `Vec` where there are not.
#[verifier::external_body]
fn array_from_vec<T, const N: usize>(items: Vec<T>) -> (r: Result<[T; N], Vec<T>>)
    ensures
        match r {
            Ok(array) => items@.len() == N && array@ == items@,
            Err(back) => items@.len() != N && back@ == items@,
        },
{
    items.try_into()
}

impl<T: Protocol, const N: usize> Protocol for [T; N] {
    type Model = Seq<T::Model>;

    open spec fn model(&self) -> Seq<T::Model> {
        models(self@)
    }

    open spec fn encoding(m: Seq<T::Model>, cx: Context) -> Result<Seq<bool>, Failure> {
        if m.len() == N {
            items_encoding::<T>(m, cx.inner())
        } else {
            Err(Failure::InvalidConfiguration)
        }
    }

    open spec fn decoding(bits: Seq<bool>, cx: Context) -> Result<(Seq<T::Model>, nat), Failure> {
        items_decoding::<T>(bits, N as nat, cx.inner())
    }

    /// The array has its `N` elements, each of them as a reader expects it.
    open spec fn described(m: Seq<T::Model>, cx: Context) -> bool {
        m.len() == N && each_described::<T>(m, cx.inner())
    }

    proof fn lemma_plain(m: Seq<T::Model>, settings: Settings, order: ByteOrder) {
        lemma_items_plain::<T>(m, settings, order);
    }

    proof fn lemma_decoding_fits(bits: Seq<bool>, cx: Context) {
        lemma_items_decoding_fits::<T>(bits, N as nat, cx.inner());
    }

    proof fn lemma_round_trip(m: Seq<T::Model>, cx: Context, rest: Seq<bool>) {
        lemma_items_round_trip::<T>(m, cx.inner(), rest);
    }

    fn read_field(read: &mut BitReader, settings: &Settings, hints: &mut Hints) -> (r: Result<
        [T; N],
        Error,
    >) {
        proof {
            lemma_items_decoding_fits::<T>(
                read.remaining(),
                N as nat,
                Context::plain(*settings, read.order()),
            );
        }
        let elements: Vec<T> = match read_items::<T>(N, read, settings) {
            Ok(elements) => elements,
            Err(e) => {
                return Err(e);
            },
        };
        match array_from_vec::<T, N>(elements) {
            Ok(array) => Ok(array),
            Err(_) => Err(Error::Io),
        }
    }

    fn write_field(&self, write: &mut BitWriter, settings: &Settings, hints: &mut Hints) -> (r:
        Result<(), Error>) {
        write_items(self.as_slice(), write, settings)
    }
}

} // verus!

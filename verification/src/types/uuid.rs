//! Universally unique identifiers: their sixteen bytes, as they are.

use crate::bits::{bits_bytes, bytes_bits, lemma_bytes_of_bits};
use crate::error::{Error, Failure};
use crate::hint::Hints;
use crate::protocol::{Context, Protocol};
use crate::settings::{ByteOrder, Settings};
use crate::stream::{BitReader, BitWriter};
use vstd::array::array_fill_for_copy_types;
use vstd::prelude::*;

verus! {

/// `uuid::Uuid`.
#[verifier::external_type_specification]
#[verifier::external_body]
pub struct ExUuid(::uuid::Uuid);

/// The bytes that an identifier holds.
pub uninterp spec fn uuid_bytes(id: ::uuid::Uuid) -> Seq<u8>;

/// `Uuid::from_bytes`: the identifier that holds the sixteen bytes.
#[verifier::external_body]
fn uuid_from_bytes(bytes: [u8; 16]) -> (id: ::uuid::Uuid)
    ensures
        uuid_bytes(id) == bytes@,
{
    ::uuid::Uuid::from_bytes(bytes)
}

/// `Uuid::as_bytes`: the sixteen bytes that the identifier holds.
#[verifier::external_body]
fn uuid_as_bytes(id: &::uuid::Uuid) -> (bytes: &[u8; 16])
    ensures
        bytes@ == uuid_bytes(*id),
{
    id.as_bytes()
}

/// The bits of an identifier: its bytes in their own order, whatever the
/// byte order of the settings.
pub open spec fn uuid_encoding(m: Seq<u8>, cx: Context) -> Result<Seq<bool>, Failure> {
    if m.len() == 16 {
        Ok(bytes_bits(m, cx.order))
    } else {
        Err(Failure::InvalidConfiguration)
    }
}

/// The identifier at the front of `bits`.
pub open spec fn uuid_decoding(bits: Seq<bool>, cx: Context) -> Result<(Seq<u8>, nat), Failure> {
    if bits.len() < 128 {
        Err(Failure::Io)
    } else {
        Ok((bits_bytes(bits.take(128), cx.order), 128))
    }
}

impl Protocol for ::uuid::Uuid {
    type Model = Seq<u8>;

    open spec fn model(&self) -> Seq<u8> {
        uuid_bytes(*self)
    }

    open spec fn encoding(m: Seq<u8>, cx: Context) -> Result<Seq<bool>, Failure> {
        uuid_encoding(m, cx)
    }

    open spec fn decoding(bits: Seq<bool>, cx: Context) -> Result<(Seq<u8>, nat), Failure> {
        uuid_decoding(bits, cx)
    }

    /// An identifier has sixteen bytes.
    open spec fn described(m: Seq<u8>, cx: Context) -> bool {
        m.len() == 16
    }

    proof fn lemma_plain(m: Seq<u8>, settings: Settings, order: ByteOrder) {
        lemma_bytes_of_bits(m, settings.byte_order);
    }

    proof fn lemma_decoding_fits(bits: Seq<bool>, cx: Context) {
    }

    proof fn lemma_round_trip(m: Seq<u8>, cx: Context, rest: Seq<bool>) {
        let bits = bytes_bits(m, cx.order);
        assert((bits + rest).take(128) =~= bits);
        lemma_bytes_of_bits(m, cx.order);
    }

    fn read_field(read: &mut BitReader, settings: &Settings, hints: &mut Hints) -> (r: Result<
        ::uuid::Uuid,
        Error,
    >) {
        let bytes = match read.read_bytes(16) {
            Ok(bytes) => bytes,
            Err(e) => {
                return Err(e);
            },
        };
        let mut raw: [u8; 16] = array_fill_for_copy_types(0u8);
        let mut i: usize = 0;
        while i < 16
            invariant
                i <= 16,
                bytes@.len() == 16,
                forall|k: int| 0 <= k < i ==> raw@[k] == bytes@[k],
            decreases 16 - i,
        {
            raw[i] = bytes[i];
            i = i + 1;
        }
        proof {
            assert(raw@ =~= bytes@);
        }
        Ok(uuid_from_bytes(raw))
    }

    fn write_field(&self, write: &mut BitWriter, settings: &Settings, hints: &mut Hints) -> (r:
        Result<(), Error>) {
        write.write_bytes(uuid_as_bytes(self).as_slice());
        Ok(())
    }
}

} // verus!

//! Strings: their UTF-8 bytes, counted as a list of bytes is.

use crate::error::{Error, Failure};
use crate::hint::Hints;
use crate::protocol::{read_outcome, write_outcome, Context, Protocol};
use crate::settings::{ByteOrder, Settings};
use crate::stream::{BitReader, BitWriter};
use crate::util::{
    all_decoding, byte_models, items_decoding, items_encoding, lemma_bytes_fail_as_io,
    lemma_list_decoding_fits,
    lemma_list_plain, lemma_list_round_trip, list_decoding, list_described, list_encoding,
    model_bytes, models, read_items, read_items_to_eof, read_list, write_items, write_list,
    SizeType,
};
use vstd::prelude::*;
use vstd::std_specs::convert::TryIntoSpec;
use vstd::string::StringSliceAdditionalSpecFns;
use vstd::utf8::{
    decode_utf8, encode_utf8, encode_utf8_decode_utf8, encode_utf8_valid_utf8, valid_utf8,
};

verus! {

/// `std::string::FromUtf8Error`, which `String::from_utf8` reports.
#[verifier::external_type_specification]
#[verifier::external_body]
pub struct ExFromUtf8Error(std::string::FromUtf8Error);

/// `String::from_utf8`: the string that the bytes spell in UTF-8, and an
/// error exactly where they spell none.
#[verifier::external_body]
fn string_from_utf8(bytes: Vec<u8>) -> (r: Result<String, std::string::FromUtf8Error>)
    ensures
        match r {
            Ok(s) => valid_utf8(bytes@) && s@ == decode_utf8(bytes@),
            Err(_) => !valid_utf8(bytes@),
        },
{
    String::from_utf8(bytes)
}

/// The string that a run of bytes spells, or `Utf8` where it spells none.
pub open spec fn text_of(
    read: Result<(Seq<int>, nat), Failure>,
) -> Result<(Seq<char>, nat), Failure> {
    match read {
        Ok((values, n)) => if valid_utf8(model_bytes(values)) {
            Ok((decode_utf8(model_bytes(values)), n))
        } else {
            Err(Failure::Utf8)
        },
        Err(f) => Err(f),
    }
}

/// The bits of a string: its UTF-8 bytes as a list of bytes.
pub open spec fn string_encoding(m: Seq<char>, cx: Context) -> Result<Seq<bool>, Failure> {
    list_encoding::<SizeType, u8>(byte_models(encode_utf8(m)), cx)
}

/// The string at the front of `bits`.
pub open spec fn string_decoding(
    bits: Seq<bool>,
    cx: Context,
) -> Result<(Seq<char>, nat), Failure> {
    text_of(list_decoding::<SizeType, u8>(bits, cx))
}

/// Turns bytes just read into a string.
fn finish_string(bytes: Vec<u8>) -> (r: Result<String, Error>)
    ensures
        match r {
            Ok(s) => valid_utf8(bytes@) && s@ == decode_utf8(bytes@),
            Err(e) => !valid_utf8(bytes@) && e@ == Failure::Utf8,
        },
{
    match string_from_utf8(bytes) {
        Ok(s) => Ok(s),
        Err(_) => Err(Error::Utf8),
    }
}

/// Reads a string of `byte_count` bytes that has no count before it.
pub fn read_string(byte_count: usize, read: &mut BitReader, settings: &Settings) -> (r: Result<
    String,
    Error,
>)
    ensures
        read_outcome(
            match r {
                Ok(s) => Ok(s@),
                Err(e) => Err(e@),
            },
            *old(read),
            *final(read),
            text_of(
                items_decoding::<u8>(
                    old(read).remaining(),
                    byte_count as nat,
                    Context::plain(*settings, old(read).order()),
                ),
            ),
        ),
{
    let bytes: Vec<u8> = match read_items::<u8>(byte_count, read, settings) {
        Ok(bytes) => bytes,
        Err(e) => {
            return Err(e);
        },
    };
    proof {
        assert(model_bytes(models(bytes@)) =~= bytes@);
    }
    finish_string(bytes)
}

/// The string that fills a run of bytes, or `Utf8` where they spell none.
pub open spec fn text_to_end(read: Result<Seq<int>, Failure>) -> Result<Seq<char>, Failure> {
    match read {
        Ok(values) => if valid_utf8(model_bytes(values)) {
            Ok(decode_utf8(model_bytes(values)))
        } else {
            Err(Failure::Utf8)
        },
        Err(f) => Err(f),
    }
}

/// Reads a string that has no count before it and runs to the end of the
/// stream.
pub fn read_string_to_eof(read: &mut BitReader, settings: &Settings) -> (r: Result<String, Error>)
    ensures
        match text_to_end(
            all_decoding::<u8>(old(read).remaining(), Context::plain(*settings, old(read).order())),
        ) {
            Ok(text) => {
                &&& r matches Ok(s) && s@ == text
                &&& final(read).order() == old(read).order()
                &&& final(read).remaining().len() == 0
            },
            Err(f) => r matches Err(e) && e@ == f,
        },
{
    let bytes: Vec<u8> = match read_items_to_eof::<u8>(read, settings) {
        Ok(bytes) => bytes,
        Err(e) => {
            return Err(e);
        },
    };
    proof {
        assert(model_bytes(models(bytes@)) =~= bytes@);
    }
    finish_string(bytes)
}

/// Reads a string whose byte count the caller supplies as a tag. It is
/// `TagConversion` where the tag is no `usize`.
pub fn read_tagged_string<Tag: TryInto<usize>>(
    read: &mut BitReader,
    settings: &Settings,
    tag: Tag,
) -> (r: Result<String, Error>)
    ensures
        Tag::obeys_try_into_spec() ==> match tag.try_into_spec() {
            Ok(byte_count) => read_outcome(
                match r {
                    Ok(s) => Ok(s@),
                    Err(e) => Err(e@),
                },
                *old(read),
                *final(read),
                text_of(
                    items_decoding::<u8>(
                        old(read).remaining(),
                        byte_count as nat,
                        Context::plain(*settings, old(read).order()),
                    ),
                ),
            ),
            Err(_) => r matches Err(e) && e@ == Failure::TagConversion,
        },
        (r matches Err(e) && e@ == Failure::TagConversion) ==> {
            &&& final(read).remaining() == old(read).remaining()
            &&& final(read).order() == old(read).order()
        },
{
    let byte_count: usize = match tag.try_into() {
        Ok(byte_count) => byte_count,
        Err(_) => {
            return Err(Error::TagConversion);
        },
    };
    proof {
        lemma_bytes_fail_as_io(
            read.remaining(),
            byte_count as nat,
            Context::plain(*settings, read.order()),
        );
    }
    read_string(byte_count, read, settings)
}

/// Writes a string with no count before it, for a reader that knows its
/// byte count from elsewhere.
pub fn write_untagged_string(text: &String, write: &mut BitWriter, settings: &Settings) -> (r:
    Result<(), Error>)
    ensures
        write_outcome(
            r,
            *old(write),
            *final(write),
            items_encoding::<u8>(
                byte_models(encode_utf8(text@)),
                Context::plain(*settings, old(write).order()),
            ),
        ),
{
    let bytes = text.as_str().as_bytes();
    proof {
        assert(models(bytes@) =~= byte_models(encode_utf8(text@)));
    }
    write_items::<u8>(bytes, write, settings)
}

impl Protocol for String {
    type Model = Seq<char>;

    open spec fn model(&self) -> Seq<char> {
        self@
    }

    open spec fn encoding(m: Seq<char>, cx: Context) -> Result<Seq<bool>, Failure> {
        string_encoding(m, cx)
    }

    open spec fn decoding(bits: Seq<bool>, cx: Context) -> Result<(Seq<char>, nat), Failure> {
        string_decoding(bits, cx)
    }

    open spec fn described(m: Seq<char>, cx: Context) -> bool {
        list_described::<u8>(byte_models(encode_utf8(m)), cx)
    }

    proof fn lemma_plain(m: Seq<char>, settings: Settings, order: ByteOrder) {
        lemma_list_plain::<SizeType, u8>(byte_models(encode_utf8(m)), settings, order);
    }

    proof fn lemma_decoding_fits(bits: Seq<bool>, cx: Context) {
        lemma_list_decoding_fits::<SizeType, u8>(bits, cx);
    }

    proof fn lemma_round_trip(m: Seq<char>, cx: Context, rest: Seq<bool>) {
        let bytes = encode_utf8(m);
        lemma_list_round_trip::<SizeType, u8>(byte_models(bytes), cx, rest);
        assert(model_bytes(byte_models(bytes)) =~= bytes);
        encode_utf8_valid_utf8(m);
        encode_utf8_decode_utf8(m);
    }

    fn read_field(read: &mut BitReader, settings: &Settings, hints: &mut Hints) -> (r: Result<
        String,
        Error,
    >) {
        let bytes: Vec<u8> = match read_list::<u8>(read, settings, hints) {
            Ok(bytes) => bytes,
            Err(e) => {
                return Err(e);
            },
        };
        proof {
            assert(model_bytes(models(bytes@)) =~= bytes@);
        }
        finish_string(bytes)
    }

    fn write_field(&self, write: &mut BitWriter, settings: &Settings, hints: &mut Hints) -> (r:
        Result<(), Error>) {
        let bytes = self.as_str().as_bytes();
        proof {
            assert(models(bytes@) =~= byte_models(encode_utf8(self@)));
        }
        write_list::<u8>(bytes, write, settings, hints)
    }
}

} // verus!

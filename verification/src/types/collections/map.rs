//! Maps: the number of entries, then each key with its value.
//!
//! A map is handled here as its entries in the order in which they are sent.
//! That order is the writer's to choose and is the order in which the reader
//! gets them. A map never takes its length from another field.

use crate::error::{Error, Failure};
use crate::hint::Hints;
use crate::protocol::{read_outcome, write_outcome, Context, Protocol};
use crate::settings::Settings;
use crate::stream::{BitReader, BitWriter};
use crate::types::numerics::Integer;
use crate::util::{
    after_bits, items_encoding, list_decoding, list_encoding, models, read_list_ext,
    write_list_ext,
};
use vstd::prelude::*;

verus! {

/// The integer type that counts the entries of a map.
pub type SizeType = u32;

/// Reads the entries of a map.
pub fn read_entries<K: Protocol, V: Protocol>(read: &mut BitReader, settings: &Settings) -> (r:
    Result<Vec<(K, V)>, Error>)
    ensures
        read_outcome(
            match r {
                Ok(entries) => Ok(models(entries@)),
                Err(e) => Err(e@),
            },
            *old(read),
            *final(read),
            list_decoding::<SizeType, (K, V)>(
                old(read).remaining(),
                Context::plain(*settings, old(read).order()),
            ),
        ),
{
    let mut hints = Hints::default();
    read_list_ext::<SizeType, (K, V)>(read, settings, &mut hints)
}

/// Writes the entries of a map, in the order given.
pub fn write_entries<K: Protocol, V: Protocol>(
    entries: &[(K, V)],
    write: &mut BitWriter,
    settings: &Settings,
) -> (r: Result<(), Error>)
    ensures
        write_outcome(
            r,
            *old(write),
            *final(write),
            list_encoding::<SizeType, (K, V)>(
                models(entries@),
                Context::plain(*settings, old(write).order()),
            ),
        ),
        !SizeType::holds(entries@.len() as int)
            ==> final(write).written() == old(write).written(),
{
    let mut hints = Hints::default();
    write_list_ext::<SizeType, (K, V)>(entries, write, settings, &mut hints)
}

/// The entries that keys and values, each in its place, make up.
pub open spec fn entry_models<K: Protocol, V: Protocol>(keys: Seq<&K>, values: Seq<&V>) -> Seq<
    (K::Model, V::Model),
> {
    Seq::new(keys.len(), |i: int| (keys[i].model(), values[i].model()))
}

/// What the entries of a map that is still held elsewhere are written as:
/// as the entries themselves are. It is `InvalidConfiguration` where there
/// is not one value for each key.
pub open spec fn borrowed_entries_encoding<K: Protocol, V: Protocol>(
    keys: Seq<&K>,
    values: Seq<&V>,
    cx: Context,
) -> Result<Seq<bool>, Failure> {
    if keys.len() == values.len() {
        list_encoding::<SizeType, (K, V)>(entry_models(keys, values), cx)
    } else {
        Err(Failure::InvalidConfiguration)
    }
}

/// Writes the entries of a map that is still held elsewhere, each key with
/// the value in its place, in the order given.
#[verifier::loop_isolation(false)]
pub fn write_borrowed_entries<K: Protocol, V: Protocol>(
    keys: &[&K],
    values: &[&V],
    write: &mut BitWriter,
    settings: &Settings,
) -> (r: Result<(), Error>)
    ensures
        write_outcome(
            r,
            *old(write),
            *final(write),
            borrowed_entries_encoding::<K, V>(
                keys@,
                values@,
                Context::plain(*settings, old(write).order()),
            ),
        ),
        keys@.len() != values@.len() || !SizeType::holds(keys@.len() as int)
            ==> final(write).written() == old(write).written(),
{
    if keys.len() != values.len() {
        return Err(Error::InvalidConfiguration);
    }
    let ghost cx = Context::plain(*settings, old(write).order());
    let ghost all = entry_models(keys@, values@);
    match SizeType::from_usize(keys.len()) {
        Some(count) => match count.write(write, settings) {
            Ok(()) => {},
            Err(e) => {
                proof {
                    SizeType::lemma_holds_encodes(keys@.len() as int, cx);
                }
                return Err(e);
            },
        },
        None => {
            return Err(Error::IntegerConversion);
        },
    }
    let ghost counted = write.written();
    let ghost whole = items_encoding::<(K, V)>(all, cx);
    let ghost mut done: Seq<bool> = Seq::empty();
    let mut i: usize = 0;
    proof {
        assert(all.skip(0) =~= all);
        assert(counted + done =~= counted);
        match whole {
            Ok(bits) => assert(done + bits =~= bits),
            Err(_) => {},
        }
    }
    while i < keys.len()
        invariant
            i <= keys@.len(),
            keys@.len() == values@.len(),
            write.order() == old(write).order(),
            cx == Context::plain(*settings, old(write).order()),
            all == entry_models(keys@, values@),
            whole == items_encoding::<(K, V)>(all, cx),
            write.written() == counted + done,
            whole == after_bits(done, items_encoding::<(K, V)>(all.skip(i as int), cx)),
        decreases keys@.len() - i,
    {
        let ghost left = all.skip(i as int);
        let ghost before = write.written();
        proof {
            assert(left.first() == (keys@[i as int].model(), values@[i as int].model()));
            assert(left.drop_first() =~= all.skip(i + 1));
        }
        match keys[i].write(write, settings) {
            Ok(()) => {},
            Err(e) => {
                return Err(e);
            },
        }
        match values[i].write(write, settings) {
            Ok(()) => {
                proof {
                    let first = K::encoding(left.first().0, cx)->Ok_0;
                    let second = V::encoding(left.first().1, cx)->Ok_0;
                    let head = first + second;
                    assert((before + first) + second =~= before + head);
                    match items_encoding::<(K, V)>(all.skip(i + 1), cx) {
                        Ok(tail) => assert(done + (head + tail) =~= (done + head) + tail),
                        Err(_) => {},
                    }
                    assert(counted + (done + head) =~= (counted + done) + head);
                    done = done + head;
                }
                i = i + 1;
            },
            Err(e) => {
                return Err(e);
            },
        }
    }
    proof {
        assert(all.skip(keys@.len() as int) =~= Seq::<(K::Model, V::Model)>::empty());
        assert(done + Seq::<bool>::empty() =~= done);
        if let Ok(body) = whole {
            let count = SizeType::encoding(keys@.len() as int, cx)->Ok_0;
            assert((old(write).written() + count) + body =~= old(write).written() + (count
                + body));
        }
    }
    Ok(())
}

} // verus!

//! Runs of values: a fixed number of them, a counted list, a string.

use crate::bits::{
    bits_bytes, bytes_bits, in_bytes, lemma_bits_of_bytes, lemma_bytes_bits_concat,
    lemma_bytes_of_bits, lemma_in_bytes_concat,
};
use crate::error::{Error, Failure};
use crate::hint::{FieldLength, Hints, LengthPrefixKind};
use crate::number::lemma_spans;
use crate::protocol::{read_outcome, write_outcome, Context, Protocol};
use crate::settings::{ByteOrder, Settings};
use crate::stream::{BitReader, BitWriter};
use crate::types::numerics::Integer;
use vstd::prelude::*;

verus! {

/// The integer type that counts the elements of a list, unless another is
/// chosen.
pub type SizeType = u32;

/// The mathematical values of a run of values.
pub open spec fn models<T: Protocol>(items: Seq<T>) -> Seq<T::Model> {
    Seq::new(items.len(), |i: int| items[i].model())
}

/// Bytes as the numbers that the byte codec speaks of.
pub open spec fn byte_models(bytes: Seq<u8>) -> Seq<int> {
    Seq::new(bytes.len(), |i: int| bytes[i] as int)
}

/// The bytes that numbers read by the byte codec are.
pub open spec fn model_bytes(values: Seq<int>) -> Seq<u8> {
    Seq::new(values.len(), |i: int| values[i] as u8)
}

/// The bits of a run of values: those of each, one after the other.
pub open spec fn items_encoding<T: Protocol>(items: Seq<T::Model>, cx: Context) -> Result<
    Seq<bool>,
    Failure,
>
    decreases items.len(),
{
    if items.len() == 0 {
        Ok(Seq::empty())
    } else {
        match T::encoding(items.first(), cx) {
            Ok(head) => match items_encoding::<T>(items.drop_first(), cx) {
                Ok(tail) => Ok(head + tail),
                Err(f) => Err(f),
            },
            Err(f) => Err(f),
        }
    }
}

/// The `count` values at the front of `bits`, with the bits that they take.
pub open spec fn items_decoding<T: Protocol>(bits: Seq<bool>, count: nat, cx: Context) -> Result<
    (Seq<T::Model>, nat),
    Failure,
>
    decreases count,
{
    if count == 0 {
        Ok((Seq::empty(), 0))
    } else {
        match T::decoding(bits, cx) {
            Ok((head, n)) => match items_decoding::<T>(bits.skip(n as int), (count - 1) as nat, cx) {
                Ok((tail, k)) => Ok((seq![head] + tail, n + k)),
                Err(f) => Err(f),
            },
            Err(f) => Err(f),
        }
    }
}

/// Values already read, put in front of what the rest of the bits decode to.
pub open spec fn after_items<M>(
    done: Seq<M>,
    used: nat,
    rest: Result<(Seq<M>, nat), Failure>,
) -> Result<(Seq<M>, nat), Failure> {
    match rest {
        Ok((tail, k)) => Ok((done + tail, used + k)),
        Err(f) => Err(f),
    }
}

/// Bits already written, put in front of what the rest of the values encode
/// to.
pub open spec fn after_bits(done: Seq<bool>, rest: Result<Seq<bool>, Failure>) -> Result<
    Seq<bool>,
    Failure,
> {
    match rest {
        Ok(tail) => Ok(done + tail),
        Err(f) => Err(f),
    }
}

/// A run of values takes no more bits than there are.
pub proof fn lemma_items_decoding_fits<T: Protocol>(bits: Seq<bool>, count: nat, cx: Context)
    ensures
        items_decoding::<T>(bits, count, cx) matches Ok((items, n)) ==> n <= bits.len()
            && items.len() == count,
    decreases count,
{
    if count > 0 {
        T::lemma_decoding_fits(bits, cx);
        if let Ok((head, n)) = T::decoding(bits, cx) {
            lemma_items_decoding_fits::<T>(bits.skip(n as int), (count - 1) as nat, cx);
        }
    }
}

/// Every value of the run is one that a reader in the context expects.
pub open spec fn each_described<T: Protocol>(items: Seq<T::Model>, cx: Context) -> bool {
    forall|i: int| 0 <= i < items.len() ==> T::described(#[trigger] items[i], cx)
}

/// A run of values is read back as written, whatever follows it.
pub proof fn lemma_items_round_trip<T: Protocol>(items: Seq<T::Model>, cx: Context, rest: Seq<bool>)
    requires
        items_encoding::<T>(items, cx) is Ok,
        each_described::<T>(items, cx),
    ensures
        items_decoding::<T>(items_encoding::<T>(items, cx)->Ok_0 + rest, items.len(), cx) == Ok::<
            (Seq<T::Model>, nat),
            Failure,
        >((items, items_encoding::<T>(items, cx)->Ok_0.len())),
    decreases items.len(),
{
    if items.len() > 0 {
        let head = T::encoding(items.first(), cx)->Ok_0;
        let tail = items_encoding::<T>(items.drop_first(), cx)->Ok_0;
        assert(T::described(items[0], cx));
        T::lemma_round_trip(items.first(), cx, tail + rest);
        assert((head + tail) + rest =~= head + (tail + rest));
        assert((head + (tail + rest)).skip(head.len() as int) =~= tail + rest);
        assert forall|i: int| 0 <= i < items.drop_first().len() implies T::described(
            #[trigger] items.drop_first()[i],
            cx,
        ) by {
            assert(items.drop_first()[i] == items[i + 1]);
        }
        lemma_items_round_trip::<T>(items.drop_first(), cx, rest);
        assert(seq![items.first()] + items.drop_first() =~= items);
    } else {
        assert(items =~= Seq::<T::Model>::empty());
    }
}

/// Reads `item_count` values, one after the other.
pub fn read_items<T: Protocol>(item_count: usize, read: &mut BitReader, settings: &Settings) -> (r:
    Result<Vec<T>, Error>)
    ensures
        read_outcome(
            match r {
                Ok(v) => Ok(models(v@)),
                Err(e) => Err(e@),
            },
            *old(read),
            *final(read),
            items_decoding::<T>(
                old(read).remaining(),
                item_count as nat,
                Context::plain(*settings, old(read).order()),
            ),
        ),
{
    let ghost start = old(read).remaining();
    let ghost cx = Context::plain(*settings, old(read).order());
    let ghost whole = items_decoding::<T>(start, item_count as nat, cx);
    let ghost mut used: nat = 0;
    let mut elements: Vec<T> = Vec::new();
    let mut i: usize = 0;
    proof {
        assert(start.skip(0) =~= start);
        assert(models(elements@) =~= Seq::<T::Model>::empty());
        match whole {
            Ok((items, n)) => assert(Seq::<T::Model>::empty() + items =~= items),
            Err(_) => {},
        }
    }
    while i < item_count
        invariant
            i <= item_count,
            read.order() == old(read).order(),
            start == old(read).remaining(),
            cx == Context::plain(*settings, old(read).order()),
            whole == items_decoding::<T>(start, item_count as nat, cx),
            used <= start.len(),
            read.remaining() == start.skip(used as int),
            elements@.len() == i,
            whole == after_items(
                models(elements@),
                used,
                items_decoding::<T>(read.remaining(), (item_count - i) as nat, cx),
            ),
        decreases item_count - i,
    {
        let ghost here = read.remaining();
        let ghost before = models(elements@);
        match T::read(read, settings) {
            Ok(element) => {
                proof {
                    let (m, n) = T::decoding(here, cx)->Ok_0;
                    let left = (item_count - i - 1) as nat;
                    let next = items_decoding::<T>(here.skip(n as int), left, cx);
                    assert(read.remaining() =~= start.skip((used + n) as int));
                    assert(models(elements@.push(element)) =~= before.push(m));
                    match next {
                        Ok((tail, k)) => {
                            assert(before + (seq![m] + tail) =~= before.push(m) + tail);
                        },
                        Err(_) => {},
                    }
                    used = used + n;
                }
                elements.push(element);
                i = i + 1;
            },
            Err(e) => {
                return Err(e);
            },
        }
    }
    proof {
        assert(models(elements@) + Seq::<T::Model>::empty() =~= models(elements@));
    }
    Ok(elements)
}

/// Writes values one after the other, with nothing before or between them.
pub fn write_items<T: Protocol>(items: &[T], write: &mut BitWriter, settings: &Settings) -> (r:
    Result<(), Error>)
    ensures
        write_outcome(
            r,
            *old(write),
            *final(write),
            items_encoding::<T>(models(items@), Context::plain(*settings, old(write).order())),
        ),
{
    let ghost cx = Context::plain(*settings, old(write).order());
    let ghost all = models(items@);
    let ghost whole = items_encoding::<T>(all, cx);
    let ghost mut done: Seq<bool> = Seq::empty();
    let mut i: usize = 0;
    proof {
        assert(all.skip(0) =~= all);
        assert(old(write).written() + done =~= old(write).written());
        match whole {
            Ok(bits) => assert(done + bits =~= bits),
            Err(_) => {},
        }
    }
    while i < items.len()
        invariant
            i <= items@.len(),
            write.order() == old(write).order(),
            cx == Context::plain(*settings, old(write).order()),
            all == models(items@),
            whole == items_encoding::<T>(all, cx),
            write.written() == old(write).written() + done,
            whole == after_bits(done, items_encoding::<T>(all.skip(i as int), cx)),
        decreases items@.len() - i,
    {
        let ghost left = all.skip(i as int);
        proof {
            assert(left.first() == items@[i as int].model());
            assert(left.drop_first() =~= all.skip(i + 1));
        }
        match items[i].write(write, settings) {
            Ok(()) => {
                proof {
                    let head = T::encoding(left.first(), cx)->Ok_0;
                    match items_encoding::<T>(all.skip(i + 1), cx) {
                        Ok(tail) => assert(done + (head + tail) =~= (done + head) + tail),
                        Err(_) => {},
                    }
                    assert(old(write).written() + (done + head) =~= (old(write).written() + done)
                        + head);
                    done = done + head;
                }
                i = i + 1;
            },
            Err(e) => {
                return Err(e);
            },
        }
    }
    proof {
        assert(all.skip(items@.len() as int) =~= Seq::<T::Model>::empty());
        assert(done + Seq::<bool>::empty() =~= done);
    }
    Ok(())
}

/// The values that fill `bits` exactly, one after the other. Values that take
/// no bits never fill a budget: that is a fault of the configuration.
pub open spec fn all_decoding<T: Protocol>(bits: Seq<bool>, cx: Context) -> Result<
    Seq<T::Model>,
    Failure,
>
    decreases bits.len(),
{
    if bits.len() == 0 {
        Ok(Seq::empty())
    } else {
        match T::decoding(bits, cx) {
            Ok((head, n)) => if n == 0 || n > bits.len() {
                Err(Failure::InvalidConfiguration)
            } else {
                match all_decoding::<T>(bits.skip(n as int), cx) {
                    Ok(tail) => Ok(seq![head] + tail),
                    Err(f) => Err(f),
                }
            },
            Err(f) => Err(f),
        }
    }
}

/// The values in the next `length` bytes of `bits`. The bytes are taken off
/// the stream first and then parsed on their own, in the byte order of the
/// settings, until none is left.
pub open spec fn budget_decoding<T: Protocol>(bits: Seq<bool>, length: nat, cx: Context) -> Result<
    (Seq<T::Model>, nat),
    Failure,
> {
    if bits.len() < 8 * length {
        Err(Failure::Io)
    } else {
        match all_decoding::<T>(
            bytes_bits(bits_bytes(bits.take(8 * length as int), cx.order), cx.settings.byte_order),
            cx.detached(),
        ) {
            Ok(items) => Ok((items, 8 * length)),
            Err(f) => Err(f),
        }
    }
}

/// The list at the front of `bits`. Where a field before it has announced
/// its length, in bytes or in elements, the list starts at once; otherwise
/// its element count comes first, as an `S`.
pub open spec fn list_decoding<S: Integer, T: Protocol>(bits: Seq<bool>, cx: Context) -> Result<
    (Seq<T::Model>, nat),
    Failure,
> {
    match cx.length {
        Some(length) => match length.kind {
            LengthPrefixKind::Bytes => budget_decoding::<T>(bits, length.length as nat, cx),
            LengthPrefixKind::Elements => items_decoding::<T>(
                bits,
                length.length as nat,
                cx.inner(),
            ),
        },
        None => match S::decoding(bits, cx.inner()) {
            Ok((count, n)) => if 0 <= count <= usize::MAX {
                match items_decoding::<T>(bits.skip(n as int), count as nat, cx.inner()) {
                    Ok((items, k)) => Ok((items, n + k)),
                    Err(f) => Err(f),
                }
            } else {
                Err(Failure::IntegerConversion)
            },
            Err(f) => Err(f),
        },
    }
}

/// The bits of a list. Where a field before it has announced its length,
/// only the elements are written; otherwise their count goes first, as an
/// `S`, which must hold it.
pub open spec fn list_encoding<S: Integer, T: Protocol>(
    items: Seq<T::Model>,
    cx: Context,
) -> Result<Seq<bool>, Failure> {
    match cx.length {
        Some(_) => items_encoding::<T>(items, cx.inner()),
        None => if S::holds(items.len() as int) && items.len() <= usize::MAX {
            match S::encoding(items.len() as int, cx.inner()) {
                Ok(count) => after_bits(count, items_encoding::<T>(items, cx.inner())),
                Err(f) => Err(f),
            }
        } else {
            Err(Failure::IntegerConversion)
        },
    }
}

/// Every value of the run is written as at least one bit.
pub open spec fn each_takes_bits<T: Protocol>(items: Seq<T::Model>, cx: Context) -> bool {
    forall|i: int|
        0 <= i < items.len() ==> (#[trigger] T::encoding(items[i], cx) matches Ok(bits)
            && bits.len() > 0)
}

/// Whether a reader expects the list: each of its elements is one that a
/// reader expects, and the length announced for the list, if any, is its
/// length. That is its element count, or the number of the whole bytes that
/// its elements, each of which takes bits, are written as on a stream of
/// their own; those bytes are what stands on the stream.
pub open spec fn list_described<T: Protocol>(items: Seq<T::Model>, cx: Context) -> bool {
    match cx.length {
        None => each_described::<T>(items, cx.inner()),
        Some(length) => match length.kind {
            LengthPrefixKind::Elements => items.len() == length.length && each_described::<T>(
                items,
                cx.inner(),
            ),
            LengthPrefixKind::Bytes => {
                &&& items_encoding::<T>(items, cx.detached()) matches Ok(own) && own.len() == 8
                    * length.length
                &&& in_bytes(
                    items_encoding::<T>(items, cx.detached()),
                    items_encoding::<T>(items, cx.inner()),
                    cx.settings.byte_order,
                    cx.order,
                )
                &&& each_takes_bits::<T>(items, cx.detached())
                &&& each_described::<T>(items, cx.detached())
            },
        },
    }
}

/// Values already read, put in front of what fills the rest of the bits.
pub open spec fn after_all<M>(done: Seq<M>, rest: Result<Seq<M>, Failure>) -> Result<
    Seq<M>,
    Failure,
> {
    match rest {
        Ok(tail) => Ok(done + tail),
        Err(f) => Err(f),
    }
}

/// A run of values on their own is written on a stream of any order as the
/// bytes that it is written as on a stream in the byte order of the
/// settings, and where it can be written its values are such as a reader
/// expects.
pub proof fn lemma_items_plain<T: Protocol>(
    items: Seq<T::Model>,
    settings: Settings,
    order: ByteOrder,
)
    ensures
        in_bytes(
            items_encoding::<T>(items, Context::plain(settings, settings.byte_order)),
            items_encoding::<T>(items, Context::plain(settings, order)),
            settings.byte_order,
            order,
        ),
        items_encoding::<T>(items, Context::plain(settings, order)) is Ok ==> each_described::<T>(
            items,
            Context::plain(settings, order),
        ),
    decreases items.len(),
{
    let home = Context::plain(settings, settings.byte_order);
    let cx = Context::plain(settings, order);
    if items.len() > 0 {
        let rest = items.drop_first();
        T::lemma_plain(items.first(), settings, order);
        lemma_items_plain::<T>(rest, settings, order);
        if let Ok(head) = T::encoding(items.first(), home) {
            if let Ok(tail) = items_encoding::<T>(rest, home) {
                lemma_in_bytes_concat(head, tail, settings.byte_order, order);
            }
        }
        if items_encoding::<T>(items, cx) is Ok {
            assert forall|i: int| 0 <= i < items.len() implies T::described(
                #[trigger] items[i],
                cx,
            ) by {
                if i > 0 {
                    assert(items[i] == rest[i - 1]);
                }
            }
        }
    } else {
        assert(bytes_bits(bits_bytes(Seq::<bool>::empty(), settings.byte_order), order)
            =~= Seq::<bool>::empty());
    }
}

/// A list on its own is written on a stream of any order as the bytes that
/// it is written as on a stream in the byte order of the settings, and where
/// it can be written it is one that a reader expects.
pub proof fn lemma_list_plain<S: Integer, T: Protocol>(
    items: Seq<T::Model>,
    settings: Settings,
    order: ByteOrder,
)
    ensures
        in_bytes(
            list_encoding::<S, T>(items, Context::plain(settings, settings.byte_order)),
            list_encoding::<S, T>(items, Context::plain(settings, order)),
            settings.byte_order,
            order,
        ),
        list_encoding::<S, T>(items, Context::plain(settings, order)) is Ok ==> list_described::<
            T,
        >(items, Context::plain(settings, order)),
{
    let home = Context::plain(settings, settings.byte_order);
    S::lemma_plain(items.len() as int, settings, order);
    lemma_items_plain::<T>(items, settings, order);
    if let Ok(count) = S::encoding(items.len() as int, home) {
        if let Ok(body) = items_encoding::<T>(items, home) {
            lemma_in_bytes_concat(count, body, settings.byte_order, order);
        }
    }
}

/// A list takes no more bits than there are.
pub proof fn lemma_list_decoding_fits<S: Integer, T: Protocol>(bits: Seq<bool>, cx: Context)
    ensures
        list_decoding::<S, T>(bits, cx) matches Ok((_, n)) ==> n <= bits.len(),
{
    match cx.length {
        Some(length) => {
            lemma_items_decoding_fits::<T>(bits, length.length as nat, cx.inner());
        },
        None => {
            S::lemma_decoding_fits(bits, cx.inner());
            if let Ok((count, n)) = S::decoding(bits, cx.inner()) {
                if 0 <= count {
                    lemma_items_decoding_fits::<T>(bits.skip(n as int), count as nat, cx.inner());
                }
            }
        },
    }
}

/// Values that each take bits fill exactly the bits that they are written as.
pub proof fn lemma_all_round_trip<T: Protocol>(items: Seq<T::Model>, cx: Context)
    requires
        items_encoding::<T>(items, cx) is Ok,
        each_takes_bits::<T>(items, cx),
        each_described::<T>(items, cx),
    ensures
        all_decoding::<T>(items_encoding::<T>(items, cx)->Ok_0, cx) == Ok::<Seq<T::Model>, Failure>(
            items,
        ),
    decreases items.len(),
{
    if items.len() > 0 {
        let head = T::encoding(items.first(), cx)->Ok_0;
        let rest = items.drop_first();
        let tail = items_encoding::<T>(rest, cx)->Ok_0;
        assert(T::encoding(items[0], cx) is Ok);
        assert(T::described(items[0], cx));
        T::lemma_round_trip(items.first(), cx, tail);
        assert((head + tail).skip(head.len() as int) =~= tail);
        assert forall|i: int| 0 <= i < rest.len() implies (#[trigger] T::encoding(rest[i], cx)
            matches Ok(bits) && bits.len() > 0) by {
            assert(rest[i] == items[i + 1]);
        }
        assert forall|i: int| 0 <= i < rest.len() implies T::described(#[trigger] rest[i], cx) by {
            assert(rest[i] == items[i + 1]);
        }
        lemma_all_round_trip::<T>(rest, cx);
        assert(seq![items.first()] + rest =~= items);
    } else {
        assert(items =~= Seq::<T::Model>::empty());
    }
}

/// A list is read back as written, whatever follows it, by a reader that is
/// told the length that the writer was told.
pub proof fn lemma_list_round_trip<S: Integer, T: Protocol>(
    items: Seq<T::Model>,
    cx: Context,
    rest: Seq<bool>,
)
    requires
        list_encoding::<S, T>(items, cx) is Ok,
        list_described::<T>(items, cx),
    ensures
        list_decoding::<S, T>(list_encoding::<S, T>(items, cx)->Ok_0 + rest, cx) == Ok::<
            (Seq<T::Model>, nat),
            Failure,
        >((items, list_encoding::<S, T>(items, cx)->Ok_0.len())),
{
    let inner = cx.inner();
    let body = items_encoding::<T>(items, inner)->Ok_0;
    match cx.length {
        Some(length) => match length.kind {
            LengthPrefixKind::Elements => {
                lemma_items_round_trip::<T>(items, inner, rest);
            },
            LengthPrefixKind::Bytes => {
                let own = items_encoding::<T>(items, cx.detached())->Ok_0;
                let bytes = bits_bytes(own, cx.settings.byte_order);
                assert((body + rest).take(8 * length.length as int) =~= body);
                lemma_bytes_of_bits(bytes, cx.order);
                lemma_bits_of_bytes(own, cx.settings.byte_order);
                lemma_all_round_trip::<T>(items, cx.detached());
            },
        },
        None => {
            let count = S::encoding(items.len() as int, inner)->Ok_0;
            S::lemma_holds_described(items.len() as int, inner);
            S::lemma_round_trip(items.len() as int, inner, body + rest);
            assert((count + body) + rest =~= count + (body + rest));
            assert((count + (body + rest)).skip(count.len() as int) =~= body + rest);
            lemma_items_round_trip::<T>(items, inner, rest);
        },
    }
}

/// Reads values one after the other until the stream has no bit left. A
/// value that takes no bit would never reach that end, and is refused as
/// `InvalidConfiguration`.
#[verifier::loop_isolation(false)]
pub fn read_items_to_eof<T: Protocol>(read: &mut BitReader, settings: &Settings) -> (r: Result<
    Vec<T>,
    Error,
>)
    ensures
        match all_decoding::<T>(
            old(read).remaining(),
            Context::plain(*settings, old(read).order()),
        ) {
            Ok(items) => {
                &&& r matches Ok(v) && models(v@) == items
                &&& final(read).order() == old(read).order()
                &&& final(read).remaining().len() == 0
            },
            Err(f) => r matches Err(e) && e@ == f,
        },
{
    let ghost cx = Context::plain(*settings, read.order());
    let ghost whole = all_decoding::<T>(read.remaining(), cx);
    let mut items: Vec<T> = Vec::new();
    let mut left: u128 = read.remaining_bits();
    proof {
        assert(models(items@) =~= Seq::<T::Model>::empty());
        match whole {
            Ok(all) => assert(Seq::<T::Model>::empty() + all =~= all),
            Err(_) => {},
        }
    }
    while left > 0
        invariant
            read.order() == old(read).order(),
            left == read.remaining().len(),
            whole == after_all(models(items@), all_decoding::<T>(read.remaining(), cx)),
        decreases left,
    {
        let ghost here = read.remaining();
        let ghost before = models(items@);
        match T::read(read, settings) {
            Ok(item) => {
                let now: u128 = read.remaining_bits();
                if now == left {
                    return Err(Error::InvalidConfiguration);
                }
                proof {
                    let (m, n) = T::decoding(here, cx)->Ok_0;
                    assert(models(items@.push(item)) =~= before.push(m));
                    match all_decoding::<T>(here.skip(n as int), cx) {
                        Ok(tail) => {
                            assert(before + (seq![m] + tail) =~= before.push(m) + tail);
                        },
                        Err(_) => {},
                    }
                }
                items.push(item);
                left = now;
            },
            Err(e) => {
                return Err(e);
            },
        }
    }
    proof {
        assert(models(items@) + Seq::<T::Model>::empty() =~= models(items@));
    }
    Ok(items)
}

/// Reads a list whose element count, where no field before it has announced
/// a length, comes first as an `S`.
pub fn read_list_ext<S: Integer, T: Protocol>(
    read: &mut BitReader,
    settings: &Settings,
    hints: &mut Hints,
) -> (r: Result<Vec<T>, Error>)
    ensures
        final(hints)@ == old(hints)@,
        read_outcome(
            match r {
                Ok(v) => Ok(models(v@)),
                Err(e) => Err(e@),
            },
            *old(read),
            *final(read),
            list_decoding::<S, T>(
                old(read).remaining(),
                Context::field(*settings, old(read).order(), *old(hints)),
            ),
        ),
{
    let ghost cx = Context::field(*settings, old(read).order(), *old(hints));
    let ghost start = old(read).remaining();
    match hints.current_field_length() {
        Some(length) => match length.kind {
            LengthPrefixKind::Bytes => {
                let byte_count: usize = length.length;
                let bytes = match read.read_bytes(byte_count) {
                    Ok(bytes) => bytes,
                    Err(e) => {
                        return Err(e);
                    },
                };
                let mut parts = BitReader::new(bytes, settings.byte_order);
                match read_items_to_eof::<T>(&mut parts, settings) {
                    Ok(items) => Ok(items),
                    Err(e) => Err(e),
                }
            },
            LengthPrefixKind::Elements => read_items(length.length, read, settings),
        },
        None => {
            let size = match S::read(read, settings) {
                Ok(size) => size,
                Err(e) => {
                    return Err(e);
                },
            };
            let size: usize = match size.to_usize() {
                Some(size) => size,
                None => {
                    return Err(Error::IntegerConversion);
                },
            };
            let ghost taken = S::decoding(start, cx.inner())->Ok_0.1;
            let items = read_items(size, read, settings);
            proof {
                if let Ok((_, k)) = items_decoding::<T>(
                    start.skip(taken as int),
                    size as nat,
                    cx.inner(),
                ) {
                    assert(start.skip(taken as int).skip(k as int) =~= start.skip(
                        (taken + k) as int,
                    ));
                }
            }
            items
        },
    }
}

/// Writes a list. Where no field before it has announced a length, the
/// element count goes first as an `S`, which must hold it.
pub fn write_list_ext<S: Integer, T: Protocol>(
    elements: &[T],
    write: &mut BitWriter,
    settings: &Settings,
    hints: &mut Hints,
) -> (r: Result<(), Error>)
    ensures
        final(hints)@ == old(hints)@,
        write_outcome(
            r,
            *old(write),
            *final(write),
            list_encoding::<S, T>(
                models(elements@),
                Context::field(*settings, old(write).order(), *old(hints)),
            ),
        ),
        old(hints)@.current_field_length().is_none() && !S::holds(elements@.len() as int)
            ==> final(write).written() == old(write).written(),
{
    let ghost cx = Context::field(*settings, old(write).order(), *old(hints));
    match hints.current_field_length() {
        Some(_) => {},
        None => {
            match S::from_usize(elements.len()) {
                Some(length) => match length.write(write, settings) {
                    Ok(()) => {},
                    Err(e) => {
                        proof {
                            S::lemma_holds_encodes(elements@.len() as int, cx.inner());
                        }
                        return Err(e);
                    },
                },
                None => {
                    return Err(Error::IntegerConversion);
                },
            }
        },
    }
    let ghost middle = write.written();
    let r = write_items(elements, write, settings);
    proof {
        if let Ok(body) = items_encoding::<T>(models(elements@), cx.inner()) {
            if cx.length.is_none() {
                let count = S::encoding(elements@.len() as int, cx.inner())->Ok_0;
                assert((old(write).written() + count) + body =~= old(write).written() + (count
                    + body));
            }
        }
    }
    r
}

/// Reads a list whose element count, where needed, is a [`SizeType`].
pub fn read_list<T: Protocol>(read: &mut BitReader, settings: &Settings, hints: &mut Hints) -> (r:
    Result<Vec<T>, Error>)
    ensures
        final(hints)@ == old(hints)@,
        read_outcome(
            match r {
                Ok(v) => Ok(models(v@)),
                Err(e) => Err(e@),
            },
            *old(read),
            *final(read),
            list_decoding::<SizeType, T>(
                old(read).remaining(),
                Context::field(*settings, old(read).order(), *old(hints)),
            ),
        ),
{
    read_list_ext::<SizeType, T>(read, settings, hints)
}

/// Writes a list whose element count, where needed, is a [`SizeType`].
pub fn write_list<T: Protocol>(
    elements: &[T],
    write: &mut BitWriter,
    settings: &Settings,
    hints: &mut Hints,
) -> (r: Result<(), Error>)
    ensures
        final(hints)@ == old(hints)@,
        write_outcome(
            r,
            *old(write),
            *final(write),
            list_encoding::<SizeType, T>(
                models(elements@),
                Context::field(*settings, old(write).order(), *old(hints)),
            ),
        ),
        old(hints)@.current_field_length().is_none() && !SizeType::holds(elements@.len() as int)
            ==> final(write).written() == old(write).written(),
{
    write_list_ext::<SizeType, T>(elements, write, settings, hints)
}

/// Reading bytes fails only where the bits run out.
pub proof fn lemma_bytes_fail_as_io(bits: Seq<bool>, count: nat, cx: Context)
    ensures
        items_decoding::<u8>(bits, count, cx) matches Err(f) ==> f == Failure::Io,
    decreases count,
{
    if count > 0 {
        if let Ok((head, n)) = u8::decoding(bits, cx) {
            lemma_bytes_fail_as_io(bits.skip(n as int), (count - 1) as nat, cx);
        }
    }
}

/// A run of bytes is written as the bits of those bytes and nothing else.
pub proof fn lemma_bytes_as_items(payload: Seq<u8>, cx: Context)
    ensures
        items_encoding::<u8>(byte_models(payload), cx) == Ok::<Seq<bool>, Failure>(
            bytes_bits(payload, cx.order),
        ),
        each_takes_bits::<u8>(byte_models(payload), cx),
        each_described::<u8>(byte_models(payload), cx),
    decreases payload.len(),
{
    let items = byte_models(payload);
    lemma_spans();
    assert forall|i: int| 0 <= i < items.len() implies (#[trigger] u8::encoding(items[i], cx)
        matches Ok(bits) && bits.len() > 0) by {
        crate::number::lemma_value_bytes_len(items[i] as nat, 1, cx.settings.byte_order);
    }
    if payload.len() == 0 {
        assert(bytes_bits(payload, cx.order) =~= Seq::<bool>::empty());
    } else {
        let first = payload.first();
        let rest = payload.drop_first();
        lemma_bytes_as_items(rest, cx);
        assert(items.drop_first() =~= byte_models(rest));
        let alone = crate::number::value_bytes(first as nat, 1, cx.settings.byte_order);
        assert(crate::number::little_bytes(first as nat, 1) =~= seq![first]) by {
            assert(crate::number::little_bytes(first as nat / 256, 0) =~= Seq::<u8>::empty());
        }
        assert(alone =~= seq![first]);
        lemma_bytes_bits_concat(seq![first], rest, cx.order);
        assert(seq![first] + rest =~= payload);
    }
}

/// A list of bytes whose length is the value of a field before it is sent as
/// exactly its bytes, with no count of its own, and a reader told the same
/// length reads exactly those bytes back.
pub proof fn lemma_disjoint_length_prefix(
    payload: Seq<u8>,
    kind: LengthPrefixKind,
    settings: Settings,
    order: ByteOrder,
    rest: Seq<bool>,
)
    requires
        payload.len() <= usize::MAX,
    ensures
        ({
            let cx = Context {
                settings,
                order,
                length: Some(FieldLength { length: payload.len() as usize, kind }),
            };
            &&& list_encoding::<SizeType, u8>(byte_models(payload), cx) == Ok::<
                Seq<bool>,
                Failure,
            >(bytes_bits(payload, order))
            &&& bytes_bits(payload, order).len() == 8 * payload.len()
            &&& list_decoding::<SizeType, u8>(bytes_bits(payload, order) + rest, cx) == Ok::<
                (Seq<int>, nat),
                Failure,
            >((byte_models(payload), 8 * payload.len()))
        }),
{
    let cx = Context {
        settings,
        order,
        length: Some(FieldLength { length: payload.len() as usize, kind }),
    };
    lemma_bytes_as_items(payload, cx.inner());
    lemma_bytes_as_items(payload, cx.detached());
    lemma_items_plain::<u8>(byte_models(payload), settings, order);
    lemma_list_round_trip::<SizeType, u8>(byte_models(payload), cx, rest);
}

/// A list written with a count of its own is read back as written, on a
/// stream of either order, and what follows it is left unread.
pub proof fn lemma_counted_list_round_trip<S: Integer, T: Protocol>(
    items: Seq<T::Model>,
    settings: Settings,
    order: ByteOrder,
    rest: Seq<bool>,
)
    requires
        list_encoding::<S, T>(items, Context::plain(settings, order)) is Ok,
    ensures
        ({
            let cx = Context::plain(settings, order);
            list_decoding::<S, T>(list_encoding::<S, T>(items, cx)->Ok_0 + rest, cx) == Ok::<
                (Seq<T::Model>, nat),
                Failure,
            >((items, list_encoding::<S, T>(items, cx)->Ok_0.len()))
        }),
{
    lemma_list_plain::<S, T>(items, settings, order);
    lemma_list_round_trip::<S, T>(items, Context::plain(settings, order), rest);
}

} // verus!

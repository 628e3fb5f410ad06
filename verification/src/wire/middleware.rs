//! Transforms of a whole packet's bytes, applied one after the other.

use crate::error::{Error, Failure};
use vstd::prelude::*;

verus! {

/// A stage that transforms the bytes of a packet on their way out, and
/// transforms them back on their way in.
pub trait Middleware {
    /// What the stage makes of the bytes of a packet that is sent.
    spec fn encoded(&self, data: Seq<u8>) -> Result<Seq<u8>, Failure>;

    /// What the stage makes of the bytes of a packet that is received.
    spec fn decoded(&self, data: Seq<u8>) -> Result<Seq<u8>, Failure>;

    /// Transforms the bytes of a packet that is sent. The stage transforms
    /// the next packet as it would have transformed this one.
    fn encode_data(&mut self, data: Vec<u8>) -> (r: Result<Vec<u8>, Error>)
        ensures
            match old(self).encoded(data@) {
                Ok(out) => r matches Ok(v) && v@ == out,
                Err(f) => r matches Err(e) && e@ == f,
            },
            forall|d: Seq<u8>| #[trigger] final(self).encoded(d) == old(self).encoded(d),
            forall|d: Seq<u8>| #[trigger] final(self).decoded(d) == old(self).decoded(d),
    ;

    /// Transforms the bytes of a packet that is received. The stage
    /// transforms the next packet as it would have transformed this one.
    fn decode_data(&mut self, data: Vec<u8>) -> (r: Result<Vec<u8>, Error>)
        ensures
            match old(self).decoded(data@) {
                Ok(out) => r matches Ok(v) && v@ == out,
                Err(f) => r matches Err(e) && e@ == f,
            },
            forall|d: Seq<u8>| #[trigger] final(self).encoded(d) == old(self).encoded(d),
            forall|d: Seq<u8>| #[trigger] final(self).decoded(d) == old(self).decoded(d),
    ;
}

/// Two states of a stage that transform every packet alike.
pub open spec fn same_transforms<M: Middleware>(before: M, after: M) -> bool {
    &&& forall|d: Seq<u8>| #[trigger] after.encoded(d) == before.encoded(d)
    &&& forall|d: Seq<u8>| #[trigger] after.decoded(d) == before.decoded(d)
}

/// What a second transform makes of the outcome of a first.
pub open spec fn then<B: Middleware>(
    first: Result<Seq<u8>, Failure>,
    second: B,
    encode: bool,
) -> Result<Seq<u8>, Failure> {
    match first {
        Ok(data) => if encode {
            second.encoded(data)
        } else {
            second.decoded(data)
        },
        Err(f) => Err(f),
    }
}

/// The stage that leaves every packet as it is.
#[derive(Clone, Copy, Debug, Default)]
pub struct Identity;

impl Middleware for Identity {
    open spec fn encoded(&self, data: Seq<u8>) -> Result<Seq<u8>, Failure> {
        Ok(data)
    }

    open spec fn decoded(&self, data: Seq<u8>) -> Result<Seq<u8>, Failure> {
        Ok(data)
    }

    fn encode_data(&mut self, data: Vec<u8>) -> (r: Result<Vec<u8>, Error>) {
        Ok(data)
    }

    fn decode_data(&mut self, data: Vec<u8>) -> (r: Result<Vec<u8>, Error>) {
        Ok(data)
    }
}

/// Two stages in their declared order. A packet that is sent goes through
/// the first and then the second. A packet that is received goes through
/// them in the same order, each undoing its own transform.
pub struct Chain<A: Middleware, B: Middleware> {
    pub first: A,
    pub second: B,
}

impl<A: Middleware, B: Middleware> Middleware for Chain<A, B> {
    open spec fn encoded(&self, data: Seq<u8>) -> Result<Seq<u8>, Failure> {
        then(self.first.encoded(data), self.second, true)
    }

    open spec fn decoded(&self, data: Seq<u8>) -> Result<Seq<u8>, Failure> {
        then(self.first.decoded(data), self.second, false)
    }

    fn encode_data(&mut self, data: Vec<u8>) -> (r: Result<Vec<u8>, Error>) {
        let data = match self.first.encode_data(data) {
            Ok(data) => data,
            Err(e) => {
                return Err(e);
            },
        };
        self.second.encode_data(data)
    }

    fn decode_data(&mut self, data: Vec<u8>) -> (r: Result<Vec<u8>, Error>) {
        let data = match self.first.decode_data(data) {
            Ok(data) => data,
            Err(e) => {
                return Err(e);
            },
        };
        self.second.decode_data(data)
    }
}

/// The bytes with `f` applied to each.
pub open spec fn each_byte(data: Seq<u8>, f: spec_fn(u8) -> u8) -> Seq<u8> {
    Seq::new(data.len(), |i: int| f(data[i]))
}

/// A byte moved up by `offset`, past 255 back to 0.
pub open spec fn shifted_up(byte: u8, offset: u8) -> u8 {
    ((byte + offset) % 256) as u8
}

/// A byte moved down by `offset`, past 0 back to 255.
pub open spec fn shifted_down(byte: u8, offset: u8) -> u8 {
    ((byte - offset + 256) % 256) as u8
}

/// A stage that adds an offset to every byte, wrapping around, and takes it
/// off again on the way in.
#[derive(Clone, Copy, Debug)]
pub struct Offset {
    pub offset: u8,
}

impl Offset {
    /// The stage with the offset 13.
    pub fn rot13() -> (stage: Offset)
        ensures
            stage.offset == 13,
    {
        Offset { offset: 13 }
    }
}

/// Applies an offset to every byte, upwards or downwards.
fn shift_all(data: Vec<u8>, offset: u8, up: bool) -> (out: Vec<u8>)
    ensures
        out@ == each_byte(
            data@,
            |b: u8|
                if up {
                    shifted_up(b, offset)
                } else {
                    shifted_down(b, offset)
                },
        ),
{
    let ghost f = |b: u8|
        if up {
            shifted_up(b, offset)
        } else {
            shifted_down(b, offset)
        };
    let mut out: Vec<u8> = Vec::new();
    let mut i: usize = 0;
    while i < data.len()
        invariant
            i <= data@.len(),
            f == (|b: u8|
                if up {
                    shifted_up(b, offset)
                } else {
                    shifted_down(b, offset)
                }),
            out@ == each_byte(data@.take(i as int), f),
        decreases data@.len() - i,
    {
        let byte: u8 = data[i];
        let moved: u8 = if up {
            byte.wrapping_add(offset)
        } else {
            byte.wrapping_sub(offset)
        };
        out.push(moved);
        proof {
            assert(out@ =~= each_byte(data@.take(i + 1), f));
        }
        i = i + 1;
    }
    proof {
        assert(data@.take(data@.len() as int) =~= data@);
    }
    out
}

impl Middleware for Offset {
    open spec fn encoded(&self, data: Seq<u8>) -> Result<Seq<u8>, Failure> {
        Ok(each_byte(data, |b: u8| shifted_up(b, self.offset)))
    }

    open spec fn decoded(&self, data: Seq<u8>) -> Result<Seq<u8>, Failure> {
        Ok(each_byte(data, |b: u8| shifted_down(b, self.offset)))
    }

    fn encode_data(&mut self, data: Vec<u8>) -> (r: Result<Vec<u8>, Error>) {
        let out = shift_all(data, self.offset, true);
        proof {
            assert(out@ =~= each_byte(data@, |b: u8| shifted_up(b, self.offset)));
        }
        Ok(out)
    }

    fn decode_data(&mut self, data: Vec<u8>) -> (r: Result<Vec<u8>, Error>) {
        let out = shift_all(data, self.offset, false);
        proof {
            assert(out@ =~= each_byte(data@, |b: u8| shifted_down(b, self.offset)));
        }
        Ok(out)
    }
}

/// A byte with its bits rotated left by one.
pub open spec fn rotated_left(byte: u8) -> u8 {
    ((byte * 2) % 256 + byte / 128) as u8
}

/// A byte with its bits rotated right by one.
pub open spec fn rotated_right(byte: u8) -> u8 {
    (byte / 2 + (byte % 2) * 128) as u8
}

/// A stage that rotates the bits of every byte left by one, and right by one
/// on the way in.
#[derive(Clone, Copy, Debug, Default)]
pub struct RotateLeft;

/// Rotates the bits of every byte by one, left or right.
fn rotate_all(data: Vec<u8>, left: bool) -> (out: Vec<u8>)
    ensures
        out@ == each_byte(
            data@,
            |b: u8|
                if left {
                    rotated_left(b)
                } else {
                    rotated_right(b)
                },
        ),
{
    let ghost f = |b: u8|
        if left {
            rotated_left(b)
        } else {
            rotated_right(b)
        };
    let mut out: Vec<u8> = Vec::new();
    let mut i: usize = 0;
    while i < data.len()
        invariant
            i <= data@.len(),
            f == (|b: u8|
                if left {
                    rotated_left(b)
                } else {
                    rotated_right(b)
                }),
            out@ == each_byte(data@.take(i as int), f),
        decreases data@.len() - i,
    {
        let byte: u8 = data[i];
        let turned: u8 = if left {
            (byte % 128) * 2 + byte / 128
        } else {
            byte / 2 + (byte % 2) * 128
        };
        out.push(turned);
        proof {
            assert(out@ =~= each_byte(data@.take(i + 1), f));
        }
        i = i + 1;
    }
    proof {
        assert(data@.take(data@.len() as int) =~= data@);
    }
    out
}

impl Middleware for RotateLeft {
    open spec fn encoded(&self, data: Seq<u8>) -> Result<Seq<u8>, Failure> {
        Ok(each_byte(data, |b: u8| rotated_left(b)))
    }

    open spec fn decoded(&self, data: Seq<u8>) -> Result<Seq<u8>, Failure> {
        Ok(each_byte(data, |b: u8| rotated_right(b)))
    }

    fn encode_data(&mut self, data: Vec<u8>) -> (r: Result<Vec<u8>, Error>) {
        let out = rotate_all(data, true);
        proof {
            assert(out@ =~= each_byte(data@, |b: u8| rotated_left(b)));
        }
        Ok(out)
    }

    fn decode_data(&mut self, data: Vec<u8>) -> (r: Result<Vec<u8>, Error>) {
        let out = rotate_all(data, false);
        proof {
            assert(out@ =~= each_byte(data@, |b: u8| rotated_right(b)));
        }
        Ok(out)
    }
}

/// A stage on its own undoes on the way in what it did on the way out.
pub proof fn lemma_offset_reversible(stage: Offset, data: Seq<u8>)
    ensures
        then(stage.encoded(data), stage, false) == Ok::<Seq<u8>, Failure>(data),
{
    let out = stage.encoded(data)->Ok_0;
    assert(stage.decoded(out)->Ok_0 =~= data);
}

/// A stage on its own undoes on the way in what it did on the way out.
pub proof fn lemma_rotate_reversible(stage: RotateLeft, data: Seq<u8>)
    ensures
        then(stage.encoded(data), stage, false) == Ok::<Seq<u8>, Failure>(data),
{
    let out = stage.encoded(data)->Ok_0;
    assert(stage.decoded(out)->Ok_0 =~= data);
}

/// Two stages in a row give a packet back unchanged where the stages each
/// undo their own transform and the first, on the way in, does not disturb
/// what the second is to undo: undoing the first and then the second comes
/// to the same as undoing the second and then the first.
pub proof fn lemma_chain_round_trip<A: Middleware, B: Middleware>(chain: Chain<A, B>, data: Seq<u8>)
    requires
        chain.first.encoded(data) matches Ok(inner) && chain.first.decoded(inner) == Ok::<
            Seq<u8>,
            Failure,
        >(data) && (chain.second.encoded(inner) matches Ok(outer) && chain.second.decoded(outer)
            == Ok::<Seq<u8>, Failure>(inner) && then(chain.first.decoded(outer), chain.second, false)
            == then(chain.second.decoded(outer), chain.first, false)),
    ensures
        then(chain.encoded(data), chain, false) == Ok::<Seq<u8>, Failure>(data),
{
}

/// A packet sent through the stage that adds 1 and then the stage that
/// rotates left, and received through the two in the same order, comes back
/// unchanged where each of its bytes is 255.
pub proof fn lemma_offset_then_rotate_round_trip(data: Seq<u8>)
    requires
        forall|i: int| 0 <= i < data.len() ==> data[i] == 255,
    ensures
        ({
            let chain = Chain { first: Offset { offset: 1 }, second: RotateLeft };
            then(chain.encoded(data), chain, false) == Ok::<Seq<u8>, Failure>(data)
        }),
{
    let chain = Chain { first: Offset { offset: 1 }, second: RotateLeft };
    let sent = chain.encoded(data)->Ok_0;
    let back = chain.decoded(sent)->Ok_0;
    assert(back =~= data);
}

/// The same two stages do not give back a packet that has a byte other than
/// 255.
pub proof fn lemma_offset_then_rotate_loses(data: Seq<u8>, at: int)
    requires
        0 <= at < data.len(),
        data[at] != 255,
    ensures
        ({
            let chain = Chain { first: Offset { offset: 1 }, second: RotateLeft };
            then(chain.encoded(data), chain, false) != Ok::<Seq<u8>, Failure>(data)
        }),
{
    let chain = Chain { first: Offset { offset: 1 }, second: RotateLeft };
    let sent = chain.encoded(data)->Ok_0;
    let back = chain.decoded(sent)->Ok_0;
    assert(back[at] != data[at]);
}

} // verus!

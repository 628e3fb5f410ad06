//! Tagged unions: which tag stands for which variant, and the tag on the wire.
//!
//! A union is known here by the tags of its variants in declaration order. A
//! tag is an integer or a string. Where the tag is part of the encoding it
//! comes right before the fields of the variant; where the caller supplies
//! it, nothing of it is on the wire.

use crate::error::{Discriminant, DiscriminantModel, Error, Failure};
use crate::protocol::{read_outcome, write_outcome, Context, Protocol};
use crate::settings::Settings;
use crate::stream::{BitReader, BitWriter};
use crate::types::numerics::Integer;
use crate::types::string::{string_decoding, string_encoding};
use vstd::prelude::*;
use vstd::std_specs::convert::TryIntoSpec;

verus! {

/// The first variant that has the tag, by its position.
pub open spec fn tagged<A>(tags: Seq<A>, tag: A) -> Option<nat>
    decreases tags.len(),
{
    if tags.len() == 0 {
        None
    } else if tags.first() == tag {
        Some(0)
    } else {
        match tagged(tags.drop_first(), tag) {
            Some(i) => Some(i + 1),
            None => None,
        }
    }
}

/// A position found further on, counted from the start.
pub open spec fn further(passed: nat, found: Option<nat>) -> Option<nat> {
    match found {
        Some(i) => Some(passed + i),
        None => None,
    }
}

/// No two variants have the same tag.
pub open spec fn distinct<A>(tags: Seq<A>) -> bool {
    forall|i: int, j: int| 0 <= i < j < tags.len() ==> tags[i] != tags[j]
}

/// The variant found has the tag and is the first that has it; where none is
/// found, no variant has the tag.
pub proof fn lemma_tagged<A>(tags: Seq<A>, tag: A)
    ensures
        match tagged(tags, tag) {
            Some(i) => i < tags.len() && tags[i as int] == tag && forall|j: int|
                0 <= j < i ==> tags[j] != tag,
            None => forall|j: int| 0 <= j < tags.len() ==> tags[j] != tag,
        },
    decreases tags.len(),
{
    if tags.len() > 0 && tags.first() != tag {
        let rest = tags.drop_first();
        lemma_tagged(rest, tag);
        match tagged(rest, tag) {
            Some(i) => {
                assert forall|j: int| 0 <= j < i + 1 implies tags[j] != tag by {
                    if j > 0 {
                        assert(rest[j - 1] == tags[j]);
                    }
                }
            },
            None => {
                assert forall|j: int| 0 <= j < tags.len() implies tags[j] != tag by {
                    if j > 0 {
                        assert(rest[j - 1] == tags[j]);
                    }
                }
            },
        }
    }
}

/// The tags of a union whose variants declare none: 1, 2, 3, and so on.
pub open spec fn implicit_tags(count: nat) -> Seq<i128> {
    Seq::new(count, |i: int| (i + 1) as i128)
}

/// The tags of a union: the declared tag of each variant that declares one,
/// and its position counted from 1 for each that does not.
pub open spec fn assigned_tags(explicit: Seq<Option<i128>>) -> Seq<i128> {
    Seq::new(
        explicit.len(),
        |i: int|
            match explicit[i] {
                Some(tag) => tag,
                None => (i + 1) as i128,
            },
    )
}

/// Tags that are not declared are never zero: zero is reserved.
pub proof fn lemma_implicit_tags_skip_zero(explicit: Seq<Option<i128>>, i: int)
    requires
        0 <= i < explicit.len(),
        explicit[i].is_none(),
        explicit.len() <= usize::MAX,
    ensures
        assigned_tags(explicit)[i] == i + 1,
        assigned_tags(explicit)[i] != 0,
{
}

/// A union that declares no tag has the tags 1, 2, 3, and so on, all
/// different, and each finds its own variant.
pub proof fn lemma_implicit_tags(count: nat, i: int)
    requires
        0 <= i < count <= usize::MAX,
    ensures
        implicit_tags(count)[i] == i + 1,
        implicit_tags(count)[i] != 0,
        distinct(implicit_tags(count)),
        assigned_tags(Seq::new(count, |k: int| None::<i128>)) == implicit_tags(count),
        tagged(implicit_tags(count), (i + 1) as i128) == Some(i as nat),
{
    let tags = implicit_tags(count);
    assert(assigned_tags(Seq::new(count, |k: int| None::<i128>)) =~= tags);
    lemma_tagged(tags, (i + 1) as i128);
    match tagged(tags, (i + 1) as i128) {
        Some(at) => {
            assert(tags[at as int] == at + 1);
        },
        None => {
            assert(tags[i] == i + 1);
        },
    }
}

/// The tags 1 to `count`, for a union that declares none.
pub fn implicit_discriminants(count: usize) -> (tags: Vec<i128>)
    ensures
        tags@ == implicit_tags(count as nat),
{
    let mut tags: Vec<i128> = Vec::new();
    let mut i: usize = 0;
    while i < count
        invariant
            i <= count,
            tags@ == implicit_tags(i as nat),
        decreases count - i,
    {
        tags.push(i as i128 + 1);
        proof {
            assert(tags@ =~= implicit_tags((i + 1) as nat));
        }
        i = i + 1;
    }
    tags
}

/// Whether the tag at `at` occurs again after it.
fn occurs_later(tags: &Vec<i128>, at: usize) -> (found: bool)
    requires
        at < tags@.len(),
    ensures
        found == exists|j: int| at < j < tags@.len() && tags@[j] == tags@[at as int],
{
    let count: usize = tags.len();
    let mut j: usize = at + 1;
    while j < count
        invariant
            count == tags@.len(),
            at < j <= tags@.len(),
            forall|k: int| at < k < j ==> tags@[k] != tags@[at as int],
        decreases tags@.len() - j,
    {
        if tags[j] == tags[at] {
            return true;
        }
        j = j + 1;
    }
    false
}

/// The tags of a union, given what each variant declares. It is
/// `InvalidConfiguration` where two variants come to have the same tag.
pub fn assign_discriminants(explicit: &[Option<i128>]) -> (r: Result<Vec<i128>, Error>)
    ensures
        match r {
            Ok(tags) => tags@ == assigned_tags(explicit@) && distinct(tags@),
            Err(e) => e@ == Failure::InvalidConfiguration && !distinct(assigned_tags(explicit@)),
        },
{
    let mut tags: Vec<i128> = Vec::new();
    let mut i: usize = 0;
    while i < explicit.len()
        invariant
            i <= explicit@.len(),
            tags@ == assigned_tags(explicit@.take(i as int)),
        decreases explicit@.len() - i,
    {
        let tag: i128 = match explicit[i] {
            Some(tag) => tag,
            None => i as i128 + 1,
        };
        tags.push(tag);
        proof {
            assert(tags@ =~= assigned_tags(explicit@.take(i + 1)));
        }
        i = i + 1;
    }
    proof {
        assert(explicit@.take(explicit@.len() as int) =~= explicit@);
    }
    let mut at: usize = 0;
    while at < tags.len()
        invariant
            at <= tags@.len(),
            tags@ == assigned_tags(explicit@),
            forall|a: int, b: int| 0 <= a < at && a < b < tags@.len() ==> tags@[a] != tags@[b],
        decreases tags@.len() - at,
    {
        if occurs_later(&tags, at) {
            return Err(Error::InvalidConfiguration);
        }
        at = at + 1;
    }
    Ok(tags)
}

/// The variant that an integer tag stands for. A tag that no variant has is
/// an `UnknownDiscriminant` that carries the tag.
pub open spec fn variant_of(tags: Seq<i128>, tag: i128) -> Result<nat, Failure> {
    match tagged(tags, tag) {
        Some(i) => Ok(i),
        None => Err(Failure::UnknownDiscriminant(DiscriminantModel::Integer(tag))),
    }
}

/// Finds the variant that an integer tag stands for.
pub fn resolve_variant(tags: &[i128], tag: i128) -> (r: Result<usize, Error>)
    ensures
        match variant_of(tags@, tag) {
            Ok(i) => r matches Ok(v) && v == i && i < tags@.len(),
            Err(f) => r matches Err(e) && e@ == f,
        },
{
    let mut i: usize = 0;
    proof {
        assert(tags@.skip(0) =~= tags@);
    }
    while i < tags.len()
        invariant
            i <= tags@.len(),
            tagged(tags@, tag) == further(i as nat, tagged(tags@.skip(i as int), tag)),
        decreases tags@.len() - i,
    {
        proof {
            assert(tags@.skip(i as int).drop_first() =~= tags@.skip(i + 1));
        }
        if tags[i] == tag {
            return Ok(i);
        }
        i = i + 1;
    }
    Err(Error::UnknownDiscriminant(Discriminant::Integer(tag)))
}

/// The tag of the variant at `variant`.
pub fn discriminant_of(tags: &[i128], variant: usize) -> (r: Result<i128, Error>)
    ensures
        match r {
            Ok(tag) => variant < tags@.len() && tag == tags@[variant as int],
            Err(e) => variant >= tags@.len() && e@ == Failure::InvalidConfiguration,
        },
{
    if variant < tags.len() {
        Ok(tags[variant])
    } else {
        Err(Error::InvalidConfiguration)
    }
}

/// The variant whose tag, a `D`, is at the front of `bits`, with the bits
/// that the tag takes. No variant is given where the tag is unknown.
pub open spec fn variant_decoding<D: Integer>(
    tags: Seq<i128>,
    bits: Seq<bool>,
    cx: Context,
) -> Result<(nat, nat), Failure> {
    match D::decoding(bits, cx.inner()) {
        Ok((tag, n)) => match variant_of(tags, tag as i128) {
            Ok(i) => Ok((i, n)),
            Err(f) => Err(f),
        },
        Err(f) => Err(f),
    }
}

/// The bits of the tag of the variant at `variant`, sent as a `D`.
pub open spec fn variant_encoding<D: Integer>(tags: Seq<i128>, variant: nat, cx: Context) -> Result<
    Seq<bool>,
    Failure,
> {
    if variant >= tags.len() {
        Err(Failure::InvalidConfiguration)
    } else if !D::holds(tags[variant as int] as int) {
        Err(Failure::IntegerConversion)
    } else {
        D::encoding(tags[variant as int] as int, cx.inner())
    }
}

/// Reads a tag of type `D` and finds the variant that it stands for. What
/// follows on the stream are the fields of that variant.
pub fn read_variant<D: Integer>(tags: &[i128], read: &mut BitReader, settings: &Settings) -> (r:
    Result<usize, Error>)
    ensures
        read_outcome(
            match r {
                Ok(i) => Ok(i as nat),
                Err(e) => Err(e@),
            },
            *old(read),
            *final(read),
            variant_decoding::<D>(
                tags@,
                old(read).remaining(),
                Context::plain(*settings, old(read).order()),
            ),
        ),
{
    let tag = match D::read(read, settings) {
        Ok(tag) => tag,
        Err(e) => {
            return Err(e);
        },
    };
    resolve_variant(tags, tag.to_i128())
}

/// Writes the tag of the variant at `variant` as a `D`. The fields of the
/// variant are to follow.
pub fn write_variant<D: Integer>(
    tags: &[i128],
    variant: usize,
    write: &mut BitWriter,
    settings: &Settings,
) -> (r: Result<(), Error>)
    ensures
        write_outcome(
            r,
            *old(write),
            *final(write),
            variant_encoding::<D>(
                tags@,
                variant as nat,
                Context::plain(*settings, old(write).order()),
            ),
        ),
        variant >= tags@.len() || !D::holds(tags@[variant as int] as int)
            ==> final(write).written() == old(write).written(),
{
    let tag = match discriminant_of(tags, variant) {
        Ok(tag) => tag,
        Err(e) => {
            return Err(e);
        },
    };
    match D::from_i128(tag) {
        Some(tag) => tag.write(write, settings),
        None => Err(Error::IntegerConversion),
    }
}

/// A tag written for a variant of a union with distinct tags is read back
/// as that variant, whatever follows.
pub proof fn lemma_variant_round_trip<D: Integer>(
    tags: Seq<i128>,
    variant: nat,
    cx: Context,
    rest: Seq<bool>,
)
    requires
        distinct(tags),
        variant_encoding::<D>(tags, variant, cx) is Ok,
    ensures
        variant_decoding::<D>(tags, variant_encoding::<D>(tags, variant, cx)->Ok_0 + rest, cx)
            == Ok::<(nat, nat), Failure>(
            (variant, variant_encoding::<D>(tags, variant, cx)->Ok_0.len()),
        ),
{
    let tag = tags[variant as int];
    D::lemma_holds_described(tag as int, cx.inner());
    D::lemma_round_trip(tag as int, cx.inner(), rest);
    lemma_tagged(tags, tag);
}

/// A tag that no variant has is refused with the tag itself, and no variant
/// is resolved.
pub proof fn lemma_unknown_tag_refused<D: Integer>(
    tags: Seq<i128>,
    bits: Seq<bool>,
    cx: Context,
    tag: int,
)
    requires
        D::decoding(bits, cx.inner()) matches Ok((read, _)) && read == tag,
        forall|i: int| 0 <= i < tags.len() ==> tags[i] != tag,
    ensures
        variant_decoding::<D>(tags, bits, cx) == Err::<(nat, nat), Failure>(
            Failure::UnknownDiscriminant(DiscriminantModel::Integer(tag as i128)),
        ),
{
    D::lemma_decoding_holds(bits, cx.inner());
    D::lemma_holds_bounded(tag);
    lemma_tagged(tags, tag as i128);
}

/// The names of the variants as mathematical values.
pub open spec fn name_models(names: Seq<String>) -> Seq<Seq<char>> {
    Seq::new(names.len(), |i: int| names[i]@)
}

/// The variant that a string tag stands for. A tag that no variant has is an
/// `UnknownDiscriminant` that carries the tag.
pub open spec fn variant_named(names: Seq<Seq<char>>, tag: Seq<char>) -> Result<nat, Failure> {
    match tagged(names, tag) {
        Some(i) => Ok(i),
        None => Err(Failure::UnknownDiscriminant(DiscriminantModel::Text(tag))),
    }
}

/// Finds the variant that a string tag stands for.
pub fn resolve_name(names: &[String], tag: &String) -> (r: Result<usize, Error>)
    ensures
        match variant_named(name_models(names@), tag@) {
            Ok(i) => r matches Ok(v) && v == i && i < names@.len(),
            Err(f) => r matches Err(e) && e@ == f,
        },
{
    let ghost all = name_models(names@);
    let mut i: usize = 0;
    proof {
        assert(all.skip(0) =~= all);
    }
    while i < names.len()
        invariant
            i <= names@.len(),
            all == name_models(names@),
            tagged(all, tag@) == further(i as nat, tagged(all.skip(i as int), tag@)),
        decreases names@.len() - i,
    {
        proof {
            assert(all.skip(i as int).drop_first() =~= all.skip(i + 1));
            assert(all.skip(i as int).first() == names@[i as int]@);
        }
        if names[i] == *tag {
            return Ok(i);
        }
        i = i + 1;
    }
    Err(Error::UnknownDiscriminant(Discriminant::Text(tag.clone())))
}

/// The variant whose tag, a string, is at the front of `bits`, with the bits
/// that the tag takes.
pub open spec fn named_variant_decoding(
    names: Seq<Seq<char>>,
    bits: Seq<bool>,
    cx: Context,
) -> Result<(nat, nat), Failure> {
    match string_decoding(bits, cx.inner()) {
        Ok((tag, n)) => match variant_named(names, tag) {
            Ok(i) => Ok((i, n)),
            Err(f) => Err(f),
        },
        Err(f) => Err(f),
    }
}

/// The bits of the name of the variant at `variant`, sent as a string.
pub open spec fn named_variant_encoding(names: Seq<Seq<char>>, variant: nat, cx: Context) -> Result<
    Seq<bool>,
    Failure,
> {
    if variant >= names.len() {
        Err(Failure::InvalidConfiguration)
    } else {
        string_encoding(names[variant as int], cx.inner())
    }
}

/// Reads a string tag and finds the variant that it stands for.
pub fn read_named_variant(names: &[String], read: &mut BitReader, settings: &Settings) -> (r:
    Result<usize, Error>)
    ensures
        read_outcome(
            match r {
                Ok(i) => Ok(i as nat),
                Err(e) => Err(e@),
            },
            *old(read),
            *final(read),
            named_variant_decoding(
                name_models(names@),
                old(read).remaining(),
                Context::plain(*settings, old(read).order()),
            ),
        ),
{
    let tag = match String::read(read, settings) {
        Ok(tag) => tag,
        Err(e) => {
            return Err(e);
        },
    };
    resolve_name(names, &tag)
}

/// Writes the name of the variant at `variant` as a string tag.
pub fn write_named_variant(
    names: &[String],
    variant: usize,
    write: &mut BitWriter,
    settings: &Settings,
) -> (r: Result<(), Error>)
    ensures
        write_outcome(
            r,
            *old(write),
            *final(write),
            named_variant_encoding(
                name_models(names@),
                variant as nat,
                Context::plain(*settings, old(write).order()),
            ),
        ),
        variant >= names@.len() ==> final(write).written() == old(write).written(),
{
    if variant < names.len() {
        names[variant].write(write, settings)
    } else {
        Err(Error::InvalidConfiguration)
    }
}

/// A tag that the caller supplies, as the integer that the union's tags
/// are. It is `TagConversion` where the tag does not convert.
pub fn convert_tag<Tag: TryInto<i128>>(tag: Tag) -> (r: Result<i128, Error>)
    ensures
        Tag::obeys_try_into_spec() ==> match tag.try_into_spec() {
            Ok(v) => r == Ok::<i128, Error>(v),
            Err(_) => r matches Err(e) && e@ == Failure::TagConversion,
        },
        r matches Err(e) ==> e@ == Failure::TagConversion,
{
    match tag.try_into() {
        Ok(v) => Ok(v),
        Err(_) => Err(Error::TagConversion),
    }
}

/// Finds the variant for a tag that the caller supplies and the stream does
/// not hold.
pub fn resolve_external_tag<Tag: TryInto<i128>>(tags: &[i128], tag: Tag) -> (r: Result<
    usize,
    Error,
>)
    ensures
        Tag::obeys_try_into_spec() ==> match tag.try_into_spec() {
            Ok(v) => match variant_of(tags@, v) {
                Ok(i) => r matches Ok(found) && found == i && i < tags@.len(),
                Err(f) => r matches Err(e) && e@ == f,
            },
            Err(_) => r matches Err(e) && e@ == Failure::TagConversion,
        },
{
    match convert_tag(tag) {
        Ok(v) => resolve_variant(tags, v),
        Err(e) => Err(e),
    }
}

/// A value of a tagged union that can tell its tag without being written.
pub trait Discriminable {
    /// The tag of the variant that the value is.
    spec fn tag(&self) -> i128;

    /// The tag of the variant that the value is.
    fn discriminant(&self) -> (tag: i128)
        ensures
            tag == self.tag(),
    ;
}

} // verus!

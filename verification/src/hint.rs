//! What one field of an aggregate tells the fields after it.
//!
//! One `Hints` value lives for one pass over the fields of one aggregate. It
//! knows which field is being processed, the bit width declared for it, and
//! the lengths that earlier fields have announced for later ones.

use std::collections::HashMap;
use vstd::prelude::*;
use vstd::std_specs::hash::group_hash_axioms;

verus! {

broadcast use group_hash_axioms;

/// The position of a field among the fields of its aggregate.
pub type FieldIndex = usize;

/// The unit in which a length is counted.
#[derive(Clone, Copy, Debug, PartialEq, Eq, Structural)]
pub enum LengthPrefixKind {
    /// The length is a number of bytes.
    Bytes,
    /// The length is a number of elements.
    Elements,
}

/// The length of a field, known from a field before it.
#[derive(Clone, Copy, Debug, PartialEq, Eq, Structural)]
pub struct FieldLength {
    pub length: usize,
    pub kind: LengthPrefixKind,
}

/// The state of one pass over the fields of an aggregate.
pub struct Hints {
    /// The index of the field being processed, once a pass has begun.
    pub current_field_index: Option<FieldIndex>,
    /// The lengths announced so far, by the index of the field they describe.
    pub known_field_lengths: HashMap<FieldIndex, FieldLength>,
    /// The bit width declared for the field being processed.
    pub field_width: Option<u32>,
}

/// A [`Hints`] as a mathematical value.
pub struct HintsModel {
    pub current_field_index: Option<FieldIndex>,
    pub known_field_lengths: Map<FieldIndex, FieldLength>,
    pub field_width: Option<u32>,
}

impl HintsModel {
    /// The length announced for the field being processed, if any.
    pub open spec fn current_field_length(self) -> Option<FieldLength> {
        match self.current_field_index {
            Some(index) => if self.known_field_lengths.contains_key(index) {
                Some(self.known_field_lengths[index])
            } else {
                None
            },
            None => None,
        }
    }
}

impl View for Hints {
    type V = HintsModel;

    open spec fn view(&self) -> HintsModel {
        HintsModel {
            current_field_index: self.current_field_index,
            known_field_lengths: self.known_field_lengths@,
            field_width: self.field_width,
        }
    }
}

impl Default for Hints {
    /// No pass has begun and nothing is known.
    fn default() -> (hints: Hints)
        ensures
            hints@.current_field_index.is_none(),
            hints@.known_field_lengths == Map::<FieldIndex, FieldLength>::empty(),
            hints@.field_width.is_none(),
            hints@.current_field_length().is_none(),
    {
        Hints { current_field_index: None, known_field_lengths: HashMap::new(), field_width: None }
    }
}

impl Hints {
    /// The length announced for the field being processed, if any.
    pub fn current_field_length(&self) -> (length: Option<FieldLength>)
        ensures
            length == self@.current_field_length(),
    {
        match self.current_field_index {
            Some(index) => match self.known_field_lengths.get(&index) {
                Some(length) => Some(*length),
                None => None,
            },
            None => None,
        }
    }

    /// Begins a pass at the first field.
    pub fn begin_fields(&mut self)
        ensures
            final(self)@ == (HintsModel { current_field_index: Some(0), ..old(self)@ }),
    {
        self.current_field_index = Some(0);
    }

    /// Moves on to the next field and forgets the bit width of the last one.
    pub fn next_field(&mut self)
        requires
            old(self)@.current_field_index matches Some(index) && index < usize::MAX,
        ensures
            final(self)@ == (HintsModel {
                current_field_index: Some((old(self)@.current_field_index.unwrap() + 1) as usize),
                field_width: None,
                ..old(self)@
            }),
    {
        let index = match self.current_field_index {
            Some(index) => index,
            None => 0,
        };
        self.current_field_index = Some(index + 1);
        self.field_width = None;
    }

    /// Announces the length of the field at `field_index`.
    pub fn set_field_length(
        &mut self,
        field_index: FieldIndex,
        length: usize,
        kind: LengthPrefixKind,
    )
        ensures
            final(self)@ == (HintsModel {
                known_field_lengths: old(self)@.known_field_lengths.insert(
                    field_index,
                    FieldLength { length, kind },
                ),
                ..old(self)@
            }),
    {
        self.known_field_lengths.insert(field_index, FieldLength { length, kind });
    }
}

/// A length announced for one field is seen while that field is processed and
/// by no other field: not before the pass reaches it, and not after the pass
/// has moved on.
pub proof fn lemma_length_reaches_its_field_only(
    hints: HintsModel,
    target: FieldIndex,
    length: FieldLength,
)
    requires
        hints.known_field_lengths == Map::<FieldIndex, FieldLength>::empty().insert(target, length),
    ensures
        hints.current_field_index == Some(target) ==> hints.current_field_length() == Some(length),
        hints.current_field_index != Some(target) ==> hints.current_field_length().is_none(),
{
}

} // verus!

//! What may be declared of a union, of a variant and of a field, and which
//! declarations go together.

use vstd::prelude::*;

verus! {

/// What the declarations stand on.
#[derive(Clone, Copy, Debug, PartialEq, Eq, Structural)]
pub enum Target {
    Enum,
    Variant,
    Field,
}

/// The declarations that there are.
#[derive(Clone, Copy, Debug, PartialEq, Eq, Structural)]
pub enum AttrName {
    DiscriminantType,
    Discriminant,
    Ctx,
    CtxBounds,
    WriteValue,
    Bits,
    FlexibleArrayMember,
    Length,
    Condition,
}

/// Why a set of declarations is refused.
#[derive(Clone, Copy, Debug, PartialEq, Eq, Structural)]
pub enum AttrError {
    /// A declaration that the target needs is missing.
    Expected(AttrName, Target),
    /// A declaration stands where it has no meaning.
    Unexpected(AttrName, Target),
    /// A context type and bounds on the context type are both declared.
    CtxAndCtxBounds,
    /// More than one of bit width, flexible array member and length is
    /// declared.
    MutuallyExclusive,
    /// A declaration of a name or a form that is not known.
    Unrecognised,
    /// A declaration with a value whose name is no single word.
    FailedToParse,
    /// A declaration without a value whose name is no single word.
    ExpectedIdentifier,
    /// A value that must be a string is none.
    ExpectedString,
    /// A value that must be an integer is none.
    ExpectedInteger,
    /// An integer value that no `u32` holds.
    FailedToParseU32,
}

/// The value of a declaration.
#[derive(Debug)]
pub enum Lit {
    /// A string, with its text.
    Str(String),
    /// An integer.
    Int(u64),
    /// Any other literal.
    Other,
}

/// One declaration, as it stands between the brackets of an attribute. A name
/// that is no single word is no name.
#[derive(Debug)]
pub enum Meta {
    /// `name = value`.
    NameValue { name: Option<String>, value: Lit },
    /// `name`.
    Path { name: Option<String> },
    /// Anything else.
    Other,
}

/// A [`Lit`] as a mathematical value.
pub enum LitModel {
    Str(Seq<char>),
    Int(u64),
    Other,
}

/// A [`Meta`] as a mathematical value.
pub enum MetaModel {
    NameValue { name: Option<Seq<char>>, value: LitModel },
    Path { name: Option<Seq<char>> },
    Other,
}

/// An optional text as a mathematical value.
pub open spec fn text(value: Option<String>) -> Option<Seq<char>> {
    match value {
        Some(s) => Some(s@),
        None => None,
    }
}

impl View for Lit {
    type V = LitModel;

    open spec fn view(&self) -> LitModel {
        match self {
            Lit::Str(s) => LitModel::Str(s@),
            Lit::Int(v) => LitModel::Int(*v),
            Lit::Other => LitModel::Other,
        }
    }
}

impl View for Meta {
    type V = MetaModel;

    open spec fn view(&self) -> MetaModel {
        match self {
            Meta::NameValue { name, value } => MetaModel::NameValue {
                name: text(*name),
                value: value@,
            },
            Meta::Path { name } => MetaModel::Path { name: text(*name) },
            Meta::Other => MetaModel::Other,
        }
    }
}

/// The declarations on one item as a mathematical value.
pub struct AttrsModel {
    pub discriminant_type: Option<Seq<char>>,
    pub discriminant: Option<Seq<char>>,
    pub ctx: Option<Seq<char>>,
    pub ctx_bounds: Option<Seq<char>>,
    pub write_value: Option<Seq<char>>,
    pub bits: Option<u32>,
    pub flexible_array_member: bool,
    pub length: Option<Seq<char>>,
    pub condition: Option<Seq<char>>,
}

/// The declarations on one item. What is declared as an expression or a type
/// is held as its text.
#[derive(Debug)]
pub struct Attrs {
    pub discriminant_type: Option<String>,
    pub discriminant: Option<String>,
    pub ctx: Option<String>,
    pub ctx_bounds: Option<String>,
    pub write_value: Option<String>,
    pub bits: Option<u32>,
    pub flexible_array_member: bool,
    pub length: Option<String>,
    pub condition: Option<String>,
}

impl View for Attrs {
    type V = AttrsModel;

    open spec fn view(&self) -> AttrsModel {
        AttrsModel {
            discriminant_type: text(self.discriminant_type),
            discriminant: text(self.discriminant),
            ctx: text(self.ctx),
            ctx_bounds: text(self.ctx_bounds),
            write_value: text(self.write_value),
            bits: self.bits,
            flexible_array_member: self.flexible_array_member,
            length: text(self.length),
            condition: text(self.condition),
        }
    }
}

/// The declaration that a name stands for, if it stands for one.
pub open spec fn named(name: Seq<char>) -> Option<AttrName> {
    if name == "discriminant_type"@ {
        Some(AttrName::DiscriminantType)
    } else if name == "discriminant"@ {
        Some(AttrName::Discriminant)
    } else if name == "ctx"@ {
        Some(AttrName::Ctx)
    } else if name == "ctx_bounds"@ {
        Some(AttrName::CtxBounds)
    } else if name == "bits"@ {
        Some(AttrName::Bits)
    } else if name == "write_value"@ {
        Some(AttrName::WriteValue)
    } else if name == "length"@ {
        Some(AttrName::Length)
    } else if name == "condition"@ {
        Some(AttrName::Condition)
    } else if name == "flexible_array_member"@ {
        Some(AttrName::FlexibleArrayMember)
    } else {
        None
    }
}

/// Finds the declaration that a name stands for.
fn lookup(name: &String) -> (found: Option<AttrName>)
    ensures
        found == named(name@),
{
    if *name == "discriminant_type".to_string() {
        Some(AttrName::DiscriminantType)
    } else if *name == "discriminant".to_string() {
        Some(AttrName::Discriminant)
    } else if *name == "ctx".to_string() {
        Some(AttrName::Ctx)
    } else if *name == "ctx_bounds".to_string() {
        Some(AttrName::CtxBounds)
    } else if *name == "bits".to_string() {
        Some(AttrName::Bits)
    } else if *name == "write_value".to_string() {
        Some(AttrName::WriteValue)
    } else if *name == "length".to_string() {
        Some(AttrName::Length)
    } else if *name == "condition".to_string() {
        Some(AttrName::Condition)
    } else if *name == "flexible_array_member".to_string() {
        Some(AttrName::FlexibleArrayMember)
    } else {
        None
    }
}

/// The text of a value that must be a string.
pub open spec fn as_text(value: LitModel) -> Result<Seq<char>, AttrError> {
    match value {
        LitModel::Str(s) => Ok(s),
        _ => Err(AttrError::ExpectedString),
    }
}

/// The number of a value that must be an integer that a `u32` holds.
pub open spec fn as_u32(value: LitModel) -> Result<u32, AttrError> {
    match value {
        LitModel::Int(v) => if v <= u32::MAX {
            Ok(v as u32)
        } else {
            Err(AttrError::FailedToParseU32)
        },
        _ => Err(AttrError::ExpectedInteger),
    }
}

/// The text of a value that must be a string.
fn meta_name_value_to_parse(value: &Lit) -> (r: Result<String, AttrError>)
    ensures
        match as_text(value@) {
            Ok(s) => r matches Ok(out) && out@ == s,
            Err(e) => r == Err::<String, AttrError>(e),
        },
{
    match value {
        Lit::Str(s) => Ok(s.clone()),
        _ => Err(AttrError::ExpectedString),
    }
}

/// The number of a value that must be an integer that a `u32` holds.
fn meta_name_value_to_u32(value: &Lit) -> (r: Result<u32, AttrError>)
    ensures
        r == as_u32(value@),
{
    match value {
        Lit::Int(v) => if *v <= u32::MAX as u64 {
            Ok(*v as u32)
        } else {
            Err(AttrError::FailedToParseU32)
        },
        _ => Err(AttrError::ExpectedInteger),
    }
}

/// The declarations with the text of one more set.
pub open spec fn with_text(attrs: AttrsModel, name: AttrName, value: Seq<char>) -> AttrsModel {
    match name {
        AttrName::DiscriminantType => AttrsModel { discriminant_type: Some(value), ..attrs },
        AttrName::Discriminant => AttrsModel { discriminant: Some(value), ..attrs },
        AttrName::Ctx => AttrsModel { ctx: Some(value), ..attrs },
        AttrName::CtxBounds => AttrsModel { ctx_bounds: Some(value), ..attrs },
        AttrName::WriteValue => AttrsModel { write_value: Some(value), ..attrs },
        AttrName::Length => AttrsModel { length: Some(value), ..attrs },
        AttrName::Condition => AttrsModel { condition: Some(value), ..attrs },
        _ => attrs,
    }
}

/// The declarations with one more taken in, or why it is refused. A later
/// declaration of a name replaces an earlier one.
pub open spec fn with_meta(attrs: AttrsModel, meta: MetaModel) -> Result<AttrsModel, AttrError> {
    match meta {
        MetaModel::NameValue { name: Some(name), value } => match named(name) {
            Some(AttrName::FlexibleArrayMember) | None => Err(AttrError::Unrecognised),
            Some(AttrName::Bits) => match as_u32(value) {
                Ok(bits) => Ok(AttrsModel { bits: Some(bits), ..attrs }),
                Err(e) => Err(e),
            },
            Some(known) => match as_text(value) {
                Ok(s) => Ok(with_text(attrs, known, s)),
                Err(e) => Err(e),
            },
        },
        MetaModel::NameValue { name: None, .. } => Err(AttrError::FailedToParse),
        MetaModel::Path { name: Some(name) } => if named(name) == Some(
            AttrName::FlexibleArrayMember,
        ) {
            Ok(AttrsModel { flexible_array_member: true, ..attrs })
        } else {
            Err(AttrError::Unrecognised)
        },
        MetaModel::Path { name: None } => Err(AttrError::ExpectedIdentifier),
        MetaModel::Other => Err(AttrError::Unrecognised),
    }
}

/// The declarations with the first `count` of a list taken in, in order, or
/// the first refusal.
pub open spec fn with_metas(attrs: AttrsModel, metas: Seq<MetaModel>, count: nat) -> Result<
    AttrsModel,
    AttrError,
>
    decreases count,
{
    if count == 0 {
        Ok(attrs)
    } else {
        match with_metas(attrs, metas, (count - 1) as nat) {
            Ok(so_far) => with_meta(so_far, metas[count - 1]),
            Err(e) => Err(e),
        }
    }
}

/// A list of declarations as mathematical values.
pub open spec fn meta_models(metas: Seq<Meta>) -> Seq<MetaModel> {
    Seq::new(metas.len(), |i: int| metas[i]@)
}

impl Default for Attrs {
    /// Nothing is declared.
    fn default() -> (attrs: Attrs)
        ensures
            attrs@ == Attrs::default_model(),
            attrs.discriminant_type.is_none(),
            attrs.discriminant.is_none(),
            attrs.ctx.is_none(),
            attrs.ctx_bounds.is_none(),
            attrs.write_value.is_none(),
            attrs.bits.is_none(),
            !attrs.flexible_array_member,
            attrs.length.is_none(),
            attrs.condition.is_none(),
    {
        Attrs {
            discriminant_type: None,
            discriminant: None,
            ctx: None,
            ctx_bounds: None,
            write_value: None,
            bits: None,
            flexible_array_member: false,
            length: None,
            condition: None,
        }
    }
}

impl Attrs {
    /// The first thing wrong with the declarations on a union, if any: a
    /// union names the type of its tag; it has no tag, no value to write, no
    /// length and no condition of its own, and not both a context type and
    /// bounds on it.
    pub open spec fn enum_fault(&self) -> Option<AttrError> {
        if self.discriminant_type.is_none() {
            Some(AttrError::Expected(AttrName::DiscriminantType, Target::Enum))
        } else if self.discriminant.is_some() {
            Some(AttrError::Unexpected(AttrName::Discriminant, Target::Enum))
        } else if self.ctx.is_some() && self.ctx_bounds.is_some() {
            Some(AttrError::CtxAndCtxBounds)
        } else if self.write_value.is_some() {
            Some(AttrError::Unexpected(AttrName::WriteValue, Target::Enum))
        } else if self.flexible_array_member {
            Some(AttrError::Unexpected(AttrName::FlexibleArrayMember, Target::Enum))
        } else if self.length.is_some() {
            Some(AttrError::Unexpected(AttrName::Length, Target::Enum))
        } else if self.condition.is_some() {
            Some(AttrError::Unexpected(AttrName::Condition, Target::Enum))
        } else {
            None
        }
    }

    /// The first thing wrong with the declarations on a variant, if any: a
    /// variant may declare its tag and nothing else.
    pub open spec fn variant_fault(&self) -> Option<AttrError> {
        if self.discriminant_type.is_some() {
            Some(AttrError::Unexpected(AttrName::DiscriminantType, Target::Variant))
        } else if self.ctx.is_some() {
            Some(AttrError::Unexpected(AttrName::Ctx, Target::Variant))
        } else if self.ctx_bounds.is_some() {
            Some(AttrError::Unexpected(AttrName::CtxBounds, Target::Variant))
        } else if self.write_value.is_some() {
            Some(AttrError::Unexpected(AttrName::WriteValue, Target::Variant))
        } else if self.bits.is_some() {
            Some(AttrError::Unexpected(AttrName::Bits, Target::Variant))
        } else if self.flexible_array_member {
            Some(AttrError::Unexpected(AttrName::FlexibleArrayMember, Target::Variant))
        } else if self.length.is_some() {
            Some(AttrError::Unexpected(AttrName::Length, Target::Variant))
        } else if self.condition.is_some() {
            Some(AttrError::Unexpected(AttrName::Condition, Target::Variant))
        } else {
            None
        }
    }

    /// How many of bit width, flexible array member and length are declared.
    pub open spec fn length_declarations(&self) -> nat {
        (if self.bits.is_some() {
            1nat
        } else {
            0nat
        }) + (if self.flexible_array_member {
            1nat
        } else {
            0nat
        }) + (if self.length.is_some() {
            1nat
        } else {
            0nat
        })
    }

    /// The first thing wrong with the declarations on a field, if any: a
    /// field has no tag and no context, and at most one of bit width,
    /// flexible array member and length.
    pub open spec fn field_fault(&self) -> Option<AttrError> {
        if self.discriminant_type.is_some() {
            Some(AttrError::Unexpected(AttrName::DiscriminantType, Target::Field))
        } else if self.discriminant.is_some() {
            Some(AttrError::Unexpected(AttrName::Discriminant, Target::Field))
        } else if self.ctx.is_some() {
            Some(AttrError::Unexpected(AttrName::Ctx, Target::Field))
        } else if self.ctx_bounds.is_some() {
            Some(AttrError::Unexpected(AttrName::CtxBounds, Target::Field))
        } else if self.length_declarations() > 1 {
            Some(AttrError::MutuallyExclusive)
        } else {
            None
        }
    }

    /// Checks the declarations on a union.
    pub fn validate_enum(&self) -> (r: Result<(), AttrError>)
        ensures
            match self.enum_fault() {
                None => r is Ok,
                Some(fault) => r == Err::<(), AttrError>(fault),
            },
    {
        if self.discriminant_type.is_none() {
            return Err(AttrError::Expected(AttrName::DiscriminantType, Target::Enum));
        }
        if self.discriminant.is_some() {
            return Err(AttrError::Unexpected(AttrName::Discriminant, Target::Enum));
        }
        if self.ctx.is_some() && self.ctx_bounds.is_some() {
            return Err(AttrError::CtxAndCtxBounds);
        }
        if self.write_value.is_some() {
            return Err(AttrError::Unexpected(AttrName::WriteValue, Target::Enum));
        }
        if self.flexible_array_member {
            return Err(AttrError::Unexpected(AttrName::FlexibleArrayMember, Target::Enum));
        }
        if self.length.is_some() {
            return Err(AttrError::Unexpected(AttrName::Length, Target::Enum));
        }
        if self.condition.is_some() {
            return Err(AttrError::Unexpected(AttrName::Condition, Target::Enum));
        }
        Ok(())
    }

    /// Checks the declarations on a variant.
    pub fn validate_variant(&self) -> (r: Result<(), AttrError>)
        ensures
            match self.variant_fault() {
                None => r is Ok,
                Some(fault) => r == Err::<(), AttrError>(fault),
            },
    {
        if self.discriminant_type.is_some() {
            return Err(AttrError::Unexpected(AttrName::DiscriminantType, Target::Variant));
        }
        if self.ctx.is_some() {
            return Err(AttrError::Unexpected(AttrName::Ctx, Target::Variant));
        }
        if self.ctx_bounds.is_some() {
            return Err(AttrError::Unexpected(AttrName::CtxBounds, Target::Variant));
        }
        if self.write_value.is_some() {
            return Err(AttrError::Unexpected(AttrName::WriteValue, Target::Variant));
        }
        if self.bits.is_some() {
            return Err(AttrError::Unexpected(AttrName::Bits, Target::Variant));
        }
        if self.flexible_array_member {
            return Err(AttrError::Unexpected(AttrName::FlexibleArrayMember, Target::Variant));
        }
        if self.length.is_some() {
            return Err(AttrError::Unexpected(AttrName::Length, Target::Variant));
        }
        if self.condition.is_some() {
            return Err(AttrError::Unexpected(AttrName::Condition, Target::Variant));
        }
        Ok(())
    }

    /// Checks the declarations on a field.
    pub fn validate_field(&self) -> (r: Result<(), AttrError>)
        ensures
            match self.field_fault() {
                None => r is Ok,
                Some(fault) => r == Err::<(), AttrError>(fault),
            },
    {
        if self.discriminant_type.is_some() {
            return Err(AttrError::Unexpected(AttrName::DiscriminantType, Target::Field));
        }
        if self.discriminant.is_some() {
            return Err(AttrError::Unexpected(AttrName::Discriminant, Target::Field));
        }
        if self.ctx.is_some() {
            return Err(AttrError::Unexpected(AttrName::Ctx, Target::Field));
        }
        if self.ctx_bounds.is_some() {
            return Err(AttrError::Unexpected(AttrName::CtxBounds, Target::Field));
        }
        let mut declared: u8 = 0;
        if self.bits.is_some() {
            declared = declared + 1;
        }
        if self.flexible_array_member {
            declared = declared + 1;
        }
        if self.length.is_some() {
            declared = declared + 1;
        }
        if declared > 1 {
            return Err(AttrError::MutuallyExclusive);
        }
        Ok(())
    }

    /// Takes one more declaration in.
    fn take(&mut self, meta: &Meta) -> (r: Result<(), AttrError>)
        ensures
            match with_meta(old(self)@, meta@) {
                Ok(attrs) => r is Ok && final(self)@ == attrs,
                Err(e) => r == Err::<(), AttrError>(e),
            },
    {
        match meta {
            Meta::NameValue { name: Some(name), value } => match lookup(name) {
                Some(AttrName::DiscriminantType) => {
                    self.discriminant_type = Some(meta_name_value_to_parse(value)?);
                },
                Some(AttrName::Discriminant) => {
                    self.discriminant = Some(meta_name_value_to_parse(value)?);
                },
                Some(AttrName::Ctx) => {
                    self.ctx = Some(meta_name_value_to_parse(value)?);
                },
                Some(AttrName::CtxBounds) => {
                    self.ctx_bounds = Some(meta_name_value_to_parse(value)?);
                },
                Some(AttrName::Bits) => {
                    self.bits = Some(meta_name_value_to_u32(value)?);
                },
                Some(AttrName::WriteValue) => {
                    self.write_value = Some(meta_name_value_to_parse(value)?);
                },
                Some(AttrName::Length) => {
                    self.length = Some(meta_name_value_to_parse(value)?);
                },
                Some(AttrName::Condition) => {
                    self.condition = Some(meta_name_value_to_parse(value)?);
                },
                _ => {
                    return Err(AttrError::Unrecognised);
                },
            },
            Meta::NameValue { name: None, .. } => {
                return Err(AttrError::FailedToParse);
            },
            Meta::Path { name: Some(name) } => match lookup(name) {
                Some(AttrName::FlexibleArrayMember) => {
                    self.flexible_array_member = true;
                },
                _ => {
                    return Err(AttrError::Unrecognised);
                },
            },
            Meta::Path { name: None } => {
                return Err(AttrError::ExpectedIdentifier);
            },
            Meta::Other => {
                return Err(AttrError::Unrecognised);
            },
        }
        Ok(())
    }

    /// The declarations that a list of them comes to, taken in order, or the
    /// first reason why one of them is refused.
    pub fn from_metas(metas: &[Meta]) -> (r: Result<Attrs, AttrError>)
        ensures
            match with_metas(Attrs::default_model(), meta_models(metas@), metas@.len()) {
                Ok(attrs) => r matches Ok(out) && out@ == attrs,
                Err(e) => r matches Err(out) && out == e,
            },
    {
        let mut attribs = Attrs::default();
        let mut i: usize = 0;
        while i < metas.len()
            invariant
                i <= metas@.len(),
                with_metas(Attrs::default_model(), meta_models(metas@), i as nat) == Ok::<
                    AttrsModel,
                    AttrError,
                >(attribs@),
            decreases metas@.len() - i,
        {
            match attribs.take(&metas[i]) {
                Ok(()) => {},
                Err(e) => {
                    proof {
                        lemma_refusal_stays(
                            Attrs::default_model(),
                            meta_models(metas@),
                            (i + 1) as nat,
                            metas@.len(),
                        );
                    }
                    return Err(e);
                },
            }
            i = i + 1;
        }
        Ok(attribs)
    }

    /// Nothing declared, as a mathematical value.
    pub open spec fn default_model() -> AttrsModel {
        AttrsModel {
            discriminant_type: None,
            discriminant: None,
            ctx: None,
            ctx_bounds: None,
            write_value: None,
            bits: None,
            flexible_array_member: false,
            length: None,
            condition: None,
        }
    }

    /// The text of the context type: the declared one, or the name of the
    /// type parameter that stands for any context.
    pub fn ctx_ty(&self) -> (text: String)
        ensures
            text@ == (match self.ctx {
                Some(ctx) => ctx@,
                None => "__Ctx"@,
            }),
    {
        match &self.ctx {
            Some(ctx) => ctx.clone(),
            None => "__Ctx".to_string(),
        }
    }
}

/// Once a declaration is refused, the list is refused for that reason
/// however it goes on.
pub proof fn lemma_refusal_stays(attrs: AttrsModel, metas: Seq<MetaModel>, at: nat, count: nat)
    requires
        at <= count,
        with_metas(attrs, metas, at) is Err,
    ensures
        with_metas(attrs, metas, count) == with_metas(attrs, metas, at),
    decreases count,
{
    if at < count {
        lemma_refusal_stays(attrs, metas, at, (count - 1) as nat);
    }
}

} // verus!

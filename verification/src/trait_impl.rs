//! The header of the impl that gives a type one of the codec's traits: which
//! trait, with which arguments, and which type parameters the impl needs
//! beyond those of the type.

use crate::attr::{text, Attrs};
use vstd::prelude::*;
use vstd::string::StringExecFns;

verus! {

/// The trait that an impl is for.
#[derive(Debug)]
pub enum TraitImplType {
    ProtocolRead,
    ProtocolWrite,
    /// Reading with a tag from the caller; holds the text of the type of the
    /// union's tag.
    ExternallyTaggedRead(String),
    ExternallyTaggedWrite,
    Discriminable,
}

/// A type parameter of an impl, with the text of its bounds if it has any.
#[derive(Debug)]
pub struct TypeParam {
    pub ident: String,
    pub bounds: Option<String>,
}

/// The header of an impl.
#[derive(Debug)]
pub struct TraitImpl {
    /// The name of the trait.
    pub trait_name: String,
    /// The arguments of the trait, in order.
    pub trait_generics: Vec<String>,
    /// The type parameters that the impl has beyond those of the type.
    pub added_params: Vec<TypeParam>,
}

/// A [`TypeParam`] as a mathematical value.
pub struct TypeParamModel {
    pub ident: Seq<char>,
    pub bounds: Option<Seq<char>>,
}

/// A [`TraitImpl`] as a mathematical value.
pub struct TraitImplModel {
    pub trait_name: Seq<char>,
    pub trait_generics: Seq<Seq<char>>,
    pub added_params: Seq<TypeParamModel>,
}

impl View for TypeParam {
    type V = TypeParamModel;

    open spec fn view(&self) -> TypeParamModel {
        TypeParamModel { ident: self.ident@, bounds: text(self.bounds) }
    }
}

impl View for TraitImpl {
    type V = TraitImplModel;

    open spec fn view(&self) -> TraitImplModel {
        TraitImplModel {
            trait_name: self.trait_name@,
            trait_generics: Seq::new(
                self.trait_generics@.len(),
                |i: int| self.trait_generics@[i]@,
            ),
            added_params: Seq::new(self.added_params@.len(), |i: int| self.added_params@[i]@),
        }
    }
}

/// The name of the trait.
pub open spec fn trait_name_of(typ: TraitImplType) -> Seq<char> {
    match typ {
        TraitImplType::ProtocolRead => "ProtocolRead"@,
        TraitImplType::ProtocolWrite => "ProtocolWrite"@,
        TraitImplType::ExternallyTaggedRead(_) => "ExternallyTaggedRead"@,
        TraitImplType::ExternallyTaggedWrite => "ExternallyTaggedWrite"@,
        TraitImplType::Discriminable => "Discriminable"@,
    }
}

/// The tag parameter of an impl that reads with a tag from the caller: any
/// type that converts to the type of the union's tag.
pub open spec fn tag_param(discriminant: Seq<char>) -> TypeParamModel {
    TypeParamModel {
        ident: "__Tag"@,
        bounds: Some("::std::convert::TryInto<"@ + discriminant + ">"@),
    }
}

/// The header of the impl of a trait for a type with the given declarations.
/// An impl that reads with a tag from the caller takes the tag type as its
/// first parameter. Every impl but that of `Discriminable` takes a context:
/// the declared context type, or else a parameter with the declared bounds.
pub open spec fn trait_impl(
    ctx: Option<Seq<char>>,
    ctx_bounds: Option<Seq<char>>,
    typ: TraitImplType,
) -> TraitImplModel {
    let tagged = typ is ExternallyTaggedRead;
    let generics: Seq<Seq<char>> = if tagged {
        seq!["__Tag"@]
    } else {
        seq![]
    };
    let params: Seq<TypeParamModel> = if tagged {
        seq![tag_param(typ->ExternallyTaggedRead_0@)]
    } else {
        seq![]
    };
    if typ is Discriminable {
        TraitImplModel {
            trait_name: trait_name_of(typ),
            trait_generics: generics,
            added_params: params,
        }
    } else {
        match ctx {
            Some(ctx) => TraitImplModel {
                trait_name: trait_name_of(typ),
                trait_generics: generics.push(ctx),
                added_params: params,
            },
            None => TraitImplModel {
                trait_name: trait_name_of(typ),
                trait_generics: generics.push("__Ctx"@),
                added_params: params.push(TypeParamModel { ident: "__Ctx"@, bounds: ctx_bounds }),
            },
        }
    }
}

/// Works out the header of the impl of a trait for a type with the given
/// declarations.
pub fn impl_trait_for(attribs: &Attrs, typ: &TraitImplType) -> (header: TraitImpl)
    ensures
        header@ == trait_impl(text(attribs.ctx), text(attribs.ctx_bounds), *typ),
{
    let mut trait_generics: Vec<String> = Vec::new();
    let mut added_params: Vec<TypeParam> = Vec::new();
    let trait_name = match typ {
        TraitImplType::ProtocolRead => "ProtocolRead".to_string(),
        TraitImplType::ProtocolWrite => "ProtocolWrite".to_string(),
        TraitImplType::ExternallyTaggedRead(discriminant) => {
            let bounds = "::std::convert::TryInto<".to_string().concat(
                discriminant.as_str(),
            ).concat(">");
            added_params.push(TypeParam { ident: "__Tag".to_string(), bounds: Some(bounds) });
            trait_generics.push("__Tag".to_string());
            "ExternallyTaggedRead".to_string()
        },
        TraitImplType::ExternallyTaggedWrite => "ExternallyTaggedWrite".to_string(),
        TraitImplType::Discriminable => "Discriminable".to_string(),
    };
    match typ {
        TraitImplType::Discriminable => {},
        _ => {
            match &attribs.ctx {
                Some(ctx) => {
                    trait_generics.push(ctx.clone());
                },
                None => {
                    let bounds = match &attribs.ctx_bounds {
                        Some(bounds) => Some(bounds.clone()),
                        None => None,
                    };
                    added_params.push(TypeParam { ident: "__Ctx".to_string(), bounds });
                    trait_generics.push("__Ctx".to_string());
                },
            }
        },
    }
    let header = TraitImpl { trait_name, trait_generics, added_params };
    proof {
        let expected = trait_impl(text(attribs.ctx), text(attribs.ctx_bounds), *typ);
        assert(header@.trait_generics =~= expected.trait_generics);
        assert(header@.added_params =~= expected.added_params);
    }
    header
}

} // verus!

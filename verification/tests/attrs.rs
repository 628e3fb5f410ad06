use bin_proto::attr::{AttrError, AttrName, Attrs, Lit, Meta, Target};
use bin_proto::trait_impl::{impl_trait_for, TraitImplType};

fn some(text: &str) -> Option<String> {
    Some(text.to_string())
}

#[test]
fn a_union_needs_the_type_of_its_tag() {
    let attrs = Attrs::default();
    assert_eq!(
        attrs.validate_enum(),
        Err(AttrError::Expected(AttrName::DiscriminantType, Target::Enum))
    );
    let attrs = Attrs { discriminant_type: some("u8"), ..Attrs::default() };
    assert_eq!(attrs.validate_enum(), Ok(()));
    let attrs = Attrs { discriminant_type: some("u8"), ctx: some("Ctx"), ..Attrs::default() };
    assert_eq!(attrs.validate_enum(), Ok(()));
    let attrs = Attrs { discriminant_type: some("u8"), bits: Some(3), ..Attrs::default() };
    assert_eq!(attrs.validate_enum(), Ok(()));
}

#[test]
fn a_union_refuses_what_belongs_to_variants_and_fields() {
    let with_type = || Attrs { discriminant_type: some("u8"), ..Attrs::default() };
    let attrs = Attrs { discriminant: some("1"), ..with_type() };
    assert_eq!(
        attrs.validate_enum(),
        Err(AttrError::Unexpected(AttrName::Discriminant, Target::Enum))
    );
    let attrs = Attrs { ctx: some("Ctx"), ctx_bounds: some("Clone"), ..with_type() };
    assert_eq!(attrs.validate_enum(), Err(AttrError::CtxAndCtxBounds));
    let attrs = Attrs { write_value: some("1"), ..with_type() };
    assert_eq!(
        attrs.validate_enum(),
        Err(AttrError::Unexpected(AttrName::WriteValue, Target::Enum))
    );
    let attrs = Attrs { flexible_array_member: true, ..with_type() };
    assert_eq!(
        attrs.validate_enum(),
        Err(AttrError::Unexpected(AttrName::FlexibleArrayMember, Target::Enum))
    );
    let attrs = Attrs { length: some("n"), ..with_type() };
    assert_eq!(attrs.validate_enum(), Err(AttrError::Unexpected(AttrName::Length, Target::Enum)));
    let attrs = Attrs { condition: some("c"), length: some("n"), ..with_type() };
    assert_eq!(attrs.validate_enum(), Err(AttrError::Unexpected(AttrName::Length, Target::Enum)));
    let attrs = Attrs { condition: some("c"), ..with_type() };
    assert_eq!(
        attrs.validate_enum(),
        Err(AttrError::Unexpected(AttrName::Condition, Target::Enum))
    );
}

#[test]
fn a_variant_may_only_declare_its_tag() {
    assert_eq!(Attrs::default().validate_variant(), Ok(()));
    let attrs = Attrs { discriminant: some("3"), ..Attrs::default() };
    assert_eq!(attrs.validate_variant(), Ok(()));
    let refused = [
        (Attrs { discriminant_type: some("u8"), ..Attrs::default() }, AttrName::DiscriminantType),
        (Attrs { ctx: some("C"), ..Attrs::default() }, AttrName::Ctx),
        (Attrs { ctx_bounds: some("Clone"), ..Attrs::default() }, AttrName::CtxBounds),
        (Attrs { write_value: some("1"), ..Attrs::default() }, AttrName::WriteValue),
        (Attrs { bits: Some(1), ..Attrs::default() }, AttrName::Bits),
        (
            Attrs { flexible_array_member: true, ..Attrs::default() },
            AttrName::FlexibleArrayMember,
        ),
        (Attrs { length: some("n"), ..Attrs::default() }, AttrName::Length),
        (Attrs { condition: some("c"), ..Attrs::default() }, AttrName::Condition),
    ];
    for (attrs, name) in refused {
        assert_eq!(attrs.validate_variant(), Err(AttrError::Unexpected(name, Target::Variant)));
    }
}

#[test]
fn a_field_declares_at_most_one_kind_of_length() {
    assert_eq!(Attrs::default().validate_field(), Ok(()));
    let attrs = Attrs { bits: Some(3), ..Attrs::default() };
    assert_eq!(attrs.validate_field(), Ok(()));
    let attrs = Attrs { length: some("n"), condition: some("c"), ..Attrs::default() };
    assert_eq!(attrs.validate_field(), Ok(()));
    let attrs = Attrs { flexible_array_member: true, write_value: some("1"), ..Attrs::default() };
    assert_eq!(attrs.validate_field(), Ok(()));
    let attrs = Attrs { bits: Some(3), length: some("n"), ..Attrs::default() };
    assert_eq!(attrs.validate_field(), Err(AttrError::MutuallyExclusive));
    let attrs = Attrs { bits: Some(3), flexible_array_member: true, ..Attrs::default() };
    assert_eq!(attrs.validate_field(), Err(AttrError::MutuallyExclusive));
    let attrs = Attrs { length: some("n"), flexible_array_member: true, ..Attrs::default() };
    assert_eq!(attrs.validate_field(), Err(AttrError::MutuallyExclusive));
    let attrs = Attrs { discriminant: some("1"), ..Attrs::default() };
    assert_eq!(
        attrs.validate_field(),
        Err(AttrError::Unexpected(AttrName::Discriminant, Target::Field))
    );
    let attrs = Attrs { discriminant_type: some("u8"), ..Attrs::default() };
    assert_eq!(
        attrs.validate_field(),
        Err(AttrError::Unexpected(AttrName::DiscriminantType, Target::Field))
    );
    let attrs = Attrs { ctx: some("C"), ..Attrs::default() };
    assert_eq!(attrs.validate_field(), Err(AttrError::Unexpected(AttrName::Ctx, Target::Field)));
    let attrs = Attrs { ctx_bounds: some("Clone"), ..Attrs::default() };
    assert_eq!(
        attrs.validate_field(),
        Err(AttrError::Unexpected(AttrName::CtxBounds, Target::Field))
    );
}

#[test]
fn the_context_type_defaults_to_a_type_parameter() {
    assert_eq!(Attrs::default().ctx_ty(), "__Ctx");
    let attrs = Attrs { ctx: some("MyCtx"), ..Attrs::default() };
    assert_eq!(attrs.ctx_ty(), "MyCtx");
}

fn name_value(name: &str, value: Lit) -> Meta {
    Meta::NameValue { name: some(name), value }
}

fn string(text: &str) -> Lit {
    Lit::Str(text.to_string())
}

#[test]
fn declarations_are_taken_in_by_name() {
    let attrs = Attrs::from_metas(&[
        name_value("discriminant_type", string("u8")),
        name_value("discriminant", string("3")),
        name_value("ctx", string("Ctx")),
        name_value("ctx_bounds", string("Clone + Copy")),
        name_value("write_value", string("self.a.len()")),
        name_value("bits", Lit::Int(7)),
        name_value("length", string("self.n")),
        name_value("condition", string("self.flag")),
        Meta::Path { name: some("flexible_array_member") },
    ])
    .unwrap();
    assert_eq!(attrs.discriminant_type, some("u8"));
    assert_eq!(attrs.discriminant, some("3"));
    assert_eq!(attrs.ctx, some("Ctx"));
    assert_eq!(attrs.ctx_bounds, some("Clone + Copy"));
    assert_eq!(attrs.write_value, some("self.a.len()"));
    assert_eq!(attrs.bits, Some(7));
    assert_eq!(attrs.length, some("self.n"));
    assert_eq!(attrs.condition, some("self.flag"));
    assert!(attrs.flexible_array_member);
    let attrs = Attrs::from_metas(&[]).unwrap();
    assert_eq!(attrs.bits, None);
    assert!(!attrs.flexible_array_member);
    let attrs =
        Attrs::from_metas(&[name_value("bits", Lit::Int(1)), name_value("bits", Lit::Int(2))])
            .unwrap();
    assert_eq!(attrs.bits, Some(2));
}

#[test]
fn declarations_that_are_not_known_are_refused() {
    let refused = |metas: &[Meta]| Attrs::from_metas(metas).unwrap_err();
    assert_eq!(refused(&[name_value("width", Lit::Int(1))]), AttrError::Unrecognised);
    assert_eq!(
        refused(&[name_value("flexible_array_member", string("x"))]),
        AttrError::Unrecognised
    );
    assert_eq!(refused(&[Meta::Path { name: some("bits") }]), AttrError::Unrecognised);
    assert_eq!(refused(&[Meta::Other]), AttrError::Unrecognised);
    assert_eq!(
        refused(&[Meta::NameValue { name: None, value: Lit::Int(1) }]),
        AttrError::FailedToParse
    );
    assert_eq!(refused(&[Meta::Path { name: None }]), AttrError::ExpectedIdentifier);
    assert_eq!(refused(&[name_value("ctx", Lit::Int(1))]), AttrError::ExpectedString);
    assert_eq!(refused(&[name_value("length", Lit::Other)]), AttrError::ExpectedString);
    assert_eq!(refused(&[name_value("bits", string("3"))]), AttrError::ExpectedInteger);
    assert_eq!(
        refused(&[name_value("bits", Lit::Int(u32::MAX as u64 + 1))]),
        AttrError::FailedToParseU32
    );
    assert_eq!(
        refused(&[
            name_value("bits", Lit::Int(3)),
            Meta::Path { name: None },
            name_value("nothing", Lit::Other)
        ]),
        AttrError::ExpectedIdentifier
    );
}

#[test]
fn an_impl_takes_a_context_and_a_tag_where_it_needs_them() {
    let header = impl_trait_for(&Attrs::default(), &TraitImplType::ProtocolRead);
    assert_eq!(header.trait_name, "ProtocolRead");
    assert_eq!(header.trait_generics, vec!["__Ctx"]);
    assert_eq!(header.added_params.len(), 1);
    assert_eq!(header.added_params[0].ident, "__Ctx");
    assert_eq!(header.added_params[0].bounds, None);

    let attrs = Attrs { ctx_bounds: some("Clone"), ..Attrs::default() };
    let header = impl_trait_for(&attrs, &TraitImplType::ProtocolWrite);
    assert_eq!(header.trait_name, "ProtocolWrite");
    assert_eq!(header.added_params[0].bounds, some("Clone"));

    let attrs = Attrs { ctx: some("MyCtx"), ..Attrs::default() };
    let header = impl_trait_for(&attrs, &TraitImplType::ExternallyTaggedWrite);
    assert_eq!(header.trait_name, "ExternallyTaggedWrite");
    assert_eq!(header.trait_generics, vec!["MyCtx"]);
    assert_eq!(header.added_params.len(), 0);

    let header =
        impl_trait_for(&attrs, &TraitImplType::ExternallyTaggedRead("u16".to_string()));
    assert_eq!(header.trait_name, "ExternallyTaggedRead");
    assert_eq!(header.trait_generics, vec!["__Tag", "MyCtx"]);
    assert_eq!(header.added_params.len(), 1);
    assert_eq!(header.added_params[0].ident, "__Tag");
    assert_eq!(header.added_params[0].bounds, some("::std::convert::TryInto<u16>"));

    let header = impl_trait_for(&Attrs::default(), &TraitImplType::Discriminable);
    assert_eq!(header.trait_name, "Discriminable");
    assert_eq!(header.trait_generics.len(), 0);
    assert_eq!(header.added_params.len(), 0);
}

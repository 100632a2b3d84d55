use noirc_types::basics::ArraySize;
use noirc_types::basics::FieldElementType;
use noirc_types::basics::Ident;
use noirc_types::basics::Signedness;
use noirc_types::basics::Span;
use noirc_types::constness::IsConst;
use noirc_types::context::TypeContext;
use noirc_types::render::decimal_string;
use noirc_types::types::Type;
use noirc_types::types::TypeBinding;

fn here() -> Span {
    Span::new(10, 20)
}

fn u(bits: u32) -> Type {
    Type::Integer(IsConst::No(None), FieldElementType::Private, Signedness::Unsigned, bits)
}

#[test]
fn numbers_are_written_in_decimal() {
    assert_eq!(decimal_string(0), "0");
    assert_eq!(decimal_string(7), "7");
    assert_eq!(decimal_string(10), "10");
    assert_eq!(decimal_string(1234567890), "1234567890");
    assert_eq!(decimal_string(u128::MAX), u128::MAX.to_string());
}

#[test]
fn field_elements_are_written_with_constness_and_visibility() {
    let ctx = TypeContext::new();
    assert_eq!(Type::witness(None).to_string(&ctx), "Field");
    assert_eq!(Type::public(None).to_string(&ctx), "pub Field");
    assert_eq!(Type::constant(None).to_string(&ctx), "const Field");
    assert_eq!(
        Type::FieldElement(IsConst::Yes(None), FieldElementType::Public).to_string(&ctx),
        "const pub Field"
    );
}

#[test]
fn integers_are_written_with_sign_and_width() {
    let ctx = TypeContext::new();
    assert_eq!(u(8).to_string(&ctx), "u8");
    assert_eq!(
        Type::Integer(IsConst::Yes(None), FieldElementType::Public, Signedness::Signed, 32).to_string(&ctx),
        "const pub i32"
    );
    assert_eq!(
        Type::Integer(IsConst::No(None), FieldElementType::Public, Signedness::Unsigned, 127).to_string(&ctx),
        "pub u127"
    );
}

#[test]
fn a_pending_constness_is_written_as_const() {
    let mut ctx = TypeContext::new();
    let pending = ctx.new_constness();
    let ty = Type::FieldElement(pending, FieldElementType::Private);
    assert_eq!(pending.to_string(&ctx), "const ");
    assert_eq!(ty.to_string(&ctx), "const Field");
    assert_eq!(pending.unify(&IsConst::No(None), here(), &mut ctx), Ok(()));
    assert_eq!(pending.to_string(&ctx), "");
    assert_eq!(ty.to_string(&ctx), "Field");
    assert_eq!(IsConst::Yes(None).to_string(&ctx), "const ");
    assert_eq!(IsConst::No(None).to_string(&ctx), "");
}

#[test]
fn arrays_are_written_with_their_size_in_front() {
    let ctx = TypeContext::new();
    let fixed = Type::Array(FieldElementType::Public, ArraySize::Fixed(4), Box::new(u(8)));
    let open = Type::Array(FieldElementType::Private, ArraySize::Variable, Box::new(Type::constant(None)));
    assert_eq!(fixed.to_string(&ctx), "pub [4]u8");
    assert_eq!(open.to_string(&ctx), "[]const Field");
    assert_eq!(ArraySize::Fixed(120).to_string(), "[120]");
    assert_eq!(ArraySize::Variable.to_string(), "[]");
    let nested = Type::Array(FieldElementType::Private, ArraySize::Fixed(2), Box::new(fixed));
    assert_eq!(nested.to_string(&ctx), "[2]pub [4]u8");
}

#[test]
fn structs_are_written_by_name() {
    let mut ctx = TypeContext::new();
    let id = ctx.add_struct(Ident::new("Point".to_string(), here()), here(), vec![]);
    assert_eq!(Type::Struct(FieldElementType::Private, id).to_string(&ctx), "Point");
    assert_eq!(Type::Struct(FieldElementType::Public, id).to_string(&ctx), "pub Point");
    assert_eq!(ctx.struct_def(id).to_string(), "Point");
}

#[test]
fn tuples_are_written_with_commas() {
    let ctx = TypeContext::new();
    assert_eq!(Type::Tuple(vec![]).to_string(&ctx), "()");
    assert_eq!(Type::Tuple(vec![u(8)]).to_string(&ctx), "(u8)");
    assert_eq!(
        Type::Tuple(vec![u(8), Type::Bool, Type::Tuple(vec![Type::Unit, Type::public(None)])]).to_string(&ctx),
        "(u8, bool, ((), pub Field))"
    );
}

#[test]
fn the_other_shapes_have_fixed_names() {
    let ctx = TypeContext::new();
    assert_eq!(Type::Bool.to_string(&ctx), "bool");
    assert_eq!(Type::Unit.to_string(&ctx), "()");
    assert_eq!(Type::Error.to_string(&ctx), "error");
    assert_eq!(Type::Unspecified.to_string(&ctx), "unspecified");
}

#[test]
fn a_variable_is_written_as_what_it_is_bound_to() {
    let mut ctx = TypeContext::new();
    let var = ctx.new_type_variable();
    let other = ctx.new_type_variable();
    let lit = Type::PolymorphicInteger(IsConst::Yes(None), var);
    let link = Type::PolymorphicInteger(IsConst::Yes(None), other);
    // the constness beside an unbound variable is not written
    assert_eq!(lit.to_string(&ctx), "Field");
    assert_eq!(ctx.binding_of(var).to_string(&ctx), "Field");
    assert_eq!(link.try_unify(&lit, here(), &mut ctx), Ok(()));
    assert_eq!(link.to_string(&ctx), "Field");
    let target = Type::Integer(IsConst::Yes(None), FieldElementType::Public, Signedness::Unsigned, 8);
    assert_eq!(lit.try_unify(&target, here(), &mut ctx), Ok(()));
    assert_eq!(lit.to_string(&ctx), "const pub u8");
    assert_eq!(link.to_string(&ctx), "const pub u8");
    assert_eq!(ctx.binding_of(var).to_string(&ctx), "const pub u8");
    assert_eq!(TypeBinding::Unbound(var).to_string(&ctx), "Field");
}

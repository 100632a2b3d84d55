use noirc_types::basics::ArraySize;
use noirc_types::basics::FieldElementType;
use noirc_types::basics::Ident;
use noirc_types::basics::Signedness;
use noirc_types::basics::Span;
use noirc_types::basics::StructId;
use noirc_types::basics::TypeVariableId;
use noirc_types::constness::IsConst;
use noirc_types::constness::SpanKind;
use noirc_types::context::TypeContext;
use noirc_types::types::StructType;
use noirc_types::types::Type;
use noirc_types::types::TypeBinding;

fn here() -> Span {
    Span::new(10, 20)
}

fn integer(c: IsConst, vis: FieldElementType, sign: Signedness, bits: u32) -> Type {
    Type::Integer(c, vis, sign, bits)
}

fn u(bits: u32) -> Type {
    integer(IsConst::No(None), FieldElementType::Private, Signedness::Unsigned, bits)
}

fn array(size: ArraySize, elem: Type) -> Type {
    Type::Array(FieldElementType::Private, size, Box::new(elem))
}

fn name(text: &str) -> Ident {
    Ident::new(text.to_string(), Span::new(0, 0))
}

#[test]
fn concrete_types_unify_with_themselves() {
    let mut ctx = TypeContext::new();
    let id = ctx.add_struct(name("Point"), Span::new(0, 5), vec![(name("x"), u(8))]);
    let types = vec![
        Type::witness(None),
        Type::constant(Some(here())),
        u(8),
        integer(IsConst::Yes(None), FieldElementType::Public, Signedness::Signed, 32),
        Type::Bool,
        Type::Unit,
        Type::Error,
        Type::Struct(FieldElementType::Private, id),
        array(ArraySize::Fixed(4), u(8)),
        array(ArraySize::Variable, Type::Bool),
        Type::Tuple(vec![u(8), Type::Bool, Type::Tuple(vec![])]),
    ];
    for ty in types.iter() {
        assert_eq!(ty.try_unify(ty, here(), &mut ctx), Ok(()));
        assert_eq!(ty.is_subtype_of(ty, here(), &mut ctx), Ok(()));
    }
    assert_eq!(ctx.constness_count(), 0);
    assert_eq!(ctx.variable_count(), 0);
}

#[test]
fn types_with_variables_unify_with_themselves_and_bind_nothing() {
    let mut ctx = TypeContext::new();
    let c = ctx.new_constness();
    let var = ctx.new_type_variable();
    let ty = Type::Tuple(vec![Type::FieldElement(c, FieldElementType::Private), Type::PolymorphicInteger(c, var)]);
    assert_eq!(ty.try_unify(&ty, here(), &mut ctx), Ok(()));
    assert_eq!(ctx.constness_of(TypeVariableId(0)), None);
    assert_eq!(ctx.binding_of(var), TypeBinding::Unbound(var));
}

#[test]
fn different_shapes_do_not_unify() {
    let mut ctx = TypeContext::new();
    assert_eq!(Type::Bool.try_unify(&Type::Unit, here(), &mut ctx), Err(SpanKind::Nowhere));
    assert_eq!(u(8).try_unify(&Type::witness(None), here(), &mut ctx), Err(SpanKind::Nowhere));
    assert_eq!(
        Type::Tuple(vec![]).try_unify(&Type::Unit, here(), &mut ctx),
        Err(SpanKind::Nowhere)
    );
    assert_eq!(
        array(ArraySize::Fixed(1), Type::Bool).try_unify(&Type::Bool, here(), &mut ctx),
        Err(SpanKind::Nowhere)
    );
}

#[test]
fn error_absorbs_every_comparison() {
    let mut ctx = TypeContext::new();
    let var = ctx.new_type_variable();
    let lit = Type::PolymorphicInteger(IsConst::No(None), var);
    assert_eq!(Type::Error.try_unify(&Type::Bool, here(), &mut ctx), Ok(()));
    assert_eq!(u(8).try_unify(&Type::Error, here(), &mut ctx), Ok(()));
    assert_eq!(Type::Error.is_subtype_of(&array(ArraySize::Variable, u(8)), here(), &mut ctx), Ok(()));
    assert_eq!(lit.try_unify(&Type::Error, here(), &mut ctx), Ok(()));
    assert_eq!(Type::Error.try_unify(&lit, here(), &mut ctx), Ok(()));
    // nothing was bound on the way
    assert_eq!(ctx.binding_of(var), TypeBinding::Unbound(var));
}

#[test]
fn field_elements_unify_by_constness_and_not_by_visibility() {
    let mut ctx = TypeContext::new();
    assert_eq!(Type::witness(None).try_unify(&Type::public(None), here(), &mut ctx), Ok(()));
    let at = Span::new(1, 2);
    assert_eq!(
        Type::constant(Some(at)).try_unify(&Type::witness(None), here(), &mut ctx),
        Err(SpanKind::Const(at))
    );
    assert_eq!(Type::constant(None).is_subtype_of(&Type::witness(None), here(), &mut ctx), Ok(()));
    assert_eq!(
        Type::witness(Some(at)).is_subtype_of(&Type::constant(None), here(), &mut ctx),
        Err(SpanKind::NonConst(at))
    );
}

#[test]
fn integers_of_different_sign_do_not_unify_whatever_their_constness() {
    let mut ctx = TypeContext::new();
    let pending = ctx.new_constness();
    for c1 in [IsConst::Yes(None), IsConst::No(None), pending] {
        for c2 in [IsConst::Yes(None), IsConst::No(None), pending] {
            let signed = integer(c1, FieldElementType::Private, Signedness::Signed, 32);
            let unsigned = integer(c2, FieldElementType::Public, Signedness::Unsigned, 32);
            assert_eq!(signed.try_unify(&unsigned, here(), &mut ctx), Err(SpanKind::Nowhere));
            assert_eq!(unsigned.try_unify(&signed, here(), &mut ctx), Err(SpanKind::Nowhere));
            assert_eq!(signed.is_subtype_of(&unsigned, here(), &mut ctx), Err(SpanKind::Nowhere));
        }
    }
    // the constness was never looked at
    assert_eq!(ctx.constness_of(TypeVariableId(0)), None);
}

#[test]
fn integers_of_different_width_do_not_unify() {
    let mut ctx = TypeContext::new();
    assert_eq!(u(8).try_unify(&u(16), here(), &mut ctx), Err(SpanKind::Nowhere));
    assert_eq!(u(8).try_unify(&u(8), here(), &mut ctx), Ok(()));
}

#[test]
fn integers_of_the_same_shape_unify_by_constness() {
    let mut ctx = TypeContext::new();
    let at = Span::new(1, 2);
    let a = integer(IsConst::Yes(None), FieldElementType::Private, Signedness::Unsigned, 8);
    let b = integer(IsConst::No(Some(at)), FieldElementType::Public, Signedness::Unsigned, 8);
    assert_eq!(a.try_unify(&b, here(), &mut ctx), Err(SpanKind::NonConst(at)));
    assert_eq!(a.is_subtype_of(&b, here(), &mut ctx), Ok(()));
    assert_eq!(b.is_subtype_of(&a, here(), &mut ctx), Err(SpanKind::NonConst(at)));
}

#[test]
fn arrays_of_the_same_size_unify_as_their_elements_do() {
    let mut ctx = TypeContext::new();
    let four = ArraySize::Fixed(4);
    assert_eq!(array(four, u(8)).try_unify(&array(four, u(8)), here(), &mut ctx), Ok(()));
    assert_eq!(
        array(four, u(8)).try_unify(&array(four, u(16)), here(), &mut ctx),
        Err(SpanKind::Nowhere)
    );
    let at = Span::new(1, 2);
    assert_eq!(
        array(four, Type::constant(Some(at))).try_unify(&array(four, Type::witness(None)), here(), &mut ctx),
        Err(SpanKind::Const(at))
    );
    // the visibility of the array is not compared
    let public = Type::Array(FieldElementType::Public, four, Box::new(u(8)));
    assert_eq!(public.try_unify(&array(four, u(8)), here(), &mut ctx), Ok(()));
}

#[test]
fn arrays_of_different_sizes_never_unify() {
    let mut ctx = TypeContext::new();
    let a = array(ArraySize::Fixed(4), Type::Error);
    let b = array(ArraySize::Fixed(5), Type::Error);
    assert_eq!(a.try_unify(&b, here(), &mut ctx), Err(SpanKind::Nowhere));
    assert_eq!(b.try_unify(&a, here(), &mut ctx), Err(SpanKind::Nowhere));
    assert_eq!(a.is_subtype_of(&b, here(), &mut ctx), Err(SpanKind::Nowhere));
    let open = array(ArraySize::Variable, Type::Error);
    assert_eq!(a.try_unify(&open, here(), &mut ctx), Err(SpanKind::Nowhere));
    assert_eq!(open.try_unify(&a, here(), &mut ctx), Err(SpanKind::Nowhere));
    assert_eq!(open.try_unify(&open, here(), &mut ctx), Ok(()));
}

#[test]
fn a_fixed_array_is_a_subtype_of_an_open_one_and_not_the_reverse() {
    let mut ctx = TypeContext::new();
    let fixed = array(ArraySize::Fixed(4), u(8));
    let open = array(ArraySize::Variable, u(8));
    assert_eq!(fixed.is_subtype_of(&open, here(), &mut ctx), Ok(()));
    assert_eq!(open.is_subtype_of(&fixed, here(), &mut ctx), Err(SpanKind::Nowhere));
    assert_eq!(open.is_subtype_of(&open, here(), &mut ctx), Ok(()));
    // the elements still have to fit
    let other = array(ArraySize::Variable, u(16));
    assert_eq!(fixed.is_subtype_of(&other, here(), &mut ctx), Err(SpanKind::Nowhere));
}

#[test]
fn array_size_subtyping() {
    assert!(ArraySize::Fixed(4).is_subtype_of(&ArraySize::Variable));
    assert!(ArraySize::Fixed(4).is_subtype_of(&ArraySize::Fixed(4)));
    assert!(ArraySize::Variable.is_subtype_of(&ArraySize::Variable));
    assert!(!ArraySize::Variable.is_subtype_of(&ArraySize::Fixed(4)));
    assert!(!ArraySize::Fixed(4).is_subtype_of(&ArraySize::Fixed(5)));
    assert!(ArraySize::Fixed(0).is_fixed());
    assert!(!ArraySize::Variable.is_fixed());
}

#[test]
fn structs_unify_by_identity_alone() {
    let mut ctx = TypeContext::new();
    let first = ctx.add_struct(name("Point"), Span::new(0, 5), vec![(name("x"), u(8))]);
    let second = ctx.add_struct(name("Point"), Span::new(0, 5), vec![(name("x"), u(8))]);
    assert_eq!(first, StructId(0));
    assert_eq!(second, StructId(1));
    let a = Type::Struct(FieldElementType::Private, first);
    let same = Type::Struct(FieldElementType::Public, first);
    let b = Type::Struct(FieldElementType::Private, second);
    assert_eq!(a.try_unify(&same, here(), &mut ctx), Ok(()));
    assert_eq!(a.is_subtype_of(&same, here(), &mut ctx), Ok(()));
    // the same fields under another identity are another type
    assert_eq!(a.try_unify(&b, here(), &mut ctx), Err(SpanKind::Nowhere));
    assert_eq!(a.is_subtype_of(&b, here(), &mut ctx), Err(SpanKind::Nowhere));
}

#[test]
fn struct_definitions_are_equal_when_their_identities_are() {
    let forged = StructType::new(StructId(7), name("A"), Span::new(0, 1), vec![(name("x"), u(8))]);
    let other = StructType::new(StructId(7), name("B"), Span::new(2, 3), vec![]);
    let twin = StructType::new(StructId(8), name("A"), Span::new(0, 1), vec![(name("x"), u(8))]);
    assert!(forged == other);
    assert!(forged != twin);
}

#[test]
fn tuples_unify_element_by_element() {
    let mut ctx = TypeContext::new();
    let a = Type::Tuple(vec![u(8), Type::Bool]);
    let b = Type::Tuple(vec![u(8), Type::Bool]);
    let shorter = Type::Tuple(vec![u(8)]);
    let other = Type::Tuple(vec![u(8), Type::Unit]);
    assert_eq!(a.try_unify(&b, here(), &mut ctx), Ok(()));
    assert_eq!(a.try_unify(&shorter, here(), &mut ctx), Err(SpanKind::Nowhere));
    assert_eq!(a.try_unify(&other, here(), &mut ctx), Err(SpanKind::Nowhere));
    assert_eq!(a.is_subtype_of(&shorter, here(), &mut ctx), Err(SpanKind::Nowhere));
}

#[test]
fn a_failed_unification_keeps_the_bindings_it_made() {
    let mut ctx = TypeContext::new();
    let first = ctx.new_type_variable();
    let second = ctx.new_type_variable();
    let a = Type::Tuple(vec![
        Type::PolymorphicInteger(IsConst::No(None), first),
        Type::Bool,
        Type::PolymorphicInteger(IsConst::No(None), second),
    ]);
    let b = Type::Tuple(vec![u(8), Type::Unit, u(16)]);
    assert_eq!(a.try_unify(&b, here(), &mut ctx), Err(SpanKind::Nowhere));
    // the first pair was done before the second failed; the third was never reached
    assert_eq!(
        ctx.binding_of(first),
        TypeBinding::Bound(integer(
            IsConst::No(Some(here())),
            FieldElementType::Private,
            Signedness::Unsigned,
            8
        ))
    );
    assert_eq!(ctx.binding_of(second), TypeBinding::Unbound(second));
}

#[test]
fn unifying_a_variable_with_an_integer_binds_it() {
    let mut ctx = TypeContext::new();
    let var = ctx.new_type_variable();
    let lit = Type::PolymorphicInteger(IsConst::No(None), var);
    let target = integer(IsConst::No(None), FieldElementType::Public, Signedness::Unsigned, 8);
    assert_eq!(lit.try_unify(&target, here(), &mut ctx), Ok(()));
    assert_eq!(
        ctx.binding_of(var),
        TypeBinding::Bound(integer(
            IsConst::No(Some(here())),
            FieldElementType::Public,
            Signedness::Unsigned,
            8
        ))
    );
    // what it was bound to governs what follows
    let wider = integer(IsConst::No(None), FieldElementType::Public, Signedness::Unsigned, 16);
    let later = Span::new(30, 40);
    assert_eq!(lit.try_unify(&wider, later, &mut ctx), target.try_unify(&wider, later, &mut ctx));
    assert_eq!(lit.try_unify(&wider, later, &mut ctx), Err(SpanKind::Nowhere));
    assert_eq!(wider.try_unify(&lit, later, &mut ctx), Err(SpanKind::Nowhere));
    assert_eq!(lit.try_unify(&target, later, &mut ctx), Ok(()));
    assert_eq!(
        ctx.binding_of(var),
        TypeBinding::Bound(integer(
            IsConst::No(Some(here())),
            FieldElementType::Public,
            Signedness::Unsigned,
            8
        ))
    );
}

#[test]
fn a_variable_on_the_right_is_bound_as_well() {
    let mut ctx = TypeContext::new();
    let var = ctx.new_type_variable();
    let lit = Type::PolymorphicInteger(IsConst::No(None), var);
    assert_eq!(Type::witness(None).try_unify(&lit, here(), &mut ctx), Ok(()));
    assert_eq!(
        ctx.binding_of(var),
        TypeBinding::Bound(Type::FieldElement(IsConst::No(Some(here())), FieldElementType::Private))
    );
}

#[test]
fn a_variable_unified_with_itself_stays_unbound() {
    let mut ctx = TypeContext::new();
    let var = ctx.new_type_variable();
    let a = Type::PolymorphicInteger(IsConst::No(None), var);
    let b = Type::PolymorphicInteger(IsConst::Yes(None), var);
    assert_eq!(a.try_unify(&a, here(), &mut ctx), Ok(()));
    assert_eq!(a.try_unify(&b, here(), &mut ctx), Ok(()));
    assert_eq!(a.is_subtype_of(&b, here(), &mut ctx), Ok(()));
    assert_eq!(ctx.binding_of(var), TypeBinding::Unbound(var));
    assert_eq!(a.try_bind_to_polymorphic_int(var, &IsConst::No(None), here(), &mut ctx), Ok(()));
    assert_eq!(ctx.binding_of(var), TypeBinding::Unbound(var));
}

#[test]
fn a_literal_assigned_to_u8_cannot_be_used_as_u16() {
    let mut ctx = TypeContext::new();
    let var = ctx.new_type_variable();
    let five = Type::PolymorphicInteger(IsConst::No(None), var);
    let declared = u(8);
    let at_assignment = Span::new(4, 9);
    assert_eq!(five.try_unify(&declared, at_assignment, &mut ctx), Ok(()));
    assert_eq!(
        ctx.binding_of(var),
        TypeBinding::Bound(integer(
            IsConst::No(Some(at_assignment)),
            FieldElementType::Private,
            Signedness::Unsigned,
            8
        ))
    );
    assert_eq!(five.try_unify(&u(16), Span::new(12, 13), &mut ctx), Err(SpanKind::Nowhere));
}

#[test]
fn only_numbers_can_be_bound_to_a_variable() {
    let mut ctx = TypeContext::new();
    let var = ctx.new_type_variable();
    let lit = Type::PolymorphicInteger(IsConst::No(None), var);
    for other in [Type::Bool, Type::Unit, Type::Tuple(vec![]), array(ArraySize::Fixed(1), u(8))] {
        assert_eq!(lit.try_unify(&other, here(), &mut ctx), Err(SpanKind::Nowhere));
        assert_eq!(other.try_unify(&lit, here(), &mut ctx), Err(SpanKind::Nowhere));
        assert_eq!(
            other.try_bind_to_polymorphic_int(var, &IsConst::No(None), here(), &mut ctx),
            Err(SpanKind::Nowhere)
        );
    }
    assert_eq!(ctx.binding_of(var), TypeBinding::Unbound(var));
}

#[test]
fn binding_a_variable_to_another_links_them() {
    let mut ctx = TypeContext::new();
    let first = ctx.new_type_variable();
    let second = ctx.new_type_variable();
    let a = Type::PolymorphicInteger(IsConst::No(None), first);
    let b = Type::PolymorphicInteger(IsConst::No(None), second);
    assert_eq!(a.try_unify(&b, here(), &mut ctx), Ok(()));
    assert_eq!(
        ctx.binding_of(first),
        TypeBinding::Bound(Type::PolymorphicInteger(IsConst::No(Some(here())), second))
    );
    assert_eq!(ctx.binding_of(second), TypeBinding::Unbound(second));
    // unifying the other way round finds the same variable at the end and binds nothing
    assert_eq!(b.try_unify(&a, here(), &mut ctx), Ok(()));
    assert_eq!(ctx.binding_of(second), TypeBinding::Unbound(second));
    // binding the end binds both
    let later = Span::new(30, 40);
    assert_eq!(a.try_unify(&u(8), later, &mut ctx), Ok(()));
    assert_eq!(
        ctx.binding_of(second),
        TypeBinding::Bound(integer(IsConst::No(Some(later)), FieldElementType::Private, Signedness::Unsigned, 8))
    );
    assert_eq!(b.try_unify(&u(16), later, &mut ctx), Err(SpanKind::Nowhere));
    assert_eq!(a.try_unify(&u(16), later, &mut ctx), Err(SpanKind::Nowhere));
}

#[test]
fn binding_unifies_the_constness_of_the_variable_with_that_of_the_type() {
    let mut ctx = TypeContext::new();
    let var = ctx.new_type_variable();
    let at = Span::new(1, 2);
    let lit = Type::PolymorphicInteger(IsConst::Yes(Some(at)), var);
    // the binding is made, and then the constnesses clash
    assert_eq!(lit.try_unify(&u(8), here(), &mut ctx), Err(SpanKind::Const(at)));
    assert_eq!(
        ctx.binding_of(var),
        TypeBinding::Bound(integer(IsConst::No(Some(here())), FieldElementType::Private, Signedness::Unsigned, 8))
    );
}

#[test]
fn binding_settles_a_pending_constness_of_the_variable() {
    let mut ctx = TypeContext::new();
    let pending = ctx.new_constness();
    let var = ctx.new_type_variable();
    let lit = Type::PolymorphicInteger(pending, var);
    assert_eq!(lit.try_unify(&Type::constant(None), here(), &mut ctx), Ok(()));
    assert_eq!(ctx.constness_of(TypeVariableId(0)), Some(IsConst::Yes(Some(here()))));
    assert!(lit.is_const(&ctx));
}

#[test]
fn subtyping_keeps_the_sides_when_it_follows_a_bound_variable() {
    let mut ctx = TypeContext::new();
    let var = ctx.new_type_variable();
    let lit = Type::PolymorphicInteger(IsConst::Yes(None), var);
    assert_eq!(lit.is_subtype_of(&Type::constant(None), here(), &mut ctx), Ok(()));
    let at = Span::new(1, 2);
    // the variable is const now: it fits a non-const field, and a non-const field does not fit it
    assert_eq!(lit.is_subtype_of(&Type::witness(Some(at)), here(), &mut ctx), Ok(()));
    assert_eq!(
        Type::witness(Some(at)).is_subtype_of(&lit, here(), &mut ctx),
        Err(SpanKind::NonConst(at))
    );
}

#[test]
fn is_const_of_types() {
    let mut ctx = TypeContext::new();
    let var = ctx.new_type_variable();
    assert!(Type::constant(None).is_const(&ctx));
    assert!(!Type::witness(None).is_const(&ctx));
    assert!(!Type::Bool.is_const(&ctx));
    assert!(!array(ArraySize::Fixed(2), Type::constant(None)).is_const(&ctx));
    let lit = Type::PolymorphicInteger(IsConst::Yes(None), var);
    assert!(lit.is_const(&ctx));
    assert_eq!(u(8).try_bind_to_polymorphic_int(var, &IsConst::No(None), here(), &mut ctx), Ok(()));
    // once bound, the type in the cell decides
    assert!(!lit.is_const(&ctx));
}

#[test]
fn set_const_span_stamps_a_number() {
    let mut ctx = TypeContext::new();
    let mut ty = Type::constant(None);
    ty.set_const_span(here(), &mut ctx);
    assert_eq!(ty, Type::constant(Some(here())));
    let mut ty = u(8);
    ty.set_const_span(here(), &mut ctx);
    assert_eq!(ty, integer(IsConst::No(Some(here())), FieldElementType::Private, Signedness::Unsigned, 8));
    let mut ty = Type::Bool;
    ty.set_const_span(here(), &mut ctx);
    assert_eq!(ty, Type::Bool);
}

#[test]
fn set_const_span_on_a_bound_variable_stamps_what_it_is_bound_to() {
    let mut ctx = TypeContext::new();
    let var = ctx.new_type_variable();
    let mut lit = Type::PolymorphicInteger(IsConst::No(None), var);
    assert_eq!(lit.try_unify(&u(8), Span::new(1, 2), &mut ctx), Ok(()));
    lit.set_const_span(here(), &mut ctx);
    assert_eq!(lit, Type::PolymorphicInteger(IsConst::No(None), var));
    assert_eq!(
        ctx.binding_of(var),
        TypeBinding::Bound(integer(IsConst::No(Some(here())), FieldElementType::Private, Signedness::Unsigned, 8))
    );
    let free = ctx.new_type_variable();
    let mut other = Type::PolymorphicInteger(IsConst::Yes(None), free);
    other.set_const_span(here(), &mut ctx);
    assert_eq!(other, Type::PolymorphicInteger(IsConst::Yes(Some(here())), free));
    assert_eq!(ctx.binding_of(free), TypeBinding::Unbound(free));
}

#[test]
fn is_specified_looks_inside() {
    assert!(u(8).is_specified());
    assert!(!Type::Unspecified.is_specified());
    assert!(!array(ArraySize::Fixed(1), Type::Unspecified).is_specified());
    assert!(!Type::Tuple(vec![u(8), Type::Unspecified]).is_specified());
    assert!(Type::Tuple(vec![u(8), Type::Error]).is_specified());
}

#[test]
fn covers_checks_every_name() {
    let mut ctx = TypeContext::new();
    let var = ctx.new_type_variable();
    let c = ctx.new_constness();
    assert!(ctx.covers(&Type::PolymorphicInteger(c, var)));
    assert!(!ctx.covers(&Type::PolymorphicInteger(c, TypeVariableId(1))));
    assert!(!ctx.covers(&Type::FieldElement(IsConst::Maybe(TypeVariableId(1)), FieldElementType::Private)));
    assert!(!ctx.covers(&Type::Struct(FieldElementType::Private, StructId(0))));
    assert!(!ctx.covers(&Type::Tuple(vec![Type::Bool, Type::Struct(FieldElementType::Private, StructId(0))])));
    assert!(ctx.covers(&array(ArraySize::Variable, Type::PolymorphicInteger(c, var))));
    assert!(ctx.holds(&c));
    assert!(!ctx.holds(&IsConst::Maybe(TypeVariableId(5))));
}

#[test]
fn cloning_a_type_copies_it() {
    let ty = Type::Tuple(vec![u(8), array(ArraySize::Fixed(2), Type::Bool), Type::Tuple(vec![Type::Unit])]);
    assert_eq!(ty.clone(), ty);
    let binding = TypeBinding::Bound(ty.clone());
    assert_eq!(binding.clone(), binding);
}

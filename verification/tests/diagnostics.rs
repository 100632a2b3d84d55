use noirc_types::basics::FieldElementType;
use noirc_types::basics::Signedness;
use noirc_types::basics::Span;
use noirc_types::constness::IsConst;
use noirc_types::constness::SpanKind;
use noirc_types::context::TypeContext;
use noirc_types::errors::secondary_error;
use noirc_types::errors::TypeCheckError;
use noirc_types::types::Type;
use noirc_types::types::TypeBinding;

fn here() -> Span {
    Span::new(10, 20)
}

fn mismatch(expected: &str, found: &str) -> TypeCheckError {
    TypeCheckError::TypeMismatch {
        expected_typ: expected.to_string(),
        expr_typ: found.to_string(),
        expr_span: here(),
    }
}

fn u(bits: u32) -> Type {
    Type::Integer(IsConst::No(None), FieldElementType::Private, Signedness::Unsigned, bits)
}

const NON_CONST_NOTE: &str =
    "The value is non-const because of this expression, which uses another non-const value";
const CONST_NOTE: &str =
    "The value is const because of this expression, which forces the value to be const";

#[test]
fn a_successful_unification_reports_nothing() {
    let mut ctx = TypeContext::new();
    let mut errors = vec![mismatch("kept", "kept")];
    u(8).unify(&u(8), here(), &mut ctx, &mut errors, || mismatch("u8", "u8"));
    assert_eq!(errors, vec![mismatch("kept", "kept")]);
    Type::constant(None).make_subtype_of(&Type::witness(None), here(), &mut ctx, &mut errors, || {
        mismatch("Field", "const Field")
    });
    assert_eq!(errors, vec![mismatch("kept", "kept")]);
}

#[test]
fn the_primary_error_is_only_built_on_failure() {
    let mut ctx = TypeContext::new();
    let mut errors = Vec::new();
    u(8).unify(&u(8), here(), &mut ctx, &mut errors, || panic!("must not be called"));
    assert!(errors.is_empty());
}

#[test]
fn a_shape_mismatch_reports_the_primary_error_alone() {
    let mut ctx = TypeContext::new();
    let mut errors = vec![mismatch("kept", "kept")];
    u(8).unify(&u(16), here(), &mut ctx, &mut errors, || mismatch("u16", "u8"));
    assert_eq!(errors, vec![mismatch("kept", "kept"), mismatch("u16", "u8")]);
}

#[test]
fn a_const_expectation_met_by_a_non_const_origin_adds_a_note() {
    let mut ctx = TypeContext::new();
    let mut errors = Vec::new();
    let origin = Span::new(1, 2);
    Type::witness(Some(origin)).unify(&Type::constant(None), here(), &mut ctx, &mut errors, || {
        mismatch("const Field", "Field")
    });
    assert_eq!(
        errors,
        vec![
            mismatch("const Field", "Field"),
            TypeCheckError::Unstructured { msg: NON_CONST_NOTE.to_string(), span: origin },
        ]
    );
}

#[test]
fn a_non_const_expectation_met_by_a_const_origin_adds_a_note() {
    let mut ctx = TypeContext::new();
    let mut errors = Vec::new();
    let origin = Span::new(1, 2);
    Type::constant(Some(origin)).unify(&Type::witness(None), here(), &mut ctx, &mut errors, || {
        mismatch("Field", "const Field")
    });
    assert_eq!(
        errors,
        vec![
            mismatch("Field", "const Field"),
            TypeCheckError::Unstructured { msg: CONST_NOTE.to_string(), span: origin },
        ]
    );
}

#[test]
fn no_note_where_the_origin_agrees_with_the_expectation() {
    let mut ctx = TypeContext::new();
    let mut errors = Vec::new();
    let origin = Span::new(1, 2);
    // expected is non-const, and the clash is blamed on a non-const place
    Type::constant(None).unify(&Type::witness(Some(origin)), here(), &mut ctx, &mut errors, || {
        mismatch("Field", "const Field")
    });
    assert_eq!(errors, vec![mismatch("Field", "const Field")]);
}

#[test]
fn subtyping_reports_as_unification_does() {
    let mut ctx = TypeContext::new();
    let mut errors = Vec::new();
    let origin = Span::new(1, 2);
    Type::witness(Some(origin)).make_subtype_of(
        &Type::constant(None),
        here(),
        &mut ctx,
        &mut errors,
        || mismatch("const Field", "Field"),
    );
    assert_eq!(
        errors,
        vec![
            mismatch("const Field", "Field"),
            TypeCheckError::Unstructured { msg: NON_CONST_NOTE.to_string(), span: origin },
        ]
    );
    u(8).make_subtype_of(&Type::Bool, here(), &mut ctx, &mut errors, || mismatch("bool", "u8"));
    assert_eq!(errors.len(), 3);
    assert_eq!(errors[2], mismatch("bool", "u8"));
}

#[test]
fn the_expectation_is_read_after_the_bindings_were_made() {
    let mut ctx = TypeContext::new();
    let var = ctx.new_type_variable();
    let origin = Span::new(1, 2);
    // the expected type is a variable that counts as const while unbound;
    // unification binds it to a non-const field, and then the constnesses clash
    let expected = Type::PolymorphicInteger(IsConst::Yes(Some(origin)), var);
    let mut errors = Vec::new();
    Type::witness(None).unify(&expected, here(), &mut ctx, &mut errors, || mismatch("Field", "Field"));
    assert_eq!(
        ctx.binding_of(var),
        TypeBinding::Bound(Type::FieldElement(IsConst::No(Some(here())), FieldElementType::Private))
    );
    assert_eq!(
        errors,
        vec![
            mismatch("Field", "Field"),
            TypeCheckError::Unstructured { msg: CONST_NOTE.to_string(), span: origin },
        ]
    );
}

#[test]
fn which_note_goes_with_which_failure() {
    let at = Span::new(3, 4);
    assert_eq!(
        secondary_error(true, SpanKind::NonConst(at)),
        Some(TypeCheckError::Unstructured { msg: NON_CONST_NOTE.to_string(), span: at })
    );
    assert_eq!(
        secondary_error(false, SpanKind::Const(at)),
        Some(TypeCheckError::Unstructured { msg: CONST_NOTE.to_string(), span: at })
    );
    assert_eq!(secondary_error(true, SpanKind::Const(at)), None);
    assert_eq!(secondary_error(false, SpanKind::NonConst(at)), None);
    assert_eq!(secondary_error(true, SpanKind::Nowhere), None);
    assert_eq!(secondary_error(false, SpanKind::Nowhere), None);
}

#[test]
fn errors_can_be_cloned() {
    let error = mismatch("a", "b");
    assert_eq!(error.clone(), error);
    let note = TypeCheckError::Unstructured { msg: "m".to_string(), span: here() };
    assert_eq!(note.clone(), note);
}

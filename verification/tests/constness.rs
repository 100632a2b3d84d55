use noirc_types::basics::Span;
use noirc_types::basics::TypeVariableId;
use noirc_types::constness::IsConst;
use noirc_types::constness::SpanKind;
use noirc_types::context::TypeContext;

fn here() -> Span {
    Span::new(10, 20)
}

#[test]
fn yes_unifies_with_yes_and_no_with_no() {
    let mut ctx = TypeContext::new();
    assert_eq!(IsConst::Yes(None).unify(&IsConst::Yes(Some(here())), here(), &mut ctx), Ok(()));
    assert_eq!(IsConst::No(None).unify(&IsConst::No(None), here(), &mut ctx), Ok(()));
}

#[test]
fn yes_and_no_do_not_unify_in_either_order() {
    let mut ctx = TypeContext::new();
    let yes = IsConst::Yes(None);
    let no = IsConst::No(None);
    assert_eq!(yes.unify(&no, here(), &mut ctx), Err(SpanKind::Nowhere));
    assert_eq!(no.unify(&yes, here(), &mut ctx), Err(SpanKind::Nowhere));
}

#[test]
fn a_clash_names_the_non_const_origin_first() {
    let mut ctx = TypeContext::new();
    let at_yes = Span::new(1, 2);
    let at_no = Span::new(3, 4);
    let yes = IsConst::Yes(Some(at_yes));
    let no = IsConst::No(Some(at_no));
    assert_eq!(yes.unify(&no, here(), &mut ctx), Err(SpanKind::NonConst(at_no)));
    assert_eq!(no.unify(&yes, here(), &mut ctx), Err(SpanKind::NonConst(at_no)));
    assert_eq!(yes.unify(&IsConst::No(None), here(), &mut ctx), Err(SpanKind::Const(at_yes)));
    assert_eq!(IsConst::No(None).unify(&yes, here(), &mut ctx), Err(SpanKind::Const(at_yes)));
}

#[test]
fn yes_is_a_subtype_of_no_but_not_the_reverse() {
    let mut ctx = TypeContext::new();
    let at_no = Span::new(3, 4);
    let yes = IsConst::Yes(None);
    let no = IsConst::No(Some(at_no));
    assert_eq!(yes.is_subtype_of(&no, here(), &mut ctx), Ok(()));
    assert_eq!(no.is_subtype_of(&yes, here(), &mut ctx), Err(SpanKind::NonConst(at_no)));
    assert_eq!(yes.is_subtype_of(&yes, here(), &mut ctx), Ok(()));
    assert_eq!(no.is_subtype_of(&no, here(), &mut ctx), Ok(()));
    assert_eq!(
        IsConst::No(None).is_subtype_of(&IsConst::Yes(None), here(), &mut ctx),
        Err(SpanKind::Nowhere)
    );
}

#[test]
fn a_fresh_variable_names_the_next_cell() {
    let mut ctx = TypeContext::new();
    assert_eq!(ctx.new_constness(), IsConst::Maybe(TypeVariableId(0)));
    assert_eq!(ctx.new_constness(), IsConst::Maybe(TypeVariableId(1)));
    assert_eq!(ctx.constness_count(), 2);
    assert_eq!(ctx.constness_of(TypeVariableId(0)), None);
}

#[test]
fn a_pending_variable_takes_the_other_side_stamped() {
    let mut ctx = TypeContext::new();
    let pending = ctx.new_constness();
    assert_eq!(pending.unify(&IsConst::No(None), here(), &mut ctx), Ok(()));
    assert_eq!(ctx.constness_of(TypeVariableId(0)), Some(IsConst::No(Some(here()))));
    // the fact is now settled, and governs what follows
    assert_eq!(
        pending.unify(&IsConst::Yes(None), Span::new(7, 8), &mut ctx),
        Err(SpanKind::NonConst(here()))
    );
    assert_eq!(ctx.constness_of(TypeVariableId(0)), Some(IsConst::No(Some(here()))));
}

#[test]
fn a_pending_variable_on_the_right_takes_the_left_side() {
    let mut ctx = TypeContext::new();
    let pending = ctx.new_constness();
    assert_eq!(IsConst::Yes(None).unify(&pending, here(), &mut ctx), Ok(()));
    assert_eq!(ctx.constness_of(TypeVariableId(0)), Some(IsConst::Yes(Some(here()))));
    assert_eq!(ctx.resolve(pending), IsConst::Yes(Some(here())));
}

#[test]
fn the_same_variable_agrees_with_itself() {
    let mut ctx = TypeContext::new();
    let pending = ctx.new_constness();
    assert_eq!(pending.unify(&pending, here(), &mut ctx), Ok(()));
    assert_eq!(pending.is_subtype_of(&pending, here(), &mut ctx), Ok(()));
    assert_eq!(ctx.constness_of(TypeVariableId(0)), None);
}

#[test]
fn two_variables_are_linked_and_then_share_their_fact() {
    let mut ctx = TypeContext::new();
    let a = ctx.new_constness();
    let b = ctx.new_constness();
    assert_eq!(a.unify(&b, here(), &mut ctx), Ok(()));
    assert_eq!(ctx.constness_of(TypeVariableId(0)), Some(b));
    assert_eq!(ctx.constness_of(TypeVariableId(1)), None);
    assert_eq!(ctx.last_cell(TypeVariableId(0)), TypeVariableId(1));
    assert_eq!(ctx.resolve(a), b);
    // settling one settles the other
    let later = Span::new(30, 40);
    assert_eq!(a.unify(&IsConst::No(None), later, &mut ctx), Ok(()));
    assert_eq!(ctx.constness_of(TypeVariableId(1)), Some(IsConst::No(Some(later))));
    assert!(!a.is_const(&ctx));
    assert!(!b.is_const(&ctx));
}

#[test]
fn linking_back_makes_no_cycle() {
    let mut ctx = TypeContext::new();
    let a = ctx.new_constness();
    let b = ctx.new_constness();
    assert_eq!(a.unify(&b, here(), &mut ctx), Ok(()));
    // b is the end of the chain of a: the two already stand for one fact
    assert_eq!(b.unify(&a, here(), &mut ctx), Ok(()));
    assert_eq!(ctx.constness_of(TypeVariableId(1)), None);
    assert_eq!(b.is_subtype_of(&a, here(), &mut ctx), Ok(()));
    assert_eq!(ctx.constness_of(TypeVariableId(1)), None);
    assert_eq!(b.and(&a, here(), &mut ctx), a);
    assert_eq!(ctx.constness_of(TypeVariableId(1)), None);
    assert!(a.is_const(&ctx));
}

#[test]
fn subtyping_binds_a_pending_variable_on_either_side() {
    let mut ctx = TypeContext::new();
    let a = ctx.new_constness();
    let b = ctx.new_constness();
    assert_eq!(a.is_subtype_of(&IsConst::Yes(None), here(), &mut ctx), Ok(()));
    assert_eq!(ctx.constness_of(TypeVariableId(0)), Some(IsConst::Yes(Some(here()))));
    assert_eq!(IsConst::No(None).is_subtype_of(&b, here(), &mut ctx), Ok(()));
    assert_eq!(ctx.constness_of(TypeVariableId(1)), Some(IsConst::No(Some(here()))));
    // a is Yes, b is No: a fits b, b does not fit a
    assert_eq!(a.is_subtype_of(&b, here(), &mut ctx), Ok(()));
    assert_eq!(b.is_subtype_of(&a, here(), &mut ctx), Err(SpanKind::NonConst(here())));
}

#[test]
fn and_is_yes_only_if_both_are() {
    let mut ctx = TypeContext::new();
    let yes = IsConst::Yes(None);
    let no = IsConst::No(Some(Span::new(1, 2)));
    assert_eq!(yes.and(&yes, here(), &mut ctx), IsConst::Yes(Some(here())));
    assert_eq!(yes.and(&no, here(), &mut ctx), IsConst::No(Some(here())));
    assert_eq!(no.and(&yes, here(), &mut ctx), IsConst::No(Some(here())));
    assert_eq!(no.and(&no, here(), &mut ctx), IsConst::No(Some(here())));
}

#[test]
fn and_of_two_pending_variables_links_them_and_returns_the_right_one() {
    let mut ctx = TypeContext::new();
    let a = ctx.new_constness();
    let b = ctx.new_constness();
    assert_eq!(a.and(&b, here(), &mut ctx), b);
    assert_eq!(ctx.constness_of(TypeVariableId(0)), Some(b));
    assert_eq!(ctx.constness_of(TypeVariableId(1)), None);
    assert_eq!(a.and(&a, here(), &mut ctx), a);
}

#[test]
fn and_with_a_pending_variable_settles_it_and_returns_the_other() {
    let mut ctx = TypeContext::new();
    let a = ctx.new_constness();
    let b = ctx.new_constness();
    let no = IsConst::No(Some(Span::new(1, 2)));
    assert_eq!(a.and(&no, here(), &mut ctx), no);
    assert_eq!(ctx.constness_of(TypeVariableId(0)), Some(IsConst::No(Some(here()))));
    let yes = IsConst::Yes(None);
    assert_eq!(yes.and(&b, here(), &mut ctx), yes);
    assert_eq!(ctx.constness_of(TypeVariableId(1)), Some(IsConst::Yes(Some(here()))));
    // both settled now: the conjunction is computed from what they were settled to
    assert_eq!(a.and(&b, Span::new(5, 6), &mut ctx), IsConst::No(Some(Span::new(5, 6))));
    assert_eq!(b.and(&b, Span::new(5, 6), &mut ctx), b);
}

#[test]
fn is_const_follows_the_chain_and_takes_pending_for_const() {
    let mut ctx = TypeContext::new();
    let a = ctx.new_constness();
    assert!(IsConst::Yes(None).is_const(&ctx));
    assert!(!IsConst::No(None).is_const(&ctx));
    assert!(a.is_const(&ctx));
    assert_eq!(a.unify(&IsConst::No(None), here(), &mut ctx), Ok(()));
    assert!(!a.is_const(&ctx));
}

#[test]
fn set_span_changes_the_origin_and_not_the_fact() {
    let mut ctx = TypeContext::new();
    let mut yes = IsConst::Yes(None);
    yes.set_span(here(), &mut ctx);
    assert_eq!(yes, IsConst::Yes(Some(here())));
    let mut no = IsConst::No(Some(Span::new(1, 2)));
    no.set_span(here(), &mut ctx);
    assert_eq!(no, IsConst::No(Some(here())));
}

#[test]
fn set_span_on_a_variable_reaches_the_end_of_its_chain() {
    let mut ctx = TypeContext::new();
    let a = ctx.new_constness();
    let b = ctx.new_constness();
    let mut pending = a;
    pending.set_span(here(), &mut ctx);
    assert_eq!(pending, a);
    assert_eq!(ctx.constness_of(TypeVariableId(0)), None);
    assert_eq!(a.unify(&b, Span::new(1, 2), &mut ctx), Ok(()));
    assert_eq!(b.unify(&IsConst::Yes(None), Span::new(3, 4), &mut ctx), Ok(()));
    pending.set_span(here(), &mut ctx);
    assert_eq!(ctx.constness_of(TypeVariableId(0)), Some(b));
    assert_eq!(ctx.constness_of(TypeVariableId(1)), Some(IsConst::Yes(Some(here()))));
}

#[test]
fn binding_to_a_settled_variable_stamps_what_it_was_settled_to() {
    let mut ctx = TypeContext::new();
    let a = ctx.new_constness();
    let b = ctx.new_constness();
    assert_eq!(b.unify(&IsConst::No(None), Span::new(1, 2), &mut ctx), Ok(()));
    assert_eq!(a.unify(&b, here(), &mut ctx), Ok(()));
    assert_eq!(ctx.constness_of(TypeVariableId(0)), Some(b));
    assert_eq!(ctx.constness_of(TypeVariableId(1)), Some(IsConst::No(Some(here()))));
}

#[test]
fn with_span_leaves_a_variable_as_it_is() {
    let var = IsConst::Maybe(TypeVariableId(3));
    assert_eq!(var.with_span(here()), var);
    assert_eq!(IsConst::Yes(None).with_span(here()), IsConst::Yes(Some(here())));
}

#[test]
fn and_returns_the_right_variable_where_the_left_chain_goes_through_it() {
    let mut ctx = TypeContext::new();
    let a = ctx.new_constness();
    let b = ctx.new_constness();
    assert_eq!(a.unify(&b, here(), &mut ctx), Ok(()));
    assert_eq!(b.unify(&IsConst::Yes(None), Span::new(1, 2), &mut ctx), Ok(()));
    // the chain of a goes through b, so b itself comes back, not a fresh Yes
    assert_eq!(a.and(&b, here(), &mut ctx), b);
    // the other way round both chains are followed to their ends
    assert_eq!(b.and(&a, here(), &mut ctx), IsConst::Yes(Some(here())));
    assert_eq!(ctx.constness_of(TypeVariableId(1)), Some(IsConst::Yes(Some(Span::new(1, 2)))));
}

#[test]
fn and_settles_a_pending_right_side_with_the_end_of_the_left_chain() {
    let mut ctx = TypeContext::new();
    let a = ctx.new_constness();
    let b = ctx.new_constness();
    let origin = Span::new(1, 2);
    assert_eq!(a.unify(&IsConst::No(None), origin, &mut ctx), Ok(()));
    // the result is what the left chain ended in, as it was recorded there
    assert_eq!(a.and(&b, here(), &mut ctx), IsConst::No(Some(origin)));
    assert_eq!(ctx.constness_of(TypeVariableId(1)), Some(IsConst::No(Some(here()))));
}

#[test]
fn unifying_through_a_chain_settles_its_last_cell() {
    let mut ctx = TypeContext::new();
    let a = ctx.new_constness();
    let b = ctx.new_constness();
    let c = ctx.new_constness();
    assert_eq!(a.unify(&b, here(), &mut ctx), Ok(()));
    assert_eq!(b.unify(&c, here(), &mut ctx), Ok(()));
    assert_eq!(ctx.last_cell(TypeVariableId(0)), TypeVariableId(2));
    assert_eq!(IsConst::No(None).is_subtype_of(&a, Span::new(5, 6), &mut ctx), Ok(()));
    assert_eq!(ctx.constness_of(TypeVariableId(0)), Some(b));
    assert_eq!(ctx.constness_of(TypeVariableId(1)), Some(c));
    assert_eq!(ctx.constness_of(TypeVariableId(2)), Some(IsConst::No(Some(Span::new(5, 6)))));
    assert_eq!(ctx.resolve(a), IsConst::No(Some(Span::new(5, 6))));
}

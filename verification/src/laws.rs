//! What holds of unification and subtyping on every input.

use vstd::prelude::*;
use crate::basics::ArraySize;
use crate::basics::FieldElementType;
use crate::basics::Signedness;
use crate::basics::Span;
use crate::basics::StructId;
use crate::basics::TypeVariableId;
use crate::constness::IsConst;
use crate::constness::SpanKind;
use crate::context::ContextView;
use crate::types::BindingView;
use crate::types::TypeView;
use crate::unify::Relation;

verus! {

impl TypeView {
    /// This type is not an array and not a tuple: it has no types inside it.
    pub open spec fn flat(self) -> bool {
        !(self is Array) && !(self is Tuple)
    }
}

impl ContextView {
    /// The type at the end of the chain of bound variables that starts at
    /// `ty`: `ty` itself unless it is a bound variable.
    spec fn end_of(self, ty: TypeView) -> TypeView
        decreases self.type_depth(ty),
        when self.wf() && self.covers(ty)
    {
        match ty {
            TypeView::PolymorphicInteger(c, var) => match self.bindings[var.0 as int] {
                BindingView::Bound(inner) => {
                    proof {
                        self.lemma_type_depth_step(c, var);
                    }
                    self.end_of(inner)
                },
                BindingView::Unbound(_) => ty,
            },
            _ => ty,
        }
    }

    /// A constness agrees with itself, and nothing changes.
    pub proof fn constness_is_reflexive(self, rel: Relation, c: IsConst, span: Span)
        requires
            self.wf(),
            self.holds(c),
        ensures
            self.relate_constness(rel, c, c, span) == (self, Ok::<(), SpanKind>(())),
    {
        self.lemma_resolve_end(c);
    }

    /// A `Yes` is accepted where a `No` is expected, and a `No` is refused
    /// where a `Yes` is expected; unification refuses the two in either
    /// order. A refusal names the origin of the `No` if it has one, else
    /// that of the `Yes`. None of these changes the context.
    pub proof fn constness_is_asymmetric(self, yes: Option<Span>, no: Option<Span>, span: Span)
        requires
            self.wf(),
        ensures
            self.accept_constness(IsConst::Yes(yes), IsConst::No(no), span) == (
                self,
                Ok::<(), SpanKind>(()),
            ),
            self.accept_constness(IsConst::No(no), IsConst::Yes(yes), span) == (
                self,
                Err::<(), SpanKind>(IsConst::clash(yes, no)),
            ),
            self.unify_constness(IsConst::Yes(yes), IsConst::No(no), span) == (
                self,
                Err::<(), SpanKind>(IsConst::clash(yes, no)),
            ),
            self.unify_constness(IsConst::No(no), IsConst::Yes(yes), span) == (
                self,
                Err::<(), SpanKind>(IsConst::clash(yes, no)),
            ),
    {
    }

    /// Binding an unbound variable to a type whose chain ends at that
    /// variable changes nothing and succeeds.
    proof fn bind_to_own_end(self, ty: TypeView, var: TypeVariableId, c: IsConst, span: Span)
        requires
            self.wf(),
            self.covers(ty),
            self.has_variable(var),
            self.bindings[var.0 as int] is Unbound,
            self.end_of(ty) matches TypeView::PolymorphicInteger(_, end) && end == var,
        ensures
            self.try_bind(ty, var, c, span) == (self, Ok::<(), SpanKind>(())),
        decreases self.type_depth(ty),
    {
        if let TypeView::PolymorphicInteger(own_const, own) = ty {
            if let BindingView::Bound(inner) = self.bindings[own.0 as int] {
                self.lemma_type_depth_step(own_const, own);
                self.lemma_bindable_covers(inner);
                self.bind_to_own_end(inner, var, c, span);
            }
        }
    }

    /// Two types without types inside them, whose chains of bound variables
    /// end in the same type, pass for each other, and nothing changes.
    proof fn same_end_passes(self, rel: Relation, a: TypeView, b: TypeView, span: Span)
        requires
            self.wf(),
            self.covers(a),
            self.covers(b),
            a.flat(),
            b.flat(),
            a.specified(),
            b.specified(),
            self.end_of(a) == self.end_of(b),
        ensures
            self.relate_flat(rel, a, b, span) == (self, Ok::<(), SpanKind>(())),
        decreases self.type_depth(a) + self.type_depth(b), 1nat,
    {
        match (a, b) {
            (TypeView::Error, _) => {},
            (_, TypeView::Error) => {},
            (TypeView::PolymorphicInteger(c, var), _) => {
                match self.bindings[var.0 as int] {
                    BindingView::Bound(link) => {
                        self.lemma_type_depth_step(c, var);
                        self.lemma_bindable_covers(link);
                        self.same_end_passes(rel, link, b, span);
                    },
                    BindingView::Unbound(_) => {
                        self.bind_to_own_end(b, var, c, span);
                    },
                }
            },
            (_, TypeView::PolymorphicInteger(c, var)) => {
                match self.bindings[var.0 as int] {
                    BindingView::Bound(link) => {
                        self.lemma_type_depth_step(c, var);
                        self.lemma_bindable_covers(link);
                        if rel is Unify {
                            self.same_end_passes(rel, link, a, span);
                        } else {
                            self.same_end_passes(rel, a, link, span);
                        }
                    },
                    BindingView::Unbound(_) => {},
                }
            },
            (TypeView::FieldElement(ca, _), TypeView::FieldElement(_, _)) => {
                self.constness_is_reflexive(rel, ca, span);
            },
            (TypeView::Integer(ca, _, _, _), TypeView::Integer(_, _, _, _)) => {
                self.constness_is_reflexive(rel, ca, span);
            },
            _ => {},
        }
    }

    /// Unification and subtyping are reflexive: a type passes for itself,
    /// and the context stays as it is. This holds of types with variables in
    /// them too: comparing a variable with itself binds nothing.
    pub proof fn relate_is_reflexive(self, rel: Relation, ty: TypeView, span: Span)
        requires
            self.wf(),
            self.covers(ty),
            ty.specified(),
        ensures
            self.relate(rel, ty, ty, span) == (self, Ok::<(), SpanKind>(())),
        decreases ty,
    {
        match ty {
            TypeView::Array(_, _, elem) => {
                self.relate_is_reflexive(rel, *elem, span);
            },
            TypeView::Tuple(elems) => {
                self.relate_all_is_reflexive(rel, elems, span);
            },
            _ => {
                self.same_end_passes(rel, ty, ty, span);
            },
        }
    }

    /// A list of types passes for itself pair by pair.
    proof fn relate_all_is_reflexive(self, rel: Relation, types: Seq<TypeView>, span: Span)
        requires
            self.wf(),
            self.covers_all(types),
            forall|i: int| 0 <= i < types.len() ==> (#[trigger] types[i]).specified(),
        ensures
            self.relate_all(rel, types, types, span) == (self, Ok::<(), SpanKind>(())),
        decreases types,
    {
        if types.len() > 0 {
            self.relate_is_reflexive(rel, types[0], span);
            let rest = types.drop_first();
            assert forall|i: int| 0 <= i < rest.len() implies self.covers(#[trigger] rest[i])
                && rest[i].specified() by {
                assert(rest[i] == types[i + 1]);
            }
            self.relate_all_is_reflexive(rel, rest, span);
        }
    }

    /// Comparing an unbound variable with itself succeeds and binds nothing,
    /// whatever constness stands beside it on either side.
    pub proof fn self_binding_is_a_no_op(
        self,
        rel: Relation,
        c1: IsConst,
        c2: IsConst,
        var: TypeVariableId,
        span: Span,
    )
        requires
            self.wf(),
            self.holds(c1),
            self.holds(c2),
            self.has_variable(var),
            self.bindings[var.0 as int] is Unbound,
        ensures
            self.relate(
                rel,
                TypeView::PolymorphicInteger(c1, var),
                TypeView::PolymorphicInteger(c2, var),
                span,
            ) == (self, Ok::<(), SpanKind>(())),
    {
    }

    /// Two integer types that differ in sign or in width never pass for each
    /// other, whatever their constness and visibility, and nothing changes.
    pub proof fn integer_shapes_must_match(
        self,
        rel: Relation,
        a: TypeView,
        b: TypeView,
        span: Span,
    )
        requires
            self.wf(),
            self.covers(a),
            self.covers(b),
            a matches TypeView::Integer(_, _, sign_a, bits_a) && b matches TypeView::Integer(
                _,
                _,
                sign_b,
                bits_b,
            ) && (sign_a != sign_b || bits_a != bits_b),
        ensures
            self.relate(rel, a, b, span) == (self, Err::<(), SpanKind>(SpanKind::Nowhere)),
    {
    }

    /// Two arrays whose sizes fit are compared by their element types alone;
    /// two arrays whose sizes do not fit never pass. For unification the sizes
    /// fit when they are the same. For subtyping a fixed length also fits an
    /// open one, and an open one does not fit a fixed length.
    pub proof fn arrays_compare_by_size_then_element(
        self,
        rel: Relation,
        vis_a: FieldElementType,
        size_a: ArraySize,
        elem_a: TypeView,
        vis_b: FieldElementType,
        size_b: ArraySize,
        elem_b: TypeView,
        span: Span,
    )
        ensures
            rel.sizes_fit(size_a, size_b) ==> self.relate(
                rel,
                TypeView::Array(vis_a, size_a, Box::new(elem_a)),
                TypeView::Array(vis_b, size_b, Box::new(elem_b)),
                span,
            ) == self.relate(rel, elem_a, elem_b, span),
            !rel.sizes_fit(size_a, size_b) ==> self.relate(
                rel,
                TypeView::Array(vis_a, size_a, Box::new(elem_a)),
                TypeView::Array(vis_b, size_b, Box::new(elem_b)),
                span,
            ) == (self, Err::<(), SpanKind>(SpanKind::Nowhere)),
            Relation::Unify.sizes_fit(size_a, size_b) <==> size_a == size_b,
            size_a is Fixed && size_b is Variable ==> Relation::Subtype.sizes_fit(size_a, size_b),
            size_a is Variable && size_b is Fixed ==> !Relation::Subtype.sizes_fit(size_a, size_b),
    {
    }

    /// Two struct types pass for each other exactly when they name the same
    /// definition. The fields of the definitions are not looked at, and
    /// nothing changes.
    pub proof fn structs_compare_by_identity(
        self,
        rel: Relation,
        vis_a: FieldElementType,
        id_a: StructId,
        vis_b: FieldElementType,
        id_b: StructId,
        span: Span,
    )
        requires
            self.wf(),
            self.has_struct(id_a),
            self.has_struct(id_b),
        ensures
            self.relate(rel, TypeView::Struct(vis_a, id_a), TypeView::Struct(vis_b, id_b), span)
                == (
                self,
                if id_a == id_b {
                    Ok::<(), SpanKind>(())
                } else {
                    Err::<(), SpanKind>(SpanKind::Nowhere)
                },
            ),
    {
    }

    /// Unifying an unbound variable with a field element or an integer binds
    /// the variable to that type, with `span` recorded as the origin of its
    /// constness, whichever side the variable stands on.
    pub proof fn unifying_binds_the_variable(
        self,
        var_const: IsConst,
        var: TypeVariableId,
        ty: TypeView,
        span: Span,
    )
        requires
            self.wf(),
            self.holds(var_const),
            self.has_variable(var),
            self.bindings[var.0 as int] is Unbound,
            self.covers(ty),
            ty is FieldElement || ty is Integer,
        ensures
            ({
                let c = match ty {
                    TypeView::FieldElement(c, _) => c,
                    TypeView::Integer(c, _, _, _) => c,
                    _ => var_const,
                };
                let bound = BindingView::Bound(ty.with_constness(c.stamped(span)));
                &&& self.unify(TypeView::PolymorphicInteger(var_const, var), ty, span).0.bindings
                    == self.bindings.update(var.0 as int, bound)
                &&& self.unify(ty, TypeView::PolymorphicInteger(var_const, var), span)
                    == self.unify(TypeView::PolymorphicInteger(var_const, var), ty, span)
            }),
    {
        let c = match ty {
            TypeView::FieldElement(c, _) => c,
            TypeView::Integer(c, _, _, _) => c,
            _ => var_const,
        };
        self.lemma_bind_variable(ty, c, var, var_const, span);
        self.lemma_stamp(c, span);
        let filled = self.stamp(c, span).with_binding(
            var,
            BindingView::Bound(ty.with_constness(c.stamped(span))),
        );
        filled.lemma_unify_constness(c, var_const, span);
    }

    /// What a variable is bound to governs every later comparison: against
    /// a type that is not itself a variable, a bound variable compares as the
    /// type in its cell does. Unification puts that type first, whichever
    /// side the variable stood on; subtyping keeps the sides.
    pub proof fn bound_value_governs(
        self,
        rel: Relation,
        c: IsConst,
        var: TypeVariableId,
        other: TypeView,
        span: Span,
    )
        requires
            self.wf(),
            self.holds(c),
            self.has_variable(var),
            self.bindings[var.0 as int] is Bound,
            self.covers(other),
            !(other is PolymorphicInteger),
        ensures
            ({
                let link = self.bindings[var.0 as int]->Bound_0;
                let variable = TypeView::PolymorphicInteger(c, var);
                &&& self.relate(rel, variable, other, span) == self.relate(rel, link, other, span)
                &&& rel is Unify ==> self.relate(rel, other, variable, span) == self.relate(
                    rel,
                    link,
                    other,
                    span,
                )
                &&& rel is Subtype ==> self.relate(rel, other, variable, span) == self.relate(
                    rel,
                    other,
                    link,
                    span,
                )
            }),
    {
        let link = self.bindings[var.0 as int]->Bound_0;
        self.lemma_type_depth_step(c, var);
        self.lemma_bindable_covers(link);
        reveal_with_fuel(ContextView::relate_flat, 2);
    }
}

} // verus!

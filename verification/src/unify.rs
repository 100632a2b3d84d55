//! Unification and subtyping of types.
//!
//! Both walk two types side by side. Where a type variable is met that is
//! already bound, the type it is bound to takes its place; where it is
//! unbound, the other side is bound to it. Bindings that were made stay,
//! whether or not the comparison succeeds in the end.

use vstd::prelude::*;
use crate::basics::ArraySize;
use crate::basics::Span;
use crate::basics::TypeVariableId;
use crate::constness::IsConst;
use crate::constness::SpanKind;
use crate::context::ContextView;
use crate::context::TypeContext;
use crate::errors::is_note;
use crate::errors::note_for;
use crate::errors::secondary_error;
use crate::errors::TypeCheckError;
use crate::types::BindingView;
use crate::types::Type;
use crate::types::TypeBinding;
use crate::types::TypeView;

verus! {

/// Which comparison is made: unification asks that the two types are the
/// same, subtyping that the first may stand where the second is expected.
#[derive(Clone, Copy, Debug, PartialEq, Eq, Structural)]
pub enum Relation {
    Unify,
    Subtype,
}

impl Relation {
    /// Whether an array of length `a` passes for one of length `b`: the
    /// lengths are the same, or, for subtyping, `b` leaves the length open.
    pub open spec fn sizes_fit(self, a: ArraySize, b: ArraySize) -> bool {
        match self {
            Relation::Unify => a == b,
            Relation::Subtype => a.fits(b),
        }
    }
}

impl TypeView {
    /// No part of this type is `Unspecified`.
    pub open spec fn specified(self) -> bool
        decreases self,
    {
        match self {
            TypeView::Unspecified => false,
            TypeView::Array(_, _, elem) => elem.specified(),
            TypeView::Tuple(elems) => forall|i: int|
                0 <= i < elems.len() ==> (#[trigger] elems[i]).specified(),
            _ => true,
        }
    }

    /// This type with `c` in place of its constness, where it has one.
    pub open spec fn with_constness(self, c: IsConst) -> TypeView {
        match self {
            TypeView::FieldElement(_, vis) => TypeView::FieldElement(c, vis),
            TypeView::Integer(_, vis, sign, bits) => TypeView::Integer(c, vis, sign, bits),
            TypeView::PolymorphicInteger(_, var) => TypeView::PolymorphicInteger(c, var),
            _ => self,
        }
    }
}

impl ContextView {
    /// Recording `span` as the origin of the constness of `ty`: the context
    /// afterwards, and `ty` afterwards.
    ///
    /// A field element or an integer has its own constness stamped. A bound
    /// variable passes the request on to the type in its cell; an unbound one
    /// has its own constness stamped. Other types have no constness.
    pub open spec fn set_const_span(self, ty: TypeView, span: Span) -> (ContextView, TypeView)
        decreases self.type_depth(ty),
        when self.wf() && self.covers(ty)
    {
        match ty {
            TypeView::FieldElement(c, _) => (self.stamp(c, span), ty.with_constness(c.stamped(span))),
            TypeView::Integer(c, _, _, _) => (self.stamp(c, span), ty.with_constness(c.stamped(span))),
            TypeView::PolymorphicInteger(c, var) => match self.bindings[var.0 as int] {
                BindingView::Bound(inner) => {
                    proof {
                        self.lemma_type_depth_step(c, var);
                    }
                    let (ctx, updated) = self.set_const_span(inner, span);
                    (ctx.with_binding(var, BindingView::Bound(updated)), ty)
                },
                BindingView::Unbound(_) => (
                    self.stamp(c, span),
                    ty.with_constness(c.stamped(span)),
                ),
            },
            _ => (self, ty),
        }
    }

    /// Binding the unbound variable `var`, whose own constness is
    /// `var_const`, to `ty`, whose constness is `c`: the origin `span` is
    /// recorded in `ty`, the cell of `var` is filled with it, and then `c` is
    /// unified with `var_const`.
    pub open spec fn bind_variable(
        self,
        ty: TypeView,
        c: IsConst,
        var: TypeVariableId,
        var_const: IsConst,
        span: Span,
    ) -> (ContextView, Result<(), SpanKind>) {
        self.stamp(c, span).with_binding(
            var,
            BindingView::Bound(ty.with_constness(c.stamped(span))),
        ).unify_constness(c, var_const, span)
    }

    /// Trying to bind the unbound variable `var` to `ty`.
    ///
    /// Only a field element or an integer can be bound, or a variable that
    /// stands for one: a bound variable is followed to the type in its cell,
    /// an unbound one is bound to as it is, unless it is `var` itself, which
    /// changes nothing. Any other type fails.
    pub open spec fn try_bind(
        self,
        ty: TypeView,
        var: TypeVariableId,
        var_const: IsConst,
        span: Span,
    ) -> (ContextView, Result<(), SpanKind>)
        decreases self.type_depth(ty),
        when self.wf() && self.covers(ty)
    {
        match ty {
            TypeView::FieldElement(c, _) => self.bind_variable(ty, c, var, var_const, span),
            TypeView::Integer(c, _, _, _) => self.bind_variable(ty, c, var, var_const, span),
            TypeView::PolymorphicInteger(c, own) => match self.bindings[own.0 as int] {
                BindingView::Bound(inner) => {
                    proof {
                        self.lemma_type_depth_step(c, own);
                    }
                    self.try_bind(inner, var, var_const, span)
                },
                BindingView::Unbound(_) => if own == var {
                    (self, Ok(()))
                } else {
                    self.bind_variable(ty, c, var, var_const, span)
                },
            },
            _ => (self, Err(SpanKind::Nowhere)),
        }
    }

    /// Comparing two constnesses under `rel`.
    pub open spec fn relate_constness(self, rel: Relation, a: IsConst, b: IsConst, span: Span) -> (
        ContextView,
        Result<(), SpanKind>,
    ) {
        match rel {
            Relation::Unify => self.unify_constness(a, b, span),
            Relation::Subtype => self.accept_constness(a, b, span),
        }
    }

    /// Comparing the variable `var`, whose constness is `c`, with `other`.
    /// `var_is_left` says on which side of the comparison the variable stood.
    ///
    /// A bound variable gives way to the type in its cell. Unification then
    /// compares that type with `other`, in this order; subtyping keeps the
    /// sides as they were. An unbound variable is bound to `other`.
    pub open spec fn relate_variable(
        self,
        rel: Relation,
        c: IsConst,
        var: TypeVariableId,
        other: TypeView,
        var_is_left: bool,
        span: Span,
    ) -> (ContextView, Result<(), SpanKind>)
        decreases
            self.type_depth(TypeView::PolymorphicInteger(c, var)) + self.type_depth(other),
            0nat,
        when self.wf() && self.has_variable(var) && self.covers(other)
    {
        match self.bindings[var.0 as int] {
            BindingView::Bound(link) => {
                proof {
                    self.lemma_type_depth_step(c, var);
                }
                if rel is Unify || var_is_left {
                    self.relate_flat(rel, link, other, span)
                } else {
                    self.relate_flat(rel, other, link, span)
                }
            },
            BindingView::Unbound(_) => self.try_bind(other, var, c, span),
        }
    }

    /// Comparing two types without looking inside arrays and tuples.
    ///
    /// `Error` passes for anything. Two structs are compared by the
    /// definition they name, two field elements by their constness, two
    /// integers by sign and width and then by their constness. `Bool` and
    /// `Unit` each pass for themselves, and everything else fails.
    pub open spec fn relate_flat(self, rel: Relation, a: TypeView, b: TypeView, span: Span) -> (
        ContextView,
        Result<(), SpanKind>,
    )
        decreases self.type_depth(a) + self.type_depth(b), 1nat,
        when self.wf() && self.covers(a) && self.covers(b)
    {
        match (a, b) {
            (TypeView::Error, _) => (self, Ok(())),
            (_, TypeView::Error) => (self, Ok(())),
            (TypeView::PolymorphicInteger(c, var), _) => self.relate_variable(
                rel,
                c,
                var,
                b,
                true,
                span,
            ),
            (_, TypeView::PolymorphicInteger(c, var)) => self.relate_variable(
                rel,
                c,
                var,
                a,
                false,
                span,
            ),
            (TypeView::Struct(_, id_a), TypeView::Struct(_, id_b)) => if id_a == id_b {
                (self, Ok(()))
            } else {
                (self, Err(SpanKind::Nowhere))
            },
            (TypeView::FieldElement(ca, _), TypeView::FieldElement(cb, _)) => self.relate_constness(
                rel,
                ca,
                cb,
                span,
            ),
            (
                TypeView::Integer(ca, _, sign_a, bits_a),
                TypeView::Integer(cb, _, sign_b, bits_b),
            ) => if sign_a == sign_b && bits_a == bits_b {
                self.relate_constness(rel, ca, cb, span)
            } else {
                (self, Err(SpanKind::Nowhere))
            },
            (TypeView::Bool, TypeView::Bool) => (self, Ok(())),
            (TypeView::Unit, TypeView::Unit) => (self, Ok(())),
            _ => (self, Err(SpanKind::Nowhere)),
        }
    }

    /// Comparing two types under `rel`: the context afterwards, and whether
    /// the comparison succeeded.
    ///
    /// Two arrays pass when their sizes fit and their element types pass. Two
    /// tuples pass when they have as many elements and these pass pair by
    /// pair, from the first on; the first pair that fails ends the
    /// comparison. All other pairs are compared by `relate_flat`.
    pub open spec fn relate(self, rel: Relation, a: TypeView, b: TypeView, span: Span) -> (
        ContextView,
        Result<(), SpanKind>,
    )
        decreases a,
    {
        match (a, b) {
            (TypeView::Array(_, size_a, elem_a), TypeView::Array(_, size_b, elem_b)) => if rel.sizes_fit(
                size_a,
                size_b,
            ) {
                self.relate(rel, *elem_a, *elem_b, span)
            } else {
                (self, Err(SpanKind::Nowhere))
            },
            (TypeView::Tuple(elems_a), TypeView::Tuple(elems_b)) => if elems_a.len()
                != elems_b.len() {
                (self, Err(SpanKind::Nowhere))
            } else {
                self.relate_all(rel, elems_a, elems_b, span)
            },
            _ => self.relate_flat(rel, a, b, span),
        }
    }

    /// Comparing the types of `xs` with those of `ys` pair by pair, from the
    /// first on, up to the first pair that fails.
    pub open spec fn relate_all(
        self,
        rel: Relation,
        xs: Seq<TypeView>,
        ys: Seq<TypeView>,
        span: Span,
    ) -> (ContextView, Result<(), SpanKind>)
        decreases xs,
    {
        if xs.len() == 0 || ys.len() == 0 {
            (self, Ok(()))
        } else {
            let first = self.relate(rel, xs[0], ys[0], span);
            if first.1 is Err {
                first
            } else {
                first.0.relate_all(rel, xs.drop_first(), ys.drop_first(), span)
            }
        }
    }

    /// Unifying `a` with `b`.
    pub open spec fn unify(self, a: TypeView, b: TypeView, span: Span) -> (
        ContextView,
        Result<(), SpanKind>,
    ) {
        self.relate(Relation::Unify, a, b, span)
    }

    /// Making `a` a subtype of `b`.
    pub open spec fn subtype(self, a: TypeView, b: TypeView, span: Span) -> (
        ContextView,
        Result<(), SpanKind>,
    ) {
        self.relate(Relation::Subtype, a, b, span)
    }
}

impl ContextView {
    /// Every type in `types` is over cells of this context.
    pub open spec fn covers_all(self, types: Seq<TypeView>) -> bool {
        forall|i: int| 0 <= i < types.len() ==> self.covers(#[trigger] types[i])
    }

    /// Recording an origin in a type keeps the context well formed; the
    /// result is a later state, and the type keeps its shape.
    pub proof fn lemma_set_const_span(self, ty: TypeView, span: Span)
        requires
            self.wf(),
            self.covers(ty),
        ensures
            self.set_const_span(ty, span).0.wf(),
            self.set_const_span(ty, span).0.extends(self),
            self.set_const_span(ty, span).0.constness.len() == self.constness.len(),
            self.set_const_span(ty, span).0.bindings.len() == self.bindings.len(),
            self.set_const_span(ty, span).1.same_shape(ty),
            self.set_const_span(ty, span).0.covers(self.set_const_span(ty, span).1),
        decreases self.type_depth(ty),
    {
        match ty {
            TypeView::FieldElement(c, _) => {
                self.lemma_stamp(c, span);
            },
            TypeView::Integer(c, _, _, _) => {
                self.lemma_stamp(c, span);
            },
            TypeView::PolymorphicInteger(c, var) => match self.bindings[var.0 as int] {
                BindingView::Bound(inner) => {
                    self.lemma_type_depth_step(c, var);
                    self.lemma_set_const_span(inner, span);
                    let (ctx, updated) = self.set_const_span(inner, span);
                    let next = ctx.with_binding(var, BindingView::Bound(updated));
                    assert(ctx.bindings[var.0 as int] is Bound);
                    ctx.lemma_rebind_keeps_wf(next);
                    assert(next.extends(self)) by {
                        assert forall|v: int| 0 <= v < self.bindings.len() implies (
                        #[trigger] self.bindings[v] matches BindingView::Bound(t)
                            ==> next.bindings[v] matches BindingView::Bound(later)
                            && later.same_shape(t)) by {
                            if v != var.0 && self.bindings[v] is Bound {
                                assert(ctx.bindings[v] is Bound);
                            }
                        }
                    }
                },
                BindingView::Unbound(_) => {
                    self.lemma_stamp(c, span);
                },
            },
            TypeView::Array(_, _, _) => {},
            TypeView::Tuple(_) => {},
            _ => {},
        }
    }

    /// Binding a variable keeps the context well formed, and the result is a
    /// later state.
    pub proof fn lemma_bind_variable(
        self,
        ty: TypeView,
        c: IsConst,
        var: TypeVariableId,
        var_const: IsConst,
        span: Span,
    )
        requires
            self.wf(),
            self.bindable(ty),
            ty == ty.with_constness(c),
            ty matches TypeView::PolymorphicInteger(_, own) ==> own != var
                && self.bindings[own.0 as int] is Unbound,
            self.has_variable(var),
            self.bindings[var.0 as int] is Unbound,
            self.holds(var_const),
        ensures
            self.bind_variable(ty, c, var, var_const, span).0.wf(),
            self.bind_variable(ty, c, var, var_const, span).0.extends(self),
            self.stamp(c, span).wf(),
            self.stamp(c, span).with_binding(
                var,
                BindingView::Bound(ty.with_constness(c.stamped(span))),
            ).wf(),
    {
        self.lemma_stamp(c, span);
        let stamped = self.stamp(c, span);
        let bound = ty.with_constness(c.stamped(span));
        let filled = stamped.with_binding(var, BindingView::Bound(bound));
        match ty {
            TypeView::PolymorphicInteger(_, own) => {
                assert(stamped.last_variable(own) == own);
                stamped.lemma_link_variable_keeps_wf(var, c.stamped(span), own);
            },
            _ => {
                stamped.lemma_rebind_keeps_wf(filled);
            },
        }
        filled.lemma_unify_constness(c, var_const, span);
        let last = filled.unify_constness(c, var_const, span).0;
        assert(filled.extends(stamped)) by {
            assert forall|v: int| 0 <= v < stamped.bindings.len() implies (
            #[trigger] stamped.bindings[v] matches BindingView::Bound(t)
                ==> filled.bindings[v] matches BindingView::Bound(later) && later.same_shape(t)) by {
                if v != var.0 {
                    assert(filled.bindings[v] == stamped.bindings[v]);
                }
            }
        }
        filled.lemma_extends_trans(stamped, self);
        last.lemma_extends_trans(filled, self);
    }

    /// Trying to bind a variable keeps the context well formed, and the
    /// result is a later state.
    pub proof fn lemma_try_bind(
        self,
        ty: TypeView,
        var: TypeVariableId,
        var_const: IsConst,
        span: Span,
    )
        requires
            self.wf(),
            self.covers(ty),
            self.has_variable(var),
            self.bindings[var.0 as int] is Unbound,
            self.holds(var_const),
        ensures
            self.try_bind(ty, var, var_const, span).0.wf(),
            self.try_bind(ty, var, var_const, span).0.extends(self),
        decreases self.type_depth(ty),
    {
        match ty {
            TypeView::FieldElement(c, _) => {
                self.lemma_bind_variable(ty, c, var, var_const, span);
            },
            TypeView::Integer(c, _, _, _) => {
                self.lemma_bind_variable(ty, c, var, var_const, span);
            },
            TypeView::PolymorphicInteger(c, own) => match self.bindings[own.0 as int] {
                BindingView::Bound(inner) => {
                    self.lemma_type_depth_step(c, own);
                    self.lemma_bindable_covers(inner);
                    self.lemma_try_bind(inner, var, var_const, span);
                },
                BindingView::Unbound(_) => {
                    if own != var {
                        self.lemma_bind_variable(ty, c, var, var_const, span);
                    }
                },
            },
            _ => {},
        }
    }

    /// A type that a variable may be bound to is over cells of the context.
    pub proof fn lemma_bindable_covers(self, ty: TypeView)
        requires
            self.bindable(ty),
        ensures
            self.covers(ty),
            ty.specified(),
    {
    }

    /// Comparing a variable with a type keeps the context well formed, and
    /// the result is a later state.
    pub proof fn lemma_relate_variable(
        self,
        rel: Relation,
        c: IsConst,
        var: TypeVariableId,
        other: TypeView,
        var_is_left: bool,
        span: Span,
    )
        requires
            self.wf(),
            self.holds(c),
            self.has_variable(var),
            self.covers(other),
        ensures
            self.relate_variable(rel, c, var, other, var_is_left, span).0.wf(),
            self.relate_variable(rel, c, var, other, var_is_left, span).0.extends(self),
        decreases
            self.type_depth(TypeView::PolymorphicInteger(c, var)) + self.type_depth(other),
            0nat,
    {
        match self.bindings[var.0 as int] {
            BindingView::Bound(link) => {
                self.lemma_type_depth_step(c, var);
                self.lemma_bindable_covers(link);
                if rel is Unify || var_is_left {
                    self.lemma_relate_flat(rel, link, other, span);
                } else {
                    self.lemma_relate_flat(rel, other, link, span);
                }
            },
            BindingView::Unbound(_) => {
                self.lemma_try_bind(other, var, c, span);
            },
        }
    }

    /// Comparing two types without looking inside keeps the context well
    /// formed, and the result is a later state.
    pub proof fn lemma_relate_flat(self, rel: Relation, a: TypeView, b: TypeView, span: Span)
        requires
            self.wf(),
            self.covers(a),
            self.covers(b),
        ensures
            self.relate_flat(rel, a, b, span).0.wf(),
            self.relate_flat(rel, a, b, span).0.extends(self),
        decreases self.type_depth(a) + self.type_depth(b), 1nat,
    {
        match (a, b) {
            (TypeView::Error, _) => {},
            (_, TypeView::Error) => {},
            (TypeView::PolymorphicInteger(c, var), _) => {
                self.lemma_relate_variable(rel, c, var, b, true, span);
            },
            (_, TypeView::PolymorphicInteger(c, var)) => {
                self.lemma_relate_variable(rel, c, var, a, false, span);
            },
            (TypeView::Struct(_, _), TypeView::Struct(_, _)) => {},
            (TypeView::FieldElement(ca, _), TypeView::FieldElement(cb, _)) => {
                self.lemma_unify_constness(ca, cb, span);
                self.lemma_accept_constness(ca, cb, span);
            },
            (TypeView::Integer(ca, _, _, _), TypeView::Integer(cb, _, _, _)) => {
                self.lemma_unify_constness(ca, cb, span);
                self.lemma_accept_constness(ca, cb, span);
            },
            _ => {},
        }
    }

    /// Comparing two types keeps the context well formed, and the result is a
    /// later state: no binding is undone, whether the comparison succeeds or not.
    pub proof fn lemma_relate(self, rel: Relation, a: TypeView, b: TypeView, span: Span)
        requires
            self.wf(),
            self.covers(a),
            self.covers(b),
        ensures
            self.relate(rel, a, b, span).0.wf(),
            self.relate(rel, a, b, span).0.extends(self),
        decreases a,
    {
        match (a, b) {
            (TypeView::Array(_, size_a, elem_a), TypeView::Array(_, size_b, elem_b)) => {
                if rel.sizes_fit(size_a, size_b) {
                    self.lemma_relate(rel, *elem_a, *elem_b, span);
                }
            },
            (TypeView::Tuple(elems_a), TypeView::Tuple(elems_b)) => {
                if elems_a.len() == elems_b.len() {
                    self.lemma_relate_all(rel, elems_a, elems_b, span);
                }
            },
            _ => {
                self.lemma_relate_flat(rel, a, b, span);
            },
        }
    }

    /// Comparing two lists of types pair by pair keeps the context well
    /// formed, and the result is a later state.
    pub proof fn lemma_relate_all(
        self,
        rel: Relation,
        xs: Seq<TypeView>,
        ys: Seq<TypeView>,
        span: Span,
    )
        requires
            self.wf(),
            self.covers_all(xs),
            self.covers_all(ys),
        ensures
            self.relate_all(rel, xs, ys, span).0.wf(),
            self.relate_all(rel, xs, ys, span).0.extends(self),
        decreases xs,
    {
        if xs.len() == 0 || ys.len() == 0 {
        } else {
            self.lemma_relate(rel, xs[0], ys[0], span);
            let first = self.relate(rel, xs[0], ys[0], span);
            if first.1 is Ok {
                assert(first.0.covers_all(xs.drop_first())) by {
                    assert forall|i: int| 0 <= i < xs.drop_first().len() implies first.0.covers(
                        #[trigger] xs.drop_first()[i],
                    ) by {
                        first.0.lemma_extends_covers(self, xs[i + 1]);
                    }
                }
                assert(first.0.covers_all(ys.drop_first())) by {
                    assert forall|i: int| 0 <= i < ys.drop_first().len() implies first.0.covers(
                        #[trigger] ys.drop_first()[i],
                    ) by {
                        first.0.lemma_extends_covers(self, ys[i + 1]);
                    }
                }
                first.0.lemma_relate_all(rel, xs.drop_first(), ys.drop_first(), span);
                self.relate_all(rel, xs, ys, span).0.lemma_extends_trans(first.0, self);
            }
        }
    }
}

impl ContextView {
    /// Whether `ty` counts as const: a field element or an integer by its
    /// constness, a variable by the type it is bound to, or by its own
    /// constness while it is unbound; no other type does.
    pub open spec fn type_is_const(self, ty: TypeView) -> bool
        decreases self.type_depth(ty),
        when self.wf() && self.covers(ty)
    {
        match ty {
            TypeView::FieldElement(c, _) => self.is_const(c),
            TypeView::Integer(c, _, _, _) => self.is_const(c),
            TypeView::PolymorphicInteger(c, var) => match self.bindings[var.0 as int] {
                BindingView::Bound(inner) => {
                    proof {
                        self.lemma_type_depth_step(c, var);
                    }
                    self.type_is_const(inner)
                },
                BindingView::Unbound(_) => self.is_const(c),
            },
            _ => false,
        }
    }
}

impl Relation {
    fn sizes_pass(self, a: &ArraySize, b: &ArraySize) -> (pass: bool)
        ensures
            pass == self.sizes_fit(*a, *b),
    {
        match self {
            Relation::Unify => *a == *b,
            Relation::Subtype => a.is_subtype_of(b),
        }
    }

    fn constness(self, a: &IsConst, b: &IsConst, span: Span, ctx: &mut TypeContext) -> (result:
        Result<(), SpanKind>)
        requires
            old(ctx)@.wf(),
            old(ctx)@.holds(*a),
            old(ctx)@.holds(*b),
        ensures
            final(ctx)@.wf(),
            (final(ctx)@, result) == old(ctx)@.relate_constness(self, *a, *b, span),
    {
        match self {
            Relation::Unify => a.unify(b, span, ctx),
            Relation::Subtype => a.is_subtype_of(b, span, ctx),
        }
    }
}

impl Type {
    /// Whether no part of this type is `Unspecified`.
    pub fn is_specified(&self) -> (yes: bool)
        ensures
            yes == self@.specified(),
        decreases self,
    {
        match self {
            Type::Unspecified => false,
            Type::Array(_, _, elem) => elem.is_specified(),
            Type::Tuple(elems) => {
                let mut i: usize = 0;
                while i < elems.len()
                    invariant
                        i <= elems.len(),
                        *self == Type::Tuple(*elems),
                        forall|k: int| 0 <= k < i ==> (#[trigger] self@->Tuple_0[k]).specified(),
                    decreases elems.len() - i,
                {
                    proof {
                        assert(decreases_to!(*self => self->Tuple_0));
                        assert(decreases_to!(self->Tuple_0 => self->Tuple_0[i as int]));
                    }
                    if !elems[i].is_specified() {
                        assert(self@->Tuple_0[i as int] == elems[i as int]@);
                        return false;
                    }
                    assert(self@->Tuple_0[i as int] == elems[i as int]@);
                    i += 1;
                }
                true
            },
            _ => true,
        }
    }

    /// Records `new_span` as the place in the source that decided the
    /// constness of this type.
    pub fn set_const_span(&mut self, new_span: Span, ctx: &mut TypeContext)
        requires
            old(ctx)@.wf(),
            old(ctx)@.covers(old(self)@),
        ensures
            final(ctx)@.wf(),
            final(ctx)@.extends(old(ctx)@),
            (final(ctx)@, final(self)@) == old(ctx)@.set_const_span(old(self)@, new_span),
        decreases old(ctx)@.type_depth(old(self)@),
    {
        proof {
            ctx@.lemma_set_const_span(self@, new_span);
        }
        match self {
            Type::FieldElement(c, vis) => {
                let updated = Type::FieldElement(c.with_span(new_span), *vis);
                ctx.stamp(*c, new_span);
                *self = updated;
            },
            Type::Integer(c, vis, sign, bits) => {
                let updated = Type::Integer(c.with_span(new_span), *vis, *sign, *bits);
                ctx.stamp(*c, new_span);
                *self = updated;
            },
            Type::PolymorphicInteger(c, var) => {
                match ctx.binding_of(*var) {
                    TypeBinding::Bound(inner) => {
                        let mut inner = inner;
                        proof {
                            ctx@.lemma_type_depth_step(*c, *var);
                            ctx@.lemma_bindable_covers(inner@);
                        }
                        inner.set_const_span(new_span, ctx);
                        ctx.set_binding(*var, inner);
                    },
                    TypeBinding::Unbound(_) => {
                        let updated = Type::PolymorphicInteger(c.with_span(new_span), *var);
                        ctx.stamp(*c, new_span);
                        *self = updated;
                    },
                }
            },
            _ => {},
        }
    }

    fn bind_variable(
        &self,
        c: IsConst,
        var: TypeVariableId,
        var_const: &IsConst,
        span: Span,
        ctx: &mut TypeContext,
    ) -> (result: Result<(), SpanKind>)
        requires
            old(ctx)@.wf(),
            old(ctx)@.bindable(self@),
            self@ == self@.with_constness(c),
            self@ matches TypeView::PolymorphicInteger(_, own) ==> own != var
                && old(ctx)@.bindings[own.0 as int] is Unbound,
            old(ctx)@.has_variable(var),
            old(ctx)@.bindings[var.0 as int] is Unbound,
            old(ctx)@.holds(*var_const),
        ensures
            final(ctx)@.wf(),
            final(ctx)@.extends(old(ctx)@),
            (final(ctx)@, result) == old(ctx)@.bind_variable(self@, c, var, *var_const, span),
    {
        proof {
            ctx@.lemma_bind_variable(self@, c, var, *var_const, span);
            ctx@.lemma_stamp(c, span);
        }
        let mut clone = self.clone();
        clone.set_const_span(span, ctx);
        ctx.set_binding(var, clone);
        c.unify(var_const, span, ctx)
    }

    /// Tries to bind the unbound variable `var`, whose own constness is
    /// `var_const`, to this type.
    pub fn try_bind_to_polymorphic_int(
        &self,
        var: TypeVariableId,
        var_const: &IsConst,
        span: Span,
        ctx: &mut TypeContext,
    ) -> (result: Result<(), SpanKind>)
        requires
            old(ctx)@.wf(),
            old(ctx)@.covers(self@),
            old(ctx)@.has_variable(var),
            old(ctx)@.bindings[var.0 as int] is Unbound,
            old(ctx)@.holds(*var_const),
        ensures
            final(ctx)@.wf(),
            final(ctx)@.extends(old(ctx)@),
            (final(ctx)@, result) == old(ctx)@.try_bind(self@, var, *var_const, span),
            result is Ok ==> final(ctx)@.agrees(
                Relation::Unify,
                TypeView::PolymorphicInteger(*var_const, var),
                self@,
            ),
        decreases old(ctx)@.type_depth(self@),
    {
        proof {
            ctx@.lemma_try_bind(self@, var, *var_const, span);
            if ctx@.try_bind(self@, var, *var_const, span).1 is Ok {
                ctx@.try_bind_makes_agree(Relation::Unify, self@, var, *var_const, span);
            }
        }
        match self {
            Type::FieldElement(c, _) => self.bind_variable(*c, var, var_const, span, ctx),
            Type::Integer(c, _, _, _) => self.bind_variable(*c, var, var_const, span, ctx),
            Type::PolymorphicInteger(c, own) => {
                match ctx.binding_of(*own) {
                    TypeBinding::Bound(inner) => {
                        proof {
                            ctx@.lemma_type_depth_step(*c, *own);
                            ctx@.lemma_bindable_covers(inner@);
                        }
                        inner.try_bind_to_polymorphic_int(var, var_const, span, ctx)
                    },
                    TypeBinding::Unbound(id) => {
                        if id == var {
                            Ok(())
                        } else {
                            self.bind_variable(*c, var, var_const, span, ctx)
                        }
                    },
                }
            },
            _ => Err(SpanKind::Nowhere),
        }
    }

    fn relate_variable(
        rel: Relation,
        c: &IsConst,
        var: TypeVariableId,
        other: &Type,
        var_is_left: bool,
        span: Span,
        ctx: &mut TypeContext,
    ) -> (result: Result<(), SpanKind>)
        requires
            old(ctx)@.wf(),
            old(ctx)@.holds(*c),
            old(ctx)@.has_variable(var),
            old(ctx)@.covers(other@),
        ensures
            final(ctx)@.wf(),
            final(ctx)@.extends(old(ctx)@),
            (final(ctx)@, result) == old(ctx)@.relate_variable(
                rel,
                *c,
                var,
                other@,
                var_is_left,
                span,
            ),
        decreases
            old(ctx)@.type_depth(TypeView::PolymorphicInteger(*c, var)) + old(ctx)@.type_depth(
                other@,
            ),
            0nat,
    {
        proof {
            ctx@.lemma_relate_variable(rel, *c, var, other@, var_is_left, span);
        }
        match ctx.binding_of(var) {
            TypeBinding::Bound(link) => {
                proof {
                    ctx@.lemma_type_depth_step(*c, var);
                    ctx@.lemma_bindable_covers(link@);
                }
                match rel {
                    Relation::Unify => Self::relate_flat(rel, &link, other, span, ctx),
                    Relation::Subtype => {
                        if var_is_left {
                            Self::relate_flat(rel, &link, other, span, ctx)
                        } else {
                            Self::relate_flat(rel, other, &link, span, ctx)
                        }
                    },
                }
            },
            TypeBinding::Unbound(_) => other.try_bind_to_polymorphic_int(var, c, span, ctx),
        }
    }

    fn relate_flat(rel: Relation, a: &Type, b: &Type, span: Span, ctx: &mut TypeContext) -> (result:
        Result<(), SpanKind>)
        requires
            old(ctx)@.wf(),
            old(ctx)@.covers(a@),
            old(ctx)@.covers(b@),
        ensures
            final(ctx)@.wf(),
            final(ctx)@.extends(old(ctx)@),
            (final(ctx)@, result) == old(ctx)@.relate_flat(rel, a@, b@, span),
        decreases old(ctx)@.type_depth(a@) + old(ctx)@.type_depth(b@), 1nat,
    {
        proof {
            ctx@.lemma_relate_flat(rel, a@, b@, span);
        }
        match (a, b) {
            (Type::Error, _) => Ok(()),
            (_, Type::Error) => Ok(()),
            (Type::PolymorphicInteger(c, var), _) => Self::relate_variable(
                rel,
                c,
                *var,
                b,
                true,
                span,
                ctx,
            ),
            (_, Type::PolymorphicInteger(c, var)) => Self::relate_variable(
                rel,
                c,
                *var,
                a,
                false,
                span,
                ctx,
            ),
            (Type::Struct(_, id_a), Type::Struct(_, id_b)) => {
                if *id_a == *id_b {
                    Ok(())
                } else {
                    Err(SpanKind::Nowhere)
                }
            },
            (Type::FieldElement(ca, _), Type::FieldElement(cb, _)) => rel.constness(
                ca,
                cb,
                span,
                ctx,
            ),
            (Type::Integer(ca, _, sign_a, bits_a), Type::Integer(cb, _, sign_b, bits_b)) => {
                if *sign_a == *sign_b && *bits_a == *bits_b {
                    rel.constness(ca, cb, span, ctx)
                } else {
                    Err(SpanKind::Nowhere)
                }
            },
            (Type::Bool, Type::Bool) => Ok(()),
            (Type::Unit, Type::Unit) => Ok(()),
            _ => Err(SpanKind::Nowhere),
        }
    }

    fn relate(&self, rel: Relation, other: &Type, span: Span, ctx: &mut TypeContext) -> (result:
        Result<(), SpanKind>)
        requires
            old(ctx)@.wf(),
            old(ctx)@.covers(self@),
            old(ctx)@.covers(other@),
        ensures
            final(ctx)@.wf(),
            final(ctx)@.extends(old(ctx)@),
            (final(ctx)@, result) == old(ctx)@.relate(rel, self@, other@, span),
        decreases self,
    {
        proof {
            ctx@.lemma_relate(rel, self@, other@, span);
        }
        match (self, other) {
            (Type::Array(_, size_a, elem_a), Type::Array(_, size_b, elem_b)) => {
                if rel.sizes_pass(size_a, size_b) {
                    elem_a.relate(rel, elem_b, span, ctx)
                } else {
                    Err(SpanKind::Nowhere)
                }
            },
            (Type::Tuple(elems_a), Type::Tuple(elems_b)) => {
                if elems_a.len() != elems_b.len() {
                    return Err(SpanKind::Nowhere);
                }
                let ghost xs = self@->Tuple_0;
                let ghost ys = other@->Tuple_0;
                proof {
                    assert(xs.skip(0) =~= xs);
                    assert(ys.skip(0) =~= ys);
                }
                let mut i: usize = 0;
                while i < elems_a.len()
                    invariant
                        i <= elems_a.len(),
                        elems_a.len() == elems_b.len(),
                        *self == Type::Tuple(*elems_a),
                        *other == Type::Tuple(*elems_b),
                        xs == self@->Tuple_0,
                        ys == other@->Tuple_0,
                        ctx@.wf(),
                        ctx@.extends(old(ctx)@),
                        old(ctx)@.covers_all(xs),
                        old(ctx)@.covers_all(ys),
                        old(ctx)@.relate_all(rel, xs, ys, span) == ctx@.relate_all(
                            rel,
                            xs.skip(i as int),
                            ys.skip(i as int),
                            span,
                        ),
                    decreases elems_a.len() - i,
                {
                    proof {
                        assert(decreases_to!(*self => self->Tuple_0));
                        assert(decreases_to!(self->Tuple_0 => self->Tuple_0[i as int]));
                        assert(xs.skip(i as int)[0] == elems_a[i as int]@);
                        assert(ys.skip(i as int)[0] == elems_b[i as int]@);
                        assert(xs.skip(i as int).drop_first() =~= xs.skip(i + 1));
                        assert(ys.skip(i as int).drop_first() =~= ys.skip(i + 1));
                        ctx@.lemma_extends_covers(old(ctx)@, xs[i as int]);
                        ctx@.lemma_extends_covers(old(ctx)@, ys[i as int]);
                    }
                    let ghost before = ctx@;
                    let step = elems_a[i].relate(rel, &elems_b[i], span, ctx);
                    proof {
                        ctx@.lemma_extends_trans(before, old(ctx)@);
                    }
                    if step.is_err() {
                        return step;
                    }
                    i += 1;
                }
                Ok(())
            },
            _ => Self::relate_flat(rel, self, other, span, ctx),
        }
    }

    /// Tries to unify this type with `other`, binding the type variables
    /// and constness variables that it meets. Bindings that were made stay,
    /// also where the result is an error.
    pub fn try_unify(&self, other: &Type, span: Span, ctx: &mut TypeContext) -> (result: Result<
        (),
        SpanKind,
    >)
        requires
            old(ctx)@.wf(),
            old(ctx)@.covers(self@),
            old(ctx)@.covers(other@),
            self@.specified(),
            other@.specified(),
        ensures
            final(ctx)@.wf(),
            final(ctx)@.extends(old(ctx)@),
            (final(ctx)@, result) == old(ctx)@.unify(self@, other@, span),
            result is Ok ==> final(ctx)@.agrees(Relation::Unify, self@, other@),
    {
        proof {
            if ctx@.unify(self@, other@, span).1 is Ok {
                ctx@.relate_makes_agree(Relation::Unify, self@, other@, span);
            }
        }
        self.relate(Relation::Unify, other, span, ctx)
    }

    /// Checks that this type may stand where `other` is expected, binding
    /// the type variables and constness variables that it meets.
    pub fn is_subtype_of(&self, other: &Type, span: Span, ctx: &mut TypeContext) -> (result:
        Result<(), SpanKind>)
        requires
            old(ctx)@.wf(),
            old(ctx)@.covers(self@),
            old(ctx)@.covers(other@),
            self@.specified(),
            other@.specified(),
        ensures
            final(ctx)@.wf(),
            final(ctx)@.extends(old(ctx)@),
            (final(ctx)@, result) == old(ctx)@.subtype(self@, other@, span),
            result is Ok ==> final(ctx)@.agrees(Relation::Subtype, self@, other@),
    {
        proof {
            if ctx@.subtype(self@, other@, span).1 is Ok {
                ctx@.relate_makes_agree(Relation::Subtype, self@, other@, span);
            }
        }
        self.relate(Relation::Subtype, other, span, ctx)
    }

    /// Whether this type counts as const.
    pub fn is_const(&self, ctx: &TypeContext) -> (yes: bool)
        requires
            ctx@.wf(),
            ctx@.covers(self@),
        ensures
            yes == ctx@.type_is_const(self@),
        decreases ctx@.type_depth(self@),
    {
        match self {
            Type::FieldElement(c, _) => c.is_const(ctx),
            Type::Integer(c, _, _, _) => c.is_const(ctx),
            Type::PolymorphicInteger(c, var) => {
                match ctx.binding_of(*var) {
                    TypeBinding::Bound(inner) => {
                        proof {
                            ctx@.lemma_type_depth_step(*c, *var);
                            ctx@.lemma_bindable_covers(inner@);
                        }
                        inner.is_const(ctx)
                    },
                    TypeBinding::Unbound(_) => c.is_const(ctx),
                }
            },
            _ => false,
        }
    }
}

/// What a failed comparison adds to the list of diagnostics: the primary
/// error that `make_error` builds, and after it the note for `kind`, where
/// there is one. What the list held before stays in front.
pub open spec fn reported<F: FnOnce() -> TypeCheckError>(
    before: Seq<TypeCheckError>,
    after: Seq<TypeCheckError>,
    make_error: F,
    expected_is_const: bool,
    kind: SpanKind,
) -> bool {
    &&& before.len() < after.len()
    &&& after.subrange(0, before.len() as int) == before
    &&& call_ensures(make_error, (), after[before.len() as int])
    &&& match note_for(expected_is_const, kind) {
        Some(note) => after.len() == before.len() + 2 && is_note(
            after[before.len() as int + 1],
            note,
        ),
        None => after.len() == before.len() + 1,
    }
}

impl Type {
    fn issue_errors<F: FnOnce() -> TypeCheckError>(
        expected: &Type,
        err_span: SpanKind,
        ctx: &TypeContext,
        errors: &mut Vec<TypeCheckError>,
        make_error: F,
    )
        requires
            ctx@.wf(),
            ctx@.covers(expected@),
            call_requires(make_error, ()),
        ensures
            reported(
                old(errors)@,
                final(errors)@,
                make_error,
                ctx@.type_is_const(expected@),
                err_span,
            ),
    {
        let primary = make_error();
        errors.push(primary);
        let note = secondary_error(expected.is_const(ctx), err_span);
        if let Some(error) = note {
            errors.push(error);
        }
        assert(errors@.subrange(0, old(errors)@.len() as int) =~= old(errors)@);
    }

    /// Unifies this type with `expected`. Where that fails, the error that
    /// `make_error` builds is added to `errors`, and after it a note on the
    /// constness that stood in the way, where one applies. Bindings that
    /// were made stay.
    pub fn unify<F: FnOnce() -> TypeCheckError>(
        &self,
        expected: &Type,
        span: Span,
        ctx: &mut TypeContext,
        errors: &mut Vec<TypeCheckError>,
        make_error: F,
    )
        requires
            old(ctx)@.wf(),
            old(ctx)@.covers(self@),
            old(ctx)@.covers(expected@),
            self@.specified(),
            expected@.specified(),
            call_requires(make_error, ()),
        ensures
            final(ctx)@.wf(),
            final(ctx)@.extends(old(ctx)@),
            final(ctx)@ == old(ctx)@.unify(self@, expected@, span).0,
            match old(ctx)@.unify(self@, expected@, span).1 {
                Ok(_) => final(errors)@ == old(errors)@ && final(ctx)@.agrees(
                    Relation::Unify,
                    self@,
                    expected@,
                ),
                Err(kind) => reported(
                    old(errors)@,
                    final(errors)@,
                    make_error,
                    final(ctx)@.type_is_const(expected@),
                    kind,
                ),
            },
    {
        if let Err(err_span) = self.try_unify(expected, span, ctx) {
            proof {
                ctx@.lemma_extends_covers(old(ctx)@, expected@);
            }
            Self::issue_errors(expected, err_span, ctx, errors, make_error)
        }
    }

    /// Checks that this type may stand where `expected` is asked for, and
    /// reports a failure as `unify` does.
    pub fn make_subtype_of<F: FnOnce() -> TypeCheckError>(
        &self,
        expected: &Type,
        span: Span,
        ctx: &mut TypeContext,
        errors: &mut Vec<TypeCheckError>,
        make_error: F,
    )
        requires
            old(ctx)@.wf(),
            old(ctx)@.covers(self@),
            old(ctx)@.covers(expected@),
            self@.specified(),
            expected@.specified(),
            call_requires(make_error, ()),
        ensures
            final(ctx)@.wf(),
            final(ctx)@.extends(old(ctx)@),
            final(ctx)@ == old(ctx)@.subtype(self@, expected@, span).0,
            match old(ctx)@.subtype(self@, expected@, span).1 {
                Ok(_) => final(errors)@ == old(errors)@ && final(ctx)@.agrees(
                    Relation::Subtype,
                    self@,
                    expected@,
                ),
                Err(kind) => reported(
                    old(errors)@,
                    final(errors)@,
                    make_error,
                    final(ctx)@.type_is_const(expected@),
                    kind,
                ),
            },
    {
        if let Err(err_span) = self.is_subtype_of(expected, span, ctx) {
            proof {
                ctx@.lemma_extends_covers(old(ctx)@, expected@);
            }
            Self::issue_errors(expected, err_span, ctx, errors, make_error)
        }
    }
}

} // verus!

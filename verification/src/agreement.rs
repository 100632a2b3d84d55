//! What a successful comparison achieves: the two sides agree in the
//! context that it leaves behind, and go on agreeing in every later state.

use vstd::prelude::*;
use crate::basics::Span;
use crate::basics::TypeVariableId;
use crate::constness::IsConst;
use crate::constness::SpanKind;
use crate::context::ContextView;
use crate::types::BindingView;
use crate::types::TypeView;
use crate::unify::Relation;

verus! {

impl Relation {
    /// Whether a settled or pending constness `a` passes for `b` as it
    /// stands: the two are the same fact, or, for subtyping, `a` is `Yes`
    /// and `b` is `No`.
    pub open spec fn facts_pass(self, a: IsConst, b: IsConst) -> bool {
        a.same_fact(b) || (self is Subtype && a is Yes && b is No)
    }
}

impl ContextView {
    /// `a` passes for `b` in this context without anything left to bind:
    /// their chains end in the same fact, or, for subtyping, in a `Yes` and
    /// a `No`.
    pub open spec fn constness_agrees(self, rel: Relation, a: IsConst, b: IsConst) -> bool {
        rel.facts_pass(self.resolve(a), self.resolve(b))
    }

    /// In a later state a chain ends where it ended before, or goes on from
    /// the cell that was empty then.
    pub proof fn lemma_resolve_later(self, earlier: ContextView, c: IsConst)
        requires
            self.wf(),
            earlier.wf(),
            self.extends(earlier),
            earlier.holds(c),
        ensures
            self.holds(c),
            earlier.resolve(c).settled() ==> self.resolve(c).same_fact(earlier.resolve(c)),
            !earlier.resolve(c).settled() ==> self.resolve(c) == self.resolve(earlier.resolve(c)),
        decreases earlier.depth(c),
    {
        if let IsConst::Maybe(id) = c {
            if let Some(inner) = earlier.constness[id.0 as int] {
                earlier.lemma_depth_step(id);
                let later = self.constness[id.0 as int]->0;
                assert(later.same_fact(inner));
                if let IsConst::Maybe(next) = inner {
                    self.lemma_resolve_later(earlier, inner);
                } else {
                    assert(earlier.resolve(inner) == inner);
                    assert(self.resolve(later) == later);
                }
            }
        }
    }

    /// Two constnesses that agree go on agreeing in every later state.
    pub proof fn constness_agreement_is_stable(
        self,
        earlier: ContextView,
        rel: Relation,
        a: IsConst,
        b: IsConst,
    )
        requires
            self.wf(),
            earlier.wf(),
            self.extends(earlier),
            earlier.holds(a),
            earlier.holds(b),
            earlier.constness_agrees(rel, a, b),
        ensures
            self.constness_agrees(rel, a, b),
    {
        self.lemma_resolve_later(earlier, a);
        self.lemma_resolve_later(earlier, b);
        earlier.lemma_resolve_end(a);
        earlier.lemma_resolve_end(b);
        self.lemma_resolve_end(earlier.resolve(a));
    }

    /// Where comparing two constnesses succeeds, they agree afterwards.
    pub proof fn constness_relate_makes_agree(
        self,
        rel: Relation,
        a: IsConst,
        b: IsConst,
        span: Span,
    )
        requires
            self.wf(),
            self.holds(a),
            self.holds(b),
            self.relate_constness(rel, a, b, span).1 is Ok,
        ensures
            self.relate_constness(rel, a, b, span).0.constness_agrees(rel, a, b),
    {
        let next = self.relate_constness(rel, a, b, span).0;
        self.lemma_unify_constness(a, b, span);
        self.lemma_accept_constness(a, b, span);
        self.lemma_resolve_end(a);
        self.lemma_resolve_end(b);
        next.lemma_resolve_later(self, a);
        next.lemma_resolve_later(self, b);
        match (self.resolve(a), self.resolve(b)) {
            (IsConst::Maybe(x), end_b) => {
                if end_b != IsConst::Maybe(x) {
                    self.lemma_stamp(b, span);
                    assert(next.constness[x.0 as int] == Some(b.stamped(span)));
                    assert(next.resolve(IsConst::Maybe(x)) == next.resolve(b.stamped(span)));
                    next.lemma_resolve_end(b);
                    if b.settled() {
                        assert(next.resolve(b) == b);
                        assert(next.resolve(b.stamped(span)) == b.stamped(span));
                    }
                } else {
                    next.lemma_resolve_end(IsConst::Maybe(x));
                }
            },
            (end_a, IsConst::Maybe(y)) => {
                assert(next.constness[y.0 as int] == Some(end_a.stamped(span)));
                assert(next.resolve(IsConst::Maybe(y)) == next.resolve(end_a.stamped(span)));
                assert(next.resolve(end_a.stamped(span)) == end_a.stamped(span));
            },
            _ => {},
        }
    }
}

/// Where the chain of bound variables that starts at a type ends: at a
/// variable that is still unbound, or at a type that is no variable.
pub enum Leaf {
    Pending(TypeVariableId),
    Settled(TypeView),
}

impl ContextView {
    /// Where the chain of bound variables that starts at `ty` ends.
    pub open spec fn leaf(self, ty: TypeView) -> Leaf {
        match ty {
            TypeView::PolymorphicInteger(_, var) => {
                let last = self.last_variable(var);
                match self.bindings[last.0 as int] {
                    BindingView::Bound(end) => Leaf::Settled(end),
                    BindingView::Unbound(_) => Leaf::Pending(last),
                }
            },
            _ => Leaf::Settled(ty),
        }
    }

    /// The ends of two chains pass for each other as they stand: one is
    /// `Error`; or both are the same unbound variable; or both are the same
    /// struct, field elements whose constnesses agree, integers of one sign
    /// and width whose constnesses agree, both `Bool`, or both `Unit`.
    pub open spec fn leaves_agree(self, rel: Relation, a: Leaf, b: Leaf) -> bool {
        match (a, b) {
            (Leaf::Settled(TypeView::Error), _) => true,
            (_, Leaf::Settled(TypeView::Error)) => true,
            (Leaf::Pending(v), Leaf::Pending(w)) => v == w,
            (
                Leaf::Settled(TypeView::Struct(_, id_a)),
                Leaf::Settled(TypeView::Struct(_, id_b)),
            ) => id_a == id_b,
            (
                Leaf::Settled(TypeView::FieldElement(ca, _)),
                Leaf::Settled(TypeView::FieldElement(cb, _)),
            ) => self.constness_agrees(rel, ca, cb),
            (
                Leaf::Settled(TypeView::Integer(ca, _, sign_a, bits_a)),
                Leaf::Settled(TypeView::Integer(cb, _, sign_b, bits_b)),
            ) => sign_a == sign_b && bits_a == bits_b && self.constness_agrees(rel, ca, cb),
            (Leaf::Settled(TypeView::Bool), Leaf::Settled(TypeView::Bool)) => true,
            (Leaf::Settled(TypeView::Unit), Leaf::Settled(TypeView::Unit)) => true,
            _ => false,
        }
    }

    /// `a` passes for `b` in this context without anything left to bind.
    ///
    /// Two arrays agree when their sizes fit and their element types agree;
    /// two tuples when they have as many elements and these agree pair by
    /// pair. Any other two types agree when the ends of their chains of bound
    /// variables do.
    pub open spec fn agrees(self, rel: Relation, a: TypeView, b: TypeView) -> bool
        decreases a,
    {
        match (a, b) {
            (TypeView::Array(_, size_a, elem_a), TypeView::Array(_, size_b, elem_b)) => rel.sizes_fit(
                size_a,
                size_b,
            ) && self.agrees(rel, *elem_a, *elem_b),
            (TypeView::Tuple(elems_a), TypeView::Tuple(elems_b)) => elems_a.len() == elems_b.len()
                && forall|i: int|
                0 <= i < elems_a.len() ==> self.agrees(rel, #[trigger] elems_a[i], elems_b[i]),
            _ => self.leaves_agree(rel, self.leaf(a), self.leaf(b)),
        }
    }

    /// The last cell of a chain of bound variables is a cell of the context
    /// and does not hold a variable.
    proof fn lemma_last_variable(self, var: TypeVariableId)
        requires
            self.wf(),
            self.has_variable(var),
        ensures
            self.has_variable(self.last_variable(var)),
            !(self.bindings[self.last_variable(var).0 as int] matches BindingView::Bound(
                TypeView::PolymorphicInteger(_, _),
            )),
            self.bindings[self.last_variable(var).0 as int] matches BindingView::Bound(end)
                ==> self.bindable(end),
            self.bindings[self.last_variable(var).0 as int] matches BindingView::Unbound(id)
                ==> id == self.last_variable(var),
        decreases self.type_depth(TypeView::PolymorphicInteger(IsConst::Yes(None), var)),
    {
        if let BindingView::Bound(TypeView::PolymorphicInteger(c, next)) = self.bindings[var.0 as int] {
            self.lemma_type_depth_step(IsConst::Yes(None), var);
            self.lemma_type_depth_of_variable(c, IsConst::Yes(None), next);
            self.lemma_last_variable(next);
        }
    }

    /// In a later state a chain of bound variables goes the way it went
    /// before, and on from where it ended then.
    proof fn lemma_last_variable_later(self, earlier: ContextView, var: TypeVariableId)
        requires
            self.wf(),
            earlier.wf(),
            self.extends(earlier),
            earlier.has_variable(var),
        ensures
            self.last_variable(var) == self.last_variable(earlier.last_variable(var)),
        decreases earlier.type_depth(TypeView::PolymorphicInteger(IsConst::Yes(None), var)),
    {
        if let BindingView::Bound(TypeView::PolymorphicInteger(c, next)) = earlier.bindings[var.0 as int] {
            earlier.lemma_type_depth_step(IsConst::Yes(None), var);
            earlier.lemma_type_depth_of_variable(c, IsConst::Yes(None), next);
            let later = self.bindings[var.0 as int]->Bound_0;
            assert(later.same_shape(TypeView::PolymorphicInteger(c, next)));
            self.lemma_last_variable_later(earlier, next);
        }
    }

    /// In a later state a type ends where it ended before, up to recorded
    /// origins, or goes on from the variable that was unbound then.
    proof fn lemma_leaf_later(self, earlier: ContextView, ty: TypeView)
        requires
            self.wf(),
            earlier.wf(),
            self.extends(earlier),
            earlier.covers(ty),
        ensures
            earlier.leaf(ty) matches Leaf::Settled(end) ==> self.leaf(ty) matches Leaf::Settled(
                later,
            ) && later.same_shape(end) && !(end is PolymorphicInteger),
            earlier.leaf(ty) matches Leaf::Pending(last) ==> earlier.has_variable(last) && self.leaf(
                ty,
            ) == self.leaf(TypeView::PolymorphicInteger(IsConst::Yes(None), last)),
    {
        if let TypeView::PolymorphicInteger(_, var) = ty {
            earlier.lemma_last_variable(var);
            self.lemma_last_variable_later(earlier, var);
            let last = earlier.last_variable(var);
            if let BindingView::Bound(end) = earlier.bindings[last.0 as int] {
                let later = self.bindings[last.0 as int]->Bound_0;
                assert(later.same_shape(end));
                assert(self.last_variable(last) == last);
            }
        }
    }

    /// Two constnesses that are the same fact end in the same fact.
    proof fn lemma_same_fact_resolves(self, c1: IsConst, c2: IsConst)
        requires
            self.wf(),
            self.holds(c1),
            c1.same_fact(c2),
        ensures
            self.resolve(c1).same_fact(self.resolve(c2)),
    {
        if c1.settled() {
            assert(self.resolve(c1) == c1);
            assert(self.resolve(c2) == c2);
        }
    }

    /// Whether two ends agree does not depend on the origins recorded in them.
    proof fn lemma_leaves_agree_same_shape(
        self,
        rel: Relation,
        a: TypeView,
        b: TypeView,
        a2: TypeView,
        b2: TypeView,
    )
        requires
            self.wf(),
            self.covers(a),
            self.covers(b),
            a2.same_shape(a),
            b2.same_shape(b),
            !(a is PolymorphicInteger),
            !(b is PolymorphicInteger),
            self.leaves_agree(rel, Leaf::Settled(a), Leaf::Settled(b)),
        ensures
            self.leaves_agree(rel, Leaf::Settled(a2), Leaf::Settled(b2)),
    {
        match (a, b) {
            (TypeView::FieldElement(ca, _), TypeView::FieldElement(cb, _)) => {
                self.lemma_same_fact_resolves(ca, a2->FieldElement_0);
                self.lemma_same_fact_resolves(cb, b2->FieldElement_0);
            },
            (TypeView::Integer(ca, _, _, _), TypeView::Integer(cb, _, _, _)) => {
                self.lemma_same_fact_resolves(ca, a2->Integer_0);
                self.lemma_same_fact_resolves(cb, b2->Integer_0);
            },
            _ => {},
        }
    }

    /// The end of a chain agrees with itself.
    proof fn lemma_leaf_agrees_with_itself(self, rel: Relation, ty: TypeView)
        requires
            self.wf(),
            self.covers(ty),
            ty is PolymorphicInteger,
        ensures
            self.leaves_agree(rel, self.leaf(ty), self.leaf(ty)),
    {
        self.lemma_last_variable(ty->PolymorphicInteger_1);
    }

    /// Two ends that agree go on agreeing in every later state.
    proof fn lemma_leaves_agree_later(
        self,
        earlier: ContextView,
        rel: Relation,
        a: TypeView,
        b: TypeView,
    )
        requires
            self.wf(),
            earlier.wf(),
            self.extends(earlier),
            earlier.covers(a),
            earlier.covers(b),
            earlier.leaves_agree(rel, earlier.leaf(a), earlier.leaf(b)),
        ensures
            self.leaves_agree(rel, self.leaf(a), self.leaf(b)),
    {
        self.lemma_leaf_later(earlier, a);
        self.lemma_leaf_later(earlier, b);
        self.lemma_extends_covers(earlier, a);
        self.lemma_extends_covers(earlier, b);
        match (earlier.leaf(a), earlier.leaf(b)) {
            (Leaf::Pending(v), Leaf::Pending(w)) => {
                self.lemma_leaf_agrees_with_itself(
                    rel,
                    TypeView::PolymorphicInteger(IsConst::Yes(None), v),
                );
            },
            (Leaf::Settled(end_a), Leaf::Settled(end_b)) => {
                earlier.lemma_leaf_covered(a);
                earlier.lemma_leaf_covered(b);
                let later_a = self.leaf(a)->Settled_0;
                let later_b = self.leaf(b)->Settled_0;
                match (end_a, end_b) {
                    (TypeView::FieldElement(ca, _), TypeView::FieldElement(cb, _)) => {
                        self.constness_agreement_is_stable(earlier, rel, ca, cb);
                    },
                    (TypeView::Integer(ca, _, _, _), TypeView::Integer(cb, _, _, _)) => {
                        self.constness_agreement_is_stable(earlier, rel, ca, cb);
                    },
                    _ => {},
                }
                if !(end_a is Error) && !(end_b is Error) {
                    self.lemma_extends_covers(earlier, end_a);
                    self.lemma_extends_covers(earlier, end_b);
                    self.lemma_leaves_agree_same_shape(rel, end_a, end_b, later_a, later_b);
                }
            },
            _ => {},
        }
    }

    /// The end of the chain of a covered type is covered.
    proof fn lemma_leaf_covered(self, ty: TypeView)
        requires
            self.wf(),
            self.covers(ty),
        ensures
            self.leaf(ty) matches Leaf::Settled(end) ==> self.covers(end),
    {
        if let TypeView::PolymorphicInteger(_, var) = ty {
            self.lemma_last_variable(var);
        }
    }

    /// Two types that agree go on agreeing in every later state: what a
    /// successful comparison has achieved is not undone by what follows.
    pub proof fn agreement_is_stable(
        self,
        earlier: ContextView,
        rel: Relation,
        a: TypeView,
        b: TypeView,
    )
        requires
            self.wf(),
            earlier.wf(),
            self.extends(earlier),
            earlier.covers(a),
            earlier.covers(b),
            earlier.agrees(rel, a, b),
        ensures
            self.agrees(rel, a, b),
        decreases a,
    {
        match (a, b) {
            (TypeView::Array(_, _, elem_a), TypeView::Array(_, _, elem_b)) => {
                self.agreement_is_stable(earlier, rel, *elem_a, *elem_b);
            },
            (TypeView::Tuple(elems_a), TypeView::Tuple(elems_b)) => {
                assert forall|i: int| 0 <= i < elems_a.len() implies self.agrees(
                    rel,
                    #[trigger] elems_a[i],
                    elems_b[i],
                ) by {
                    self.agreement_is_stable(earlier, rel, elems_a[i], elems_b[i]);
                }
            },
            _ => {
                self.lemma_leaves_agree_later(earlier, rel, a, b);
            },
        }
    }
}

impl ContextView {
    /// A bound variable ends where the type in its cell ends. So where that
    /// type, as it stood in an earlier state, agrees with `other`, the
    /// variable does, on either side.
    proof fn lemma_bound_variable_agrees(
        self,
        rel: Relation,
        c: IsConst,
        var: TypeVariableId,
        link: TypeView,
        other: TypeView,
    )
        requires
            self.wf(),
            self.has_variable(var),
            self.covers(link),
            self.covers(other),
            self.bindings[var.0 as int] matches BindingView::Bound(now) && now.same_shape(link),
        ensures
            self.leaves_agree(rel, self.leaf(link), self.leaf(other)) ==> self.leaves_agree(
                rel,
                self.leaf(TypeView::PolymorphicInteger(c, var)),
                self.leaf(other),
            ),
            self.leaves_agree(rel, self.leaf(other), self.leaf(link)) ==> self.leaves_agree(
                rel,
                self.leaf(other),
                self.leaf(TypeView::PolymorphicInteger(c, var)),
            ),
    {
        let now = self.bindings[var.0 as int]->Bound_0;
        self.lemma_type_depth_step(c, var);
        self.lemma_leaf_covered(other);
        if !(link is PolymorphicInteger) {
            if let Leaf::Settled(end) = self.leaf(other) {
                if !(end is Error) && !(link is Error) {
                    if self.leaves_agree(rel, self.leaf(link), self.leaf(other)) {
                        self.lemma_leaves_agree_same_shape(rel, link, end, now, end);
                    }
                    if self.leaves_agree(rel, self.leaf(other), self.leaf(link)) {
                        self.lemma_leaves_agree_same_shape(rel, end, link, end, now);
                    }
                }
            }
        }
    }

    /// Unification does not tell its sides apart: agreement under it goes
    /// both ways.
    proof fn lemma_unify_agreement_is_symmetric(self, a: Leaf, b: Leaf)
        requires
            self.leaves_agree(Relation::Unify, a, b),
        ensures
            self.leaves_agree(Relation::Unify, b, a),
    {
    }

    /// What is the same fact passes under either relation.
    proof fn lemma_unified_constness_agrees(self, rel: Relation, a: IsConst, b: IsConst)
        requires
            self.constness_agrees(Relation::Unify, a, b),
        ensures
            self.constness_agrees(rel, a, b),
            self.constness_agrees(rel, b, a),
    {
    }

    /// Where binding a variable to a type succeeds, the variable and the
    /// type agree afterwards, whichever side either stands on.
    pub proof fn try_bind_makes_agree(
        self,
        rel: Relation,
        ty: TypeView,
        var: TypeVariableId,
        var_const: IsConst,
        span: Span,
    )
        requires
            self.wf(),
            self.covers(ty),
            self.has_variable(var),
            self.bindings[var.0 as int] is Unbound,
            self.holds(var_const),
            self.try_bind(ty, var, var_const, span).1 is Ok,
        ensures
            ({
                let next = self.try_bind(ty, var, var_const, span).0;
                let variable = TypeView::PolymorphicInteger(var_const, var);
                &&& next.leaves_agree(rel, next.leaf(variable), next.leaf(ty))
                &&& next.leaves_agree(rel, next.leaf(ty), next.leaf(variable))
            }),
        decreases self.type_depth(ty),
    {
        let next = self.try_bind(ty, var, var_const, span).0;
        let variable = TypeView::PolymorphicInteger(var_const, var);
        self.lemma_try_bind(ty, var, var_const, span);
        next.lemma_extends_covers(self, ty);
        match ty {
            TypeView::FieldElement(c, _) => {
                self.lemma_bound_scalar_agrees(rel, ty, c, var, var_const, span);
            },
            TypeView::Integer(c, _, _, _) => {
                self.lemma_bound_scalar_agrees(rel, ty, c, var, var_const, span);
            },
            TypeView::PolymorphicInteger(c, own) => match self.bindings[own.0 as int] {
                BindingView::Bound(inner) => {
                    self.lemma_type_depth_step(c, own);
                    self.lemma_bindable_covers(inner);
                    self.try_bind_makes_agree(rel, inner, var, var_const, span);
                    next.lemma_extends_covers(self, inner);
                    next.lemma_extends_covers(self, variable);
                    assert(next.bindings[own.0 as int] is Bound);
                    next.lemma_bound_variable_agrees(rel, c, own, inner, variable);
                },
                BindingView::Unbound(_) => {
                    if own == var {
                        assert(self.last_variable(var) == var);
                    } else {
                        self.lemma_bind_variable(ty, c, var, var_const, span);
                        self.lemma_stamp(c, span);
                        let filled = self.stamp(c, span).with_binding(
                            var,
                            BindingView::Bound(ty.with_constness(c.stamped(span))),
                        );
                        filled.lemma_unify_constness(c, var_const, span);
                        assert(next.bindings == filled.bindings);
                        assert(next.last_variable(own) == own);
                        assert(next.last_variable(var) == next.last_variable(own));
                    }
                },
            },
            _ => {},
        }
    }

    /// Where a variable was bound to a field element or an integer, the
    /// two agree afterwards, whichever side either stands on.
    proof fn lemma_bound_scalar_agrees(
        self,
        rel: Relation,
        ty: TypeView,
        c: IsConst,
        var: TypeVariableId,
        var_const: IsConst,
        span: Span,
    )
        requires
            self.wf(),
            self.covers(ty),
            ty is FieldElement || ty is Integer,
            ty == ty.with_constness(c),
            self.has_variable(var),
            self.bindings[var.0 as int] is Unbound,
            self.holds(var_const),
        ensures
            ({
                let next = self.bind_variable(ty, c, var, var_const, span).0;
                let variable = TypeView::PolymorphicInteger(var_const, var);
                &&& next.leaves_agree(rel, next.leaf(variable), next.leaf(ty))
                &&& next.leaves_agree(rel, next.leaf(ty), next.leaf(variable))
            }),
    {
        let next = self.bind_variable(ty, c, var, var_const, span).0;
        self.lemma_bind_variable(ty, c, var, var_const, span);
        self.lemma_stamp(c, span);
        let bound = ty.with_constness(c.stamped(span));
        let filled = self.stamp(c, span).with_binding(var, BindingView::Bound(bound));
        filled.lemma_unify_constness(c, var_const, span);
        assert(next.bindings == filled.bindings);
        assert(next.last_variable(var) == var);
        assert(next.holds(c));
        if c.settled() {
            assert(next.resolve(c) == c);
            assert(next.resolve(c.stamped(span)) == c.stamped(span));
        }
        assert(next.constness_agrees(Relation::Unify, c.stamped(span), c));
        next.lemma_unified_constness_agrees(rel, c.stamped(span), c);
    }

    /// Where comparing a variable with a type succeeds, the two agree
    /// afterwards, on the sides on which they stood.
    proof fn lemma_relate_variable_makes_agree(
        self,
        rel: Relation,
        c: IsConst,
        var: TypeVariableId,
        other: TypeView,
        var_is_left: bool,
        span: Span,
    )
        requires
            self.wf(),
            self.holds(c),
            self.has_variable(var),
            self.covers(other),
            self.relate_variable(rel, c, var, other, var_is_left, span).1 is Ok,
        ensures
            ({
                let next = self.relate_variable(rel, c, var, other, var_is_left, span).0;
                let variable = TypeView::PolymorphicInteger(c, var);
                if var_is_left {
                    next.leaves_agree(rel, next.leaf(variable), next.leaf(other))
                } else {
                    next.leaves_agree(rel, next.leaf(other), next.leaf(variable))
                }
            }),
        decreases
            self.type_depth(TypeView::PolymorphicInteger(c, var)) + self.type_depth(other),
            0nat,
    {
        let next = self.relate_variable(rel, c, var, other, var_is_left, span).0;
        let variable = TypeView::PolymorphicInteger(c, var);
        self.lemma_relate_variable(rel, c, var, other, var_is_left, span);
        next.lemma_extends_covers(self, other);
        match self.bindings[var.0 as int] {
            BindingView::Bound(link) => {
                self.lemma_type_depth_step(c, var);
                self.lemma_bindable_covers(link);
                next.lemma_extends_covers(self, link);
                assert(next.bindings[var.0 as int] is Bound);
                next.lemma_bound_variable_agrees(rel, c, var, link, other);
                if rel is Unify || var_is_left {
                    self.lemma_relate_flat_makes_agree(rel, link, other, span);
                    if !var_is_left {
                        next.lemma_unify_agreement_is_symmetric(
                            next.leaf(link),
                            next.leaf(other),
                        );
                    }
                } else {
                    self.lemma_relate_flat_makes_agree(rel, other, link, span);
                }
            },
            BindingView::Unbound(_) => {
                self.try_bind_makes_agree(rel, other, var, c, span);
            },
        }
    }

    /// Where comparing two types without looking inside them succeeds, the
    /// ends of their chains agree afterwards.
    proof fn lemma_relate_flat_makes_agree(
        self,
        rel: Relation,
        a: TypeView,
        b: TypeView,
        span: Span,
    )
        requires
            self.wf(),
            self.covers(a),
            self.covers(b),
            self.relate_flat(rel, a, b, span).1 is Ok,
        ensures
            self.relate_flat(rel, a, b, span).0.leaves_agree(
                rel,
                self.relate_flat(rel, a, b, span).0.leaf(a),
                self.relate_flat(rel, a, b, span).0.leaf(b),
            ),
        decreases self.type_depth(a) + self.type_depth(b), 1nat,
    {
        match (a, b) {
            (TypeView::Error, _) => {},
            (_, TypeView::Error) => {},
            (TypeView::PolymorphicInteger(c, var), _) => {
                self.lemma_relate_variable_makes_agree(rel, c, var, b, true, span);
            },
            (_, TypeView::PolymorphicInteger(c, var)) => {
                self.lemma_relate_variable_makes_agree(rel, c, var, a, false, span);
            },
            (TypeView::FieldElement(ca, _), TypeView::FieldElement(cb, _)) => {
                self.constness_relate_makes_agree(rel, ca, cb, span);
            },
            (TypeView::Integer(ca, _, sign_a, bits_a), TypeView::Integer(cb, _, sign_b, bits_b)) => {
                if sign_a == sign_b && bits_a == bits_b {
                    self.constness_relate_makes_agree(rel, ca, cb, span);
                }
            },
            _ => {},
        }
    }

    /// Where a comparison succeeds, the two types agree in the context that
    /// it leaves behind: nothing is left to bind between them, their shapes
    /// are the same up to visibility, and their constnesses pass.
    pub proof fn relate_makes_agree(self, rel: Relation, a: TypeView, b: TypeView, span: Span)
        requires
            self.wf(),
            self.covers(a),
            self.covers(b),
            self.relate(rel, a, b, span).1 is Ok,
        ensures
            self.relate(rel, a, b, span).0.agrees(rel, a, b),
        decreases a,
    {
        match (a, b) {
            (TypeView::Array(_, size_a, elem_a), TypeView::Array(_, size_b, elem_b)) => {
                self.relate_makes_agree(rel, *elem_a, *elem_b, span);
            },
            (TypeView::Tuple(elems_a), TypeView::Tuple(elems_b)) => {
                self.lemma_relate_all_makes_agree(rel, elems_a, elems_b, span);
            },
            _ => {
                self.lemma_relate_flat_makes_agree(rel, a, b, span);
            },
        }
    }

    /// Where comparing two lists of types pair by pair succeeds, each pair
    /// agrees afterwards.
    proof fn lemma_relate_all_makes_agree(
        self,
        rel: Relation,
        xs: Seq<TypeView>,
        ys: Seq<TypeView>,
        span: Span,
    )
        requires
            self.wf(),
            self.covers_all(xs),
            self.covers_all(ys),
            xs.len() == ys.len(),
            self.relate_all(rel, xs, ys, span).1 is Ok,
        ensures
            forall|i: int|
                0 <= i < xs.len() ==> self.relate_all(rel, xs, ys, span).0.agrees(
                    rel,
                    #[trigger] xs[i],
                    ys[i],
                ),
        decreases xs,
    {
        if xs.len() > 0 {
            let next = self.relate_all(rel, xs, ys, span).0;
            let first = self.relate(rel, xs[0], ys[0], span);
            self.lemma_relate(rel, xs[0], ys[0], span);
            self.relate_makes_agree(rel, xs[0], ys[0], span);
            let rest_x = xs.drop_first();
            let rest_y = ys.drop_first();
            assert forall|i: int| 0 <= i < rest_x.len() implies first.0.covers(
                #[trigger] rest_x[i],
            ) && first.0.covers(rest_y[i]) by {
                first.0.lemma_extends_covers(self, xs[i + 1]);
                first.0.lemma_extends_covers(self, ys[i + 1]);
            }
            assert(first.0.covers_all(rest_y)) by {
                assert forall|i: int| 0 <= i < rest_y.len() implies first.0.covers(
                    #[trigger] rest_y[i],
                ) by {
                    first.0.lemma_extends_covers(self, ys[i + 1]);
                }
            }
            first.0.lemma_relate_all(rel, rest_x, rest_y, span);
            first.0.lemma_relate_all_makes_agree(rel, rest_x, rest_y, span);
            first.0.lemma_extends_covers(self, xs[0]);
            first.0.lemma_extends_covers(self, ys[0]);
            next.agreement_is_stable(first.0, rel, xs[0], ys[0]);
            assert forall|i: int| 0 <= i < xs.len() implies next.agrees(
                rel,
                #[trigger] xs[i],
                ys[i],
            ) by {
                if i > 0 {
                    assert(rest_x[i - 1] == xs[i]);
                    assert(rest_y[i - 1] == ys[i]);
                }
            }
        }
    }
}

} // verus!

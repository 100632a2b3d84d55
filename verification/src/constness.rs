//! The constness lattice: whether a value must be known at compile time.
//!
//! A constness is `Yes`, `No`, or a variable that stands for a fact still
//! pending. The cell of a variable lives in the context and is filled at most
//! once; what fills it may itself be a variable, so a constness is read by
//! following such links to their end.

use vstd::prelude::*;
use crate::basics::Span;
use crate::basics::TypeVariableId;
use crate::context::ContextView;
use crate::context::TypeContext;
use crate::unify::Relation;

verus! {

/// A constness. `Yes` and `No` carry the place in the source that made them
/// so, where one is known. `Maybe` names a cell of the context.
#[derive(Clone, Copy, Debug, PartialEq, Eq)]
pub enum IsConst {
    Yes(Option<Span>),
    No(Option<Span>),
    Maybe(TypeVariableId),
}

/// Which side of a failed comparison has a place in the source to point at.
#[derive(Clone, Copy, Debug, PartialEq, Eq)]
pub enum SpanKind {
    Const(Span),
    NonConst(Span),
    /// Neither side has one.
    Nowhere,
}

impl IsConst {
    /// This constness with `span` recorded as its origin. A variable has no
    /// origin of its own and stays as it is.
    pub open spec fn stamped(self, span: Span) -> IsConst {
        match self {
            IsConst::Yes(_) => IsConst::Yes(Some(span)),
            IsConst::No(_) => IsConst::No(Some(span)),
            IsConst::Maybe(id) => IsConst::Maybe(id),
        }
    }

    /// What a clash between a `Yes` recorded at `yes` and a `No` recorded at
    /// `no` reports: the origin of the `No` if it has one, else that of the
    /// `Yes`, else nothing.
    pub open spec fn clash(yes: Option<Span>, no: Option<Span>) -> SpanKind {
        match (yes, no) {
            (_, Some(span)) => SpanKind::NonConst(span),
            (Some(span), None) => SpanKind::Const(span),
            (None, None) => SpanKind::Nowhere,
        }
    }

    /// Whether two settled constnesses are the same; a `Yes` against a `No`
    /// is a clash, in either order.
    pub open spec fn agree(a: IsConst, b: IsConst) -> Result<(), SpanKind> {
        match (a, b) {
            (IsConst::Yes(y), IsConst::No(n)) => Err(Self::clash(y, n)),
            (IsConst::No(n), IsConst::Yes(y)) => Err(Self::clash(y, n)),
            _ => Ok(()),
        }
    }

    /// Whether a settled constness `a` may stand where `b` is expected: as
    /// `agree`, but a `Yes` is accepted where a `No` is expected.
    pub open spec fn accept(a: IsConst, b: IsConst) -> Result<(), SpanKind> {
        match (a, b) {
            (IsConst::No(n), IsConst::Yes(y)) => Err(Self::clash(y, n)),
            _ => Ok(()),
        }
    }

    /// The conjunction of two settled constnesses, recorded at `span`.
    pub open spec fn both(a: IsConst, b: IsConst, span: Span) -> IsConst {
        match (a, b) {
            (IsConst::Yes(_), IsConst::Yes(_)) => IsConst::Yes(Some(span)),
            _ => IsConst::No(Some(span)),
        }
    }

    /// The same constness but for the origin recorded in it.
    pub open spec fn same_fact(self, other: IsConst) -> bool {
        match (self, other) {
            (IsConst::Yes(_), IsConst::Yes(_)) => true,
            (IsConst::No(_), IsConst::No(_)) => true,
            (IsConst::Maybe(a), IsConst::Maybe(b)) => a == b,
            _ => false,
        }
    }

    /// Whether this is `Yes` or `No`, not a variable.
    pub open spec fn settled(self) -> bool {
        !(self is Maybe)
    }

    fn clash_of(yes: Option<Span>, no: Option<Span>) -> (kind: SpanKind)
        ensures
            kind == Self::clash(yes, no),
    {
        match (yes, no) {
            (_, Some(span)) => SpanKind::NonConst(span),
            (Some(span), None) => SpanKind::Const(span),
            (None, None) => SpanKind::Nowhere,
        }
    }
}

impl ContextView {
    /// The context after `span` is recorded as the origin of the constness at
    /// the end of the chain of `c`. Only a `Yes` or a `No` that a cell holds
    /// is changed: an empty cell has no origin to record.
    pub open spec fn stamp(self, c: IsConst, span: Span) -> ContextView {
        match c {
            IsConst::Maybe(id) => {
                let last = self.last_cell(id);
                match self.constness[last.0 as int] {
                    Some(value) => self.with_constness(last, Some(value.stamped(span))),
                    None => self,
                }
            },
            _ => self,
        }
    }

    /// The context after the empty cell `x` is resolved to `c`, recorded at
    /// `span`. Where the chain of `c` ends at `x` itself, the two already
    /// stand for the same pending fact, and nothing changes.
    pub open spec fn bind_constness(self, x: TypeVariableId, c: IsConst, span: Span) -> ContextView {
        if self.resolve(c) == IsConst::Maybe(x) {
            self
        } else {
            self.stamp(c, span).with_constness(x, Some(c.stamped(span)))
        }
    }

    /// Unifying `a` with `b`: the context afterwards, and whether they agree.
    ///
    /// Where the chain of `a` ends in an empty cell, that cell is resolved to
    /// `b`. Else, where the chain of `b` does, that cell is resolved to the
    /// end of `a`. Else both are settled, nothing changes, and they agree
    /// when both are `Yes` or both are `No`.
    pub open spec fn unify_constness(self, a: IsConst, b: IsConst, span: Span) -> (
        ContextView,
        Result<(), SpanKind>,
    ) {
        match (self.resolve(a), self.resolve(b)) {
            (IsConst::Maybe(x), _) => (self.bind_constness(x, b, span), Ok(())),
            (end, IsConst::Maybe(y)) => (self.bind_constness(y, end, span), Ok(())),
            (end_a, end_b) => (self, IsConst::agree(end_a, end_b)),
        }
    }

    /// Making `a` a subtype of `b`: as `unify_constness`, but two settled
    /// constnesses are compared by `accept`.
    pub open spec fn accept_constness(self, a: IsConst, b: IsConst, span: Span) -> (
        ContextView,
        Result<(), SpanKind>,
    ) {
        match (self.resolve(a), self.resolve(b)) {
            (IsConst::Maybe(x), _) => (self.bind_constness(x, b, span), Ok(())),
            (end, IsConst::Maybe(y)) => (self.bind_constness(y, end, span), Ok(())),
            (end_a, end_b) => (self, IsConst::accept(end_a, end_b)),
        }
    }

    /// The chain of `c` goes through the cell `target`.
    pub open spec fn passes(self, c: IsConst, target: TypeVariableId) -> bool
        decreases self.depth(c),
        when self.wf() && self.holds(c)
    {
        match c {
            IsConst::Maybe(id) => if id == target {
                true
            } else {
                match self.constness[id.0 as int] {
                    Some(inner) => {
                        proof {
                            self.lemma_depth_step(id);
                        }
                        self.passes(inner, target)
                    },
                    None => false,
                }
            },
            _ => false,
        }
    }

    /// The conjunction of `a` and `b`: the context afterwards, and the result.
    ///
    /// Where one of the two is still pending, its empty cell is resolved to
    /// the other, and the other is the result. Where `b` is a variable that
    /// the chain of `a` goes through, the result is `b`. Else it is `Yes` if
    /// both are, and `No` if either is, recorded at `span`.
    pub open spec fn and_constness(self, a: IsConst, b: IsConst, span: Span) -> (
        ContextView,
        IsConst,
    ) {
        match (self.resolve(a), self.resolve(b)) {
            (IsConst::Maybe(x), _) => (self.bind_constness(x, b, span), b),
            (end, IsConst::Maybe(y)) => (self.bind_constness(y, end, span), end),
            (end_a, end_b) => if b matches IsConst::Maybe(id) && self.passes(a, id) {
                (self, b)
            } else {
                (self, IsConst::both(end_a, end_b, span))
            },
        }
    }

    /// Whether `c` counts as const: a fact still pending does.
    pub open spec fn is_const(self, c: IsConst) -> bool {
        !(self.resolve(c) is No)
    }

    /// Recording an origin keeps the context well formed and changes no
    /// fact: the result is a later state with the same cells filled.
    pub proof fn lemma_stamp(self, c: IsConst, span: Span)
        requires
            self.wf(),
            self.holds(c),
        ensures
            self.stamp(c, span).wf(),
            self.stamp(c, span).extends(self),
            self.stamp(c, span).constness.len() == self.constness.len(),
            self.stamp(c, span).bindings == self.bindings,
    {
        if let IsConst::Maybe(id) = c {
            self.lemma_resolve_last(id);
            self.lemma_settle_keeps_wf(self.stamp(c, span));
        }
    }

    /// Resolving an empty cell keeps the context well formed, and the result
    /// is a later state.
    pub proof fn lemma_bind_constness(self, x: TypeVariableId, c: IsConst, span: Span)
        requires
            self.wf(),
            self.holds(c),
            x.0 < self.constness.len(),
            self.constness[x.0 as int] is None,
        ensures
            self.bind_constness(x, c, span).wf(),
            self.bind_constness(x, c, span).extends(self),
            self.bind_constness(x, c, span).constness.len() == self.constness.len(),
            self.bind_constness(x, c, span).bindings == self.bindings,
    {
        let next = self.bind_constness(x, c, span);
        if self.resolve(c) != IsConst::Maybe(x) {
            self.lemma_stamp(c, span);
            match c {
                IsConst::Maybe(target) => {
                    self.lemma_resolve_last(target);
                    self.lemma_link_keeps_wf(next, x, target);
                },
                _ => {
                    self.lemma_settle_keeps_wf(next);
                },
            }
        }
    }

    /// Unifying two constnesses keeps the context well formed, and the
    /// result is a later state.
    pub proof fn lemma_unify_constness(self, a: IsConst, b: IsConst, span: Span)
        requires
            self.wf(),
            self.holds(a),
            self.holds(b),
        ensures
            self.unify_constness(a, b, span).0.wf(),
            self.unify_constness(a, b, span).0.extends(self),
            self.unify_constness(a, b, span).0.constness.len() == self.constness.len(),
            self.unify_constness(a, b, span).0.bindings == self.bindings,
    {
        self.lemma_resolve_end(a);
        self.lemma_resolve_end(b);
        match (self.resolve(a), self.resolve(b)) {
            (IsConst::Maybe(x), _) => {
                self.lemma_bind_constness(x, b, span);
            },
            (end, IsConst::Maybe(y)) => {
                self.lemma_bind_constness(y, end, span);
            },
            _ => {},
        }
    }

    /// Making one constness a subtype of another keeps the context well
    /// formed, and the result is a later state.
    pub proof fn lemma_accept_constness(self, a: IsConst, b: IsConst, span: Span)
        requires
            self.wf(),
            self.holds(a),
            self.holds(b),
        ensures
            self.accept_constness(a, b, span).0.wf(),
            self.accept_constness(a, b, span).0.extends(self),
            self.accept_constness(a, b, span).0.constness.len() == self.constness.len(),
            self.accept_constness(a, b, span).0.bindings == self.bindings,
    {
        self.lemma_resolve_end(a);
        self.lemma_resolve_end(b);
        match (self.resolve(a), self.resolve(b)) {
            (IsConst::Maybe(x), _) => {
                self.lemma_bind_constness(x, b, span);
            },
            (end, IsConst::Maybe(y)) => {
                self.lemma_bind_constness(y, end, span);
            },
            _ => {},
        }
    }

    /// Taking a conjunction keeps the context well formed, the result is a
    /// later state, and the constness that comes out is over its cells.
    pub proof fn lemma_and_constness(self, a: IsConst, b: IsConst, span: Span)
        requires
            self.wf(),
            self.holds(a),
            self.holds(b),
        ensures
            self.and_constness(a, b, span).0.wf(),
            self.and_constness(a, b, span).0.extends(self),
            self.and_constness(a, b, span).0.constness.len() == self.constness.len(),
            self.and_constness(a, b, span).0.bindings == self.bindings,
            self.and_constness(a, b, span).0.holds(self.and_constness(a, b, span).1),
    {
        self.lemma_resolve_end(a);
        self.lemma_resolve_end(b);
        match (self.resolve(a), self.resolve(b)) {
            (IsConst::Maybe(x), _) => {
                self.lemma_bind_constness(x, b, span);
            },
            (end, IsConst::Maybe(y)) => {
                self.lemma_bind_constness(y, end, span);
            },
            _ => {},
        }
    }
}

impl TypeContext {
    /// The last cell of the chain that starts at the cell `id`.
    pub fn last_cell(&self, id: TypeVariableId) -> (last: TypeVariableId)
        requires
            self@.wf(),
            id.0 < self@.constness.len(),
        ensures
            last == self@.last_cell(id),
            last.0 < self@.constness.len(),
    {
        let mut current = id;
        loop
            invariant
                self@.wf(),
                current.0 < self@.constness.len(),
                self@.last_cell(current) == self@.last_cell(id),
            ensures
                current == self@.last_cell(id),
            decreases self@.depth(IsConst::Maybe(current)),
        {
            match self.constness_of(current) {
                Some(IsConst::Maybe(next)) => {
                    proof {
                        self@.lemma_depth_step(current);
                    }
                    current = next;
                },
                _ => {
                    break ;
                },
            }
        }
        current
    }

    /// The constness at the end of the chain of `c`.
    pub fn resolve(&self, c: IsConst) -> (end: IsConst)
        requires
            self@.wf(),
            self@.holds(c),
        ensures
            end == self@.resolve(c),
    {
        match c {
            IsConst::Maybe(id) => {
                let last = self.last_cell(id);
                proof {
                    self@.lemma_resolve_last(id);
                }
                match self.constness_of(last) {
                    Some(value) => value,
                    None => IsConst::Maybe(last),
                }
            },
            _ => c,
        }
    }

    /// Records `span` as the origin of the constness at the end of the chain of `c`.
    pub(crate) fn stamp(&mut self, c: IsConst, span: Span)
        requires
            old(self)@.wf(),
            old(self)@.holds(c),
        ensures
            final(self)@.wf(),
            final(self)@ == old(self)@.stamp(c, span),
    {
        proof {
            self@.lemma_stamp(c, span);
        }
        if let IsConst::Maybe(id) = c {
            let last = self.last_cell(id);
            if let Some(value) = self.constness_of(last) {
                self.set_constness(last, value.with_span(span));
            }
        }
    }

    /// Resolves the empty cell `x` to `c`, unless the chain of `c` ends at `x`.
    pub(crate) fn bind_constness(&mut self, x: TypeVariableId, c: IsConst, span: Span)
        requires
            old(self)@.wf(),
            old(self)@.holds(c),
            x.0 < old(self)@.constness.len(),
            old(self)@.constness[x.0 as int] is None,
        ensures
            final(self)@.wf(),
            final(self)@ == old(self)@.bind_constness(x, c, span),
    {
        proof {
            self@.lemma_bind_constness(x, c, span);
            self@.lemma_stamp(c, span);
        }
        let end = self.resolve(c);
        if let IsConst::Maybe(last) = end {
            if last == x {
                return ;
            }
        }
        self.stamp(c, span);
        self.set_constness(x, c.with_span(span));
    }
}

impl IsConst {
    /// This constness with `span` as its origin.
    pub fn with_span(self, span: Span) -> (stamped: IsConst)
        ensures
            stamped == self.stamped(span),
    {
        match self {
            IsConst::Yes(_) => IsConst::Yes(Some(span)),
            IsConst::No(_) => IsConst::No(Some(span)),
            IsConst::Maybe(id) => IsConst::Maybe(id),
        }
    }

    /// Records `new_span` as the origin of this constness: in the value
    /// itself for a `Yes` or a `No`, at the end of its chain for a variable.
    pub fn set_span(&mut self, new_span: Span, ctx: &mut TypeContext)
        requires
            old(ctx)@.wf(),
            old(ctx)@.holds(*old(self)),
        ensures
            final(ctx)@.wf(),
            final(ctx)@.extends(old(ctx)@),
            final(ctx)@ == old(ctx)@.stamp(*old(self), new_span),
            *final(self) == old(self).stamped(new_span),
    {
        proof {
            ctx@.lemma_stamp(*self, new_span);
        }
        ctx.stamp(*self, new_span);
        *self = self.with_span(new_span);
    }

    /// Unifies this constness with `other`, resolving pending variables as needed.
    pub fn unify(&self, other: &IsConst, span: Span, ctx: &mut TypeContext) -> (result: Result<
        (),
        SpanKind,
    >)
        requires
            old(ctx)@.wf(),
            old(ctx)@.holds(*self),
            old(ctx)@.holds(*other),
        ensures
            final(ctx)@.wf(),
            final(ctx)@.extends(old(ctx)@),
            (final(ctx)@, result) == old(ctx)@.unify_constness(*self, *other, span),
            result is Ok ==> final(ctx)@.constness_agrees(Relation::Unify, *self, *other),
        decreases old(ctx)@.depth(*self) + old(ctx)@.depth(*other),
    {
        proof {
            ctx@.lemma_unify_constness(*self, *other, span);
            if ctx@.unify_constness(*self, *other, span).1 is Ok {
                ctx@.constness_relate_makes_agree(Relation::Unify, *self, *other, span);
            }
            ctx@.lemma_resolve_end(*self);
            ctx@.lemma_resolve_end(*other);
        }
        match (*self, *other) {
            (IsConst::Maybe(id), this) => {
                if let IsConst::Maybe(id2) = this {
                    if id == id2 {
                        return Ok(());
                    }
                }
                match ctx.constness_of(id) {
                    Some(binding) => {
                        proof {
                            ctx@.lemma_depth_step(id);
                        }
                        binding.unify(&this, span, ctx)
                    },
                    None => {
                        ctx.bind_constness(id, this, span);
                        Ok(())
                    },
                }
            },
            (this, IsConst::Maybe(id)) => {
                match ctx.constness_of(id) {
                    Some(binding) => {
                        proof {
                            ctx@.lemma_depth_step(id);
                            ctx@.lemma_resolve_end(binding);
                        }
                        binding.unify(&this, span, ctx)
                    },
                    None => {
                        ctx.bind_constness(id, this, span);
                        Ok(())
                    },
                }
            },
            (IsConst::Yes(_), IsConst::Yes(_)) | (IsConst::No(_), IsConst::No(_)) => Ok(()),
            (IsConst::Yes(y), IsConst::No(n)) | (IsConst::No(n), IsConst::Yes(y)) => Err(
                Self::clash_of(y, n),
            ),
        }
    }

    /// Checks that this constness may stand where `other` is expected,
    /// resolving pending variables as needed. A `Yes` is accepted for a `No`.
    pub fn is_subtype_of(&self, other: &IsConst, span: Span, ctx: &mut TypeContext) -> (result:
        Result<(), SpanKind>)
        requires
            old(ctx)@.wf(),
            old(ctx)@.holds(*self),
            old(ctx)@.holds(*other),
        ensures
            final(ctx)@.wf(),
            final(ctx)@.extends(old(ctx)@),
            (final(ctx)@, result) == old(ctx)@.accept_constness(*self, *other, span),
            result is Ok ==> final(ctx)@.constness_agrees(Relation::Subtype, *self, *other),
        decreases old(ctx)@.depth(*self) + old(ctx)@.depth(*other),
    {
        proof {
            ctx@.lemma_accept_constness(*self, *other, span);
            if ctx@.accept_constness(*self, *other, span).1 is Ok {
                ctx@.constness_relate_makes_agree(Relation::Subtype, *self, *other, span);
            }
            ctx@.lemma_resolve_end(*self);
            ctx@.lemma_resolve_end(*other);
        }
        match (*self, *other) {
            (IsConst::Maybe(id), this) => {
                if let IsConst::Maybe(id2) = this {
                    if id == id2 {
                        return Ok(());
                    }
                }
                match ctx.constness_of(id) {
                    Some(binding) => {
                        proof {
                            ctx@.lemma_depth_step(id);
                        }
                        binding.is_subtype_of(&this, span, ctx)
                    },
                    None => {
                        ctx.bind_constness(id, this, span);
                        Ok(())
                    },
                }
            },
            (this, IsConst::Maybe(id)) => {
                match ctx.constness_of(id) {
                    Some(binding) => {
                        proof {
                            ctx@.lemma_depth_step(id);
                            ctx@.lemma_resolve_end(binding);
                        }
                        this.is_subtype_of(&binding, span, ctx)
                    },
                    None => {
                        ctx.bind_constness(id, this, span);
                        Ok(())
                    },
                }
            },
            (IsConst::Yes(_), IsConst::Yes(_)) | (IsConst::No(_), IsConst::No(_)) | (
                IsConst::Yes(_),
                IsConst::No(_),
            ) => Ok(()),
            (IsConst::No(n), IsConst::Yes(y)) => Err(Self::clash_of(y, n)),
        }
    }

    /// The conjunction of this constness and `other`, recorded at `span`.
    pub fn and(&self, other: &IsConst, span: Span, ctx: &mut TypeContext) -> (result: IsConst)
        requires
            old(ctx)@.wf(),
            old(ctx)@.holds(*self),
            old(ctx)@.holds(*other),
        ensures
            final(ctx)@.wf(),
            final(ctx)@.extends(old(ctx)@),
            final(ctx)@.holds(result),
            (final(ctx)@, result) == old(ctx)@.and_constness(*self, *other, span),
        decreases old(ctx)@.depth(*self) + old(ctx)@.depth(*other),
    {
        proof {
            ctx@.lemma_and_constness(*self, *other, span);
            ctx@.lemma_resolve_end(*self);
            ctx@.lemma_resolve_end(*other);
        }
        match (*self, *other) {
            (IsConst::Maybe(id), this) => {
                if let IsConst::Maybe(id2) = this {
                    if id == id2 {
                        return *self;
                    }
                }
                match ctx.constness_of(id) {
                    Some(binding) => {
                        proof {
                            ctx@.lemma_depth_step(id);
                        }
                        binding.and(&this, span, ctx)
                    },
                    None => {
                        ctx.bind_constness(id, this, span);
                        this
                    },
                }
            },
            (this, IsConst::Maybe(id)) => {
                match ctx.constness_of(id) {
                    Some(binding) => {
                        proof {
                            ctx@.lemma_depth_step(id);
                            ctx@.lemma_resolve_end(binding);
                        }
                        binding.and(&this, span, ctx)
                    },
                    None => {
                        ctx.bind_constness(id, this, span);
                        this
                    },
                }
            },
            (IsConst::Yes(_), IsConst::Yes(_)) => IsConst::Yes(Some(span)),
            _ => IsConst::No(Some(span)),
        }
    }

    /// Whether this constness counts as const. A variable whose chain ends in
    /// an empty cell does: a pending fact is taken to be const.
    pub fn is_const(&self, ctx: &TypeContext) -> (yes: bool)
        requires
            ctx@.wf(),
            ctx@.holds(*self),
        ensures
            yes == ctx@.is_const(*self),
        decreases ctx@.depth(*self),
    {
        match *self {
            IsConst::Yes(_) => true,
            IsConst::No(_) => false,
            IsConst::Maybe(id) => {
                match ctx.constness_of(id) {
                    Some(binding) => {
                        proof {
                            ctx@.lemma_depth_step(id);
                        }
                        binding.is_const(ctx)
                    },
                    None => true,
                }
            },
        }
    }
}

} // verus!

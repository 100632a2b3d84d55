//! The context: the cells of the unification variables, and the table of
//! struct definitions.
//!
//! A constness variable and a type variable each name a cell by its index.
//! A cell starts empty and is filled at most once. What fills it may name
//! another cell, and the context is well formed when following such links
//! always comes to an end. A struct type names an entry of the table.

use vstd::prelude::*;
use crate::basics::FuncId;
use crate::basics::Ident;
use crate::basics::Span;
use crate::basics::StructId;
use crate::basics::TypeVariableId;
use crate::constness::IsConst;
use crate::types::BindingView;
use crate::types::StructType;
use crate::types::StructView;
use crate::types::Type;
use crate::types::TypeBinding;
use crate::types::TypeView;

verus! {

/// The model of a [`TypeContext`]: what each cell holds.
pub struct ContextView {
    /// The cell of each constness variable: empty, or what it was resolved to.
    pub constness: Seq<Option<IsConst>>,
    /// The cell of each type variable.
    pub bindings: Seq<BindingView>,
    /// The struct definitions, each at the index that its identity names.
    pub structs: Seq<StructView>,
}

impl ContextView {
    /// A constness variable names a cell of this context.
    pub open spec fn holds(self, c: IsConst) -> bool {
        c matches IsConst::Maybe(id) ==> id.0 < self.constness.len()
    }

    /// `var` names a type cell of this context.
    pub open spec fn has_variable(self, var: TypeVariableId) -> bool {
        var.0 < self.bindings.len()
    }

    /// `id` names a struct definition of this context.
    pub open spec fn has_struct(self, id: StructId) -> bool {
        id.0 < self.structs.len()
    }

    /// A type that a type variable may be bound to: a field element, an
    /// integer, or another variable, over cells of this context.
    pub open spec fn bindable(self, ty: TypeView) -> bool {
        match ty {
            TypeView::FieldElement(c, _) => self.holds(c),
            TypeView::Integer(c, _, _, _) => self.holds(c),
            TypeView::PolymorphicInteger(c, var) => self.holds(c) && self.has_variable(var),
            _ => false,
        }
    }

    /// Every variable inside `ty` names a cell of this context, and every
    /// struct type inside it names a definition of this context.
    pub open spec fn covers(self, ty: TypeView) -> bool
        decreases ty,
    {
        match ty {
            TypeView::FieldElement(c, _) => self.holds(c),
            TypeView::Integer(c, _, _, _) => self.holds(c),
            TypeView::PolymorphicInteger(c, var) => self.holds(c) && self.has_variable(var),
            TypeView::Struct(_, id) => self.has_struct(id),
            TypeView::Array(_, _, elem) => self.covers(*elem),
            TypeView::Tuple(elems) => forall|i: int|
                0 <= i < elems.len() ==> self.covers(#[trigger] elems[i]),
            _ => true,
        }
    }

    /// What the cells hold is over cells of this context; a bound type
    /// variable holds a bindable type, an unbound one holds its own name; and
    /// each struct definition stands at the index that its identity names.
    pub open spec fn cells_valid(self) -> bool {
        &&& self.constness.len() <= usize::MAX
        &&& self.bindings.len() <= usize::MAX
        &&& forall|s: int| 0 <= s < self.structs.len() ==> (#[trigger] self.structs[s]).id.0 == s
        &&& forall|i: int|
            0 <= i < self.constness.len() ==> (#[trigger] self.constness[i] matches Some(c)
                ==> self.holds(c))
        &&& forall|v: int|
            0 <= v < self.bindings.len() ==> match #[trigger] self.bindings[v] {
                BindingView::Bound(ty) => self.bindable(ty),
                BindingView::Unbound(id) => id.0 == v,
            }
    }

    /// `rank` goes down along every link from one constness cell to another.
    pub open spec fn constness_ranked(self, rank: Seq<nat>) -> bool {
        &&& rank.len() == self.constness.len()
        &&& forall|i: int|
            0 <= i < self.constness.len() ==> (#[trigger] self.constness[i] matches Some(
                IsConst::Maybe(next),
            ) ==> next.0 < rank.len() && rank[next.0 as int] < rank[i])
    }

    /// `rank` goes down along every link from one type cell to another.
    pub open spec fn bindings_ranked(self, rank: Seq<nat>) -> bool {
        &&& rank.len() == self.bindings.len()
        &&& forall|v: int|
            0 <= v < self.bindings.len() ==> (#[trigger] self.bindings[v] matches BindingView::Bound(
                TypeView::PolymorphicInteger(_, next),
            ) ==> next.0 < rank.len() && rank[next.0 as int] < rank[v])
    }

    /// The context is well formed: its cells are valid, and no chain of links
    /// leads back to where it started.
    pub open spec fn wf(self) -> bool {
        &&& self.cells_valid()
        &&& exists|rank: Seq<nat>| self.constness_ranked(rank)
        &&& exists|rank: Seq<nat>| self.bindings_ranked(rank)
    }

    /// A ranking of the constness cells, where the context is well formed.
    pub closed spec fn constness_rank(self) -> Seq<nat> {
        choose|rank: Seq<nat>| self.constness_ranked(rank)
    }

    /// A ranking of the type cells, where the context is well formed.
    pub closed spec fn bindings_rank(self) -> Seq<nat> {
        choose|rank: Seq<nat>| self.bindings_ranked(rank)
    }

    /// How far a constness is from the end of its chain, at most.
    pub closed spec fn depth(self, c: IsConst) -> nat {
        match c {
            IsConst::Maybe(id) => self.constness_rank()[id.0 as int] + 1,
            _ => 0,
        }
    }

    /// How far a type is from the end of its chain of bound variables, at most.
    pub closed spec fn type_depth(self, ty: TypeView) -> nat {
        match ty {
            TypeView::PolymorphicInteger(_, var) => self.bindings_rank()[var.0 as int] + 1,
            _ => 0,
        }
    }

    /// The context with the constness cell `id` holding `value`.
    pub open spec fn with_constness(self, id: TypeVariableId, value: Option<IsConst>) -> ContextView {
        ContextView { constness: self.constness.update(id.0 as int, value), ..self }
    }

    /// The context with the type cell `var` holding `value`.
    pub open spec fn with_binding(self, var: TypeVariableId, value: BindingView) -> ContextView {
        ContextView { bindings: self.bindings.update(var.0 as int, value), ..self }
    }

    /// The constness at the end of the chain that starts at `c`: `Yes`, `No`,
    /// or a variable whose cell is still empty.
    pub open spec fn resolve(self, c: IsConst) -> IsConst
        decreases self.depth(c),
        when self.wf() && self.holds(c)
    {
        match c {
            IsConst::Maybe(id) => match self.constness[id.0 as int] {
                Some(inner) => self.resolve(inner),
                None => c,
            },
            _ => c,
        }
    }

    /// The last cell of the chain that starts at the cell `id`: the one that
    /// is empty or holds a `Yes` or a `No`.
    pub open spec fn last_cell(self, id: TypeVariableId) -> TypeVariableId
        decreases self.depth(IsConst::Maybe(id)),
        when self.wf() && id.0 < self.constness.len()
    {
        match self.constness[id.0 as int] {
            Some(IsConst::Maybe(next)) => self.last_cell(next),
            _ => id,
        }
    }

    /// The last cell of the chain of bound type variables that starts at the
    /// cell `var`: the one that is unbound or holds a field element or an integer.
    pub open spec fn last_variable(self, var: TypeVariableId) -> TypeVariableId
        decreases self.type_depth(TypeView::PolymorphicInteger(IsConst::Yes(None), var)),
        when self.wf() && self.has_variable(var)
    {
        match self.bindings[var.0 as int] {
            BindingView::Bound(TypeView::PolymorphicInteger(_, next)) => self.last_variable(next),
            _ => var,
        }
    }

    /// This context is a later state of `earlier`: no cell was removed or
    /// emptied, a filled constness cell holds the same fact, and a bound type
    /// cell holds the same type; only recorded origins may differ. The struct
    /// definitions of `earlier` are still there, unchanged.
    pub open spec fn extends(self, earlier: ContextView) -> bool {
        &&& earlier.constness.len() <= self.constness.len()
        &&& earlier.bindings.len() <= self.bindings.len()
        &&& earlier.structs.len() <= self.structs.len()
        &&& forall|s: int|
            0 <= s < earlier.structs.len() ==> #[trigger] self.structs[s] == earlier.structs[s]
        &&& forall|i: int|
            0 <= i < earlier.constness.len() ==> (#[trigger] earlier.constness[i] matches Some(c)
                ==> self.constness[i] matches Some(later) && later.same_fact(c))
        &&& forall|v: int|
            0 <= v < earlier.bindings.len() ==> (#[trigger] earlier.bindings[v] matches BindingView::Bound(
                ty,
            ) ==> self.bindings[v] matches BindingView::Bound(later) && later.same_shape(ty))
    }

    /// A later state of a later state is a later state.
    pub proof fn lemma_extends_trans(self, middle: ContextView, earlier: ContextView)
        requires
            self.extends(middle),
            middle.extends(earlier),
        ensures
            self.extends(earlier),
    {
        assert forall|i: int| 0 <= i < earlier.constness.len() implies (
        #[trigger] earlier.constness[i] matches Some(c) ==> self.constness[i] matches Some(later)
            && later.same_fact(c)) by {
            if earlier.constness[i] is Some {
                assert(middle.constness[i] is Some);
            }
        }
        assert forall|v: int| 0 <= v < earlier.bindings.len() implies (
        #[trigger] earlier.bindings[v] matches BindingView::Bound(ty) ==> self.bindings[v] matches BindingView::Bound(
            later,
        ) && later.same_shape(ty)) by {
            if earlier.bindings[v] is Bound {
                assert(middle.bindings[v] is Bound);
            }
        }
    }

    /// A later state covers every type that the earlier state covers.
    pub proof fn lemma_extends_covers(self, earlier: ContextView, ty: TypeView)
        requires
            self.extends(earlier),
            earlier.covers(ty),
        ensures
            self.covers(ty),
        decreases ty,
    {
        match ty {
            TypeView::Array(_, _, elem) => {
                self.lemma_extends_covers(earlier, *elem);
            },
            TypeView::Tuple(elems) => {
                assert forall|i: int| 0 <= i < elems.len() implies self.covers(
                    #[trigger] elems[i],
                ) by {
                    self.lemma_extends_covers(earlier, elems[i]);
                }
            },
            _ => {},
        }
    }

    /// What a filled constness cell holds lies nearer the end of the chain
    /// than the variable that names the cell.
    pub proof fn lemma_depth_step(self, id: TypeVariableId)
        requires
            self.wf(),
            id.0 < self.constness.len(),
            self.constness[id.0 as int] is Some,
        ensures
            self.holds(self.constness[id.0 as int]->0),
            self.depth(self.constness[id.0 as int]->0) < self.depth(IsConst::Maybe(id)),
    {
        let rank = self.constness_rank();
        assert(self.constness_ranked(rank));
        let inner = self.constness[id.0 as int];
        assert(inner is Some);
    }

    /// How far a variable is from the end of its chain does not depend on
    /// the constness written beside it.
    pub proof fn lemma_type_depth_of_variable(self, c1: IsConst, c2: IsConst, var: TypeVariableId)
        ensures
            self.type_depth(TypeView::PolymorphicInteger(c1, var)) == self.type_depth(
                TypeView::PolymorphicInteger(c2, var),
            ),
    {
    }

    /// What a bound type cell holds lies nearer the end of the chain than the
    /// variable that names the cell.
    pub proof fn lemma_type_depth_step(self, c: IsConst, var: TypeVariableId)
        requires
            self.wf(),
            self.has_variable(var),
            self.bindings[var.0 as int] is Bound,
        ensures
            self.bindable(self.bindings[var.0 as int]->Bound_0),
            self.type_depth(self.bindings[var.0 as int]->Bound_0) < self.type_depth(
                TypeView::PolymorphicInteger(c, var),
            ),
    {
        let rank = self.bindings_rank();
        assert(self.bindings_ranked(rank));
        let inner = self.bindings[var.0 as int];
        assert(inner is Bound);
    }

    /// A chain of constness cells ends at its last cell: the constness is what
    /// that cell holds, or the variable of that cell where it is empty.
    pub proof fn lemma_resolve_last(self, id: TypeVariableId)
        requires
            self.wf(),
            id.0 < self.constness.len(),
        ensures
            self.last_cell(id).0 < self.constness.len(),
            !(self.constness[self.last_cell(id).0 as int] matches Some(IsConst::Maybe(_))),
            self.resolve(IsConst::Maybe(id)) == match self.constness[self.last_cell(id).0 as int] {
                Some(value) => value,
                None => IsConst::Maybe(self.last_cell(id)),
            },
        decreases self.depth(IsConst::Maybe(id)),
    {
        match self.constness[id.0 as int] {
            Some(IsConst::Maybe(next)) => {
                self.lemma_depth_step(id);
                self.lemma_resolve_last(next);
            },
            Some(value) => {
                assert(self.resolve(value) == value);
            },
            None => {},
        }
    }

    /// The end of a chain is settled or an empty cell of the context.
    pub proof fn lemma_resolve_end(self, c: IsConst)
        requires
            self.wf(),
            self.holds(c),
        ensures
            self.holds(self.resolve(c)),
            self.resolve(c) matches IsConst::Maybe(end) ==> self.constness[end.0 as int] is None,
            self.resolve(self.resolve(c)) == self.resolve(c),
    {
        if let IsConst::Maybe(id) = c {
            self.lemma_resolve_last(id);
        }
    }

    /// Filling cells with settled constnesses, or replacing settled ones by
    /// settled ones, keeps the context well formed.
    pub proof fn lemma_settle_keeps_wf(self, next: ContextView)
        requires
            self.wf(),
            next.bindings == self.bindings,
            next.structs == self.structs,
            next.constness.len() == self.constness.len(),
            forall|i: int|
                0 <= i < self.constness.len() ==> #[trigger] next.constness[i]
                    == self.constness[i] || (next.constness[i] matches Some(c) && c.settled()),
        ensures
            next.wf(),
    {
        let rank = self.constness_rank();
        assert(self.constness_ranked(rank));
        assert(next.constness_ranked(rank)) by {
            assert forall|i: int| 0 <= i < next.constness.len() implies (
            #[trigger] next.constness[i] matches Some(IsConst::Maybe(n)) ==> n.0 < rank.len()
                && rank[n.0 as int] < rank[i]) by {
                assert(next.constness[i] == self.constness[i] || (next.constness[i] matches Some(c)
                    && c.settled()));
            }
        }
        assert(next.bindings_ranked(self.bindings_rank()));
        assert(next.cells_valid()) by {
            assert forall|i: int| 0 <= i < next.constness.len() implies (
            #[trigger] next.constness[i] matches Some(c) ==> next.holds(c)) by {
                assert(next.constness[i] == self.constness[i] || (next.constness[i] matches Some(c)
                    && c.settled()));
            }
            assert forall|v: int| 0 <= v < next.bindings.len() implies match #[trigger] next.bindings[v] {
                BindingView::Bound(ty) => next.bindable(ty),
                BindingView::Unbound(id) => id.0 == v,
            } by {
                assert(self.bindings[v] == next.bindings[v]);
            }
        }
    }

    /// Linking the empty cell `x` to the cell `target`, whose chain does not
    /// end at `x`, keeps the context well formed; other cells may at the same
    /// time be settled as in `lemma_settle_keeps_wf`.
    pub proof fn lemma_link_keeps_wf(self, next: ContextView, x: TypeVariableId, target: TypeVariableId)
        requires
            self.wf(),
            next.bindings == self.bindings,
            next.structs == self.structs,
            next.constness.len() == self.constness.len(),
            x.0 < self.constness.len(),
            target.0 < self.constness.len(),
            self.constness[x.0 as int] is None,
            self.last_cell(target) != x,
            next.constness[x.0 as int] == Some(IsConst::Maybe(target)),
            forall|i: int|
                0 <= i < self.constness.len() && i != x.0 ==> #[trigger] next.constness[i]
                    == self.constness[i] || ((next.constness[i] matches Some(c) && c.settled())
                    && !(self.constness[i] matches Some(IsConst::Maybe(_)))),
        ensures
            next.wf(),
    {
        let old_rank = self.constness_rank();
        assert(self.constness_ranked(old_rank));
        let bump = old_rank[target.0 as int] + 1;
        let rank = Seq::new(
            old_rank.len(),
            |i: int|
                if self.last_cell(TypeVariableId(i as usize)) == x {
                    old_rank[i] + bump
                } else {
                    old_rank[i]
                },
        );
        assert(next.constness_ranked(rank)) by {
            assert forall|i: int| 0 <= i < next.constness.len() implies (
            #[trigger] next.constness[i] matches Some(IsConst::Maybe(n)) ==> n.0 < rank.len()
                && rank[n.0 as int] < rank[i]) by {
                if let Some(IsConst::Maybe(n)) = next.constness[i] {
                    if i == x.0 {
                        assert(n == target);
                        assert(self.last_cell(TypeVariableId(i as usize)) == x);
                        assert(TypeVariableId(n.0 as int as usize) == n);
                    } else {
                        assert(next.constness[i] == self.constness[i]);
                        assert(self.constness[i] == Some(IsConst::Maybe(n)));
                        assert(TypeVariableId(n.0 as int as usize) == n);
                        assert(self.last_cell(TypeVariableId(i as usize)) == self.last_cell(n));
                    }
                }
            }
        }
        assert(next.bindings_ranked(self.bindings_rank()));
        assert(next.cells_valid()) by {
            assert forall|i: int| 0 <= i < next.constness.len() implies (
            #[trigger] next.constness[i] matches Some(c) ==> next.holds(c)) by {
                if i != x.0 {
                    assert(next.constness[i] == self.constness[i] || (next.constness[i] matches Some(
                        c,
                    ) && c.settled()));
                }
            }
            assert forall|v: int| 0 <= v < next.bindings.len() implies match #[trigger] next.bindings[v] {
                BindingView::Bound(ty) => next.bindable(ty),
                BindingView::Unbound(id) => id.0 == v,
            } by {
                assert(self.bindings[v] == next.bindings[v]);
            }
        }
    }

    /// Changing what bound type cells hold, without adding a link from one
    /// cell to another, keeps the context well formed. A cell may be bound to
    /// a field element or an integer, or go on pointing to the same variable.
    pub proof fn lemma_rebind_keeps_wf(self, next: ContextView)
        requires
            self.wf(),
            next.constness == self.constness,
            next.structs == self.structs,
            next.bindings.len() == self.bindings.len(),
            forall|v: int|
                0 <= v < self.bindings.len() ==> #[trigger] next.bindings[v] == self.bindings[v] || (
                next.bindings[v] matches BindingView::Bound(ty) && self.bindable(ty) && (
                ty matches TypeView::PolymorphicInteger(_, to)
                    ==> self.bindings[v] matches BindingView::Bound(
                    TypeView::PolymorphicInteger(_, from),
                ) && from == to)),
        ensures
            next.wf(),
    {
        let rank = self.bindings_rank();
        assert(self.bindings_ranked(rank));
        assert(next.bindings_ranked(rank)) by {
            assert forall|v: int| 0 <= v < next.bindings.len() implies (
            #[trigger] next.bindings[v] matches BindingView::Bound(
                TypeView::PolymorphicInteger(_, n),
            ) ==> n.0 < rank.len() && rank[n.0 as int] < rank[v]) by {
                assert(self.bindings[v] == self.bindings[v]);
            }
        }
        assert(next.constness_ranked(self.constness_rank()));
        assert(next.cells_valid()) by {
            assert forall|v: int| 0 <= v < next.bindings.len() implies match #[trigger] next.bindings[v] {
                BindingView::Bound(ty) => next.bindable(ty),
                BindingView::Unbound(id) => id.0 == v,
            } by {
                assert(self.bindings[v] == self.bindings[v]);
            }
        }
    }

    /// Binding the unbound variable `var` to another variable, whose chain
    /// does not end at `var`, keeps the context well formed.
    pub proof fn lemma_link_variable_keeps_wf(
        self,
        var: TypeVariableId,
        c: IsConst,
        target: TypeVariableId,
    )
        requires
            self.wf(),
            self.has_variable(var),
            self.has_variable(target),
            self.holds(c),
            self.bindings[var.0 as int] is Unbound,
            self.last_variable(target) != var,
        ensures
            self.with_binding(
                var,
                BindingView::Bound(TypeView::PolymorphicInteger(c, target)),
            ).wf(),
    {
        let next = self.with_binding(
            var,
            BindingView::Bound(TypeView::PolymorphicInteger(c, target)),
        );
        let old_rank = self.bindings_rank();
        assert(self.bindings_ranked(old_rank));
        let bump = old_rank[target.0 as int] + 1;
        let rank = Seq::new(
            old_rank.len(),
            |v: int|
                if self.last_variable(TypeVariableId(v as usize)) == var {
                    old_rank[v] + bump
                } else {
                    old_rank[v]
                },
        );
        assert(next.bindings_ranked(rank)) by {
            assert forall|v: int| 0 <= v < next.bindings.len() implies (
            #[trigger] next.bindings[v] matches BindingView::Bound(
                TypeView::PolymorphicInteger(_, n),
            ) ==> n.0 < rank.len() && rank[n.0 as int] < rank[v]) by {
                if let BindingView::Bound(TypeView::PolymorphicInteger(_, n)) = next.bindings[v] {
                    assert(TypeVariableId(n.0 as int as usize) == n);
                    if v == var.0 {
                        assert(n == target);
                        assert(self.last_variable(TypeVariableId(v as usize)) == var);
                    } else {
                        assert(next.bindings[v] == self.bindings[v]);
                        assert(self.last_variable(TypeVariableId(v as usize))
                            == self.last_variable(n));
                    }
                }
            }
        }
        assert(next.constness_ranked(self.constness_rank()));
        assert(next.cells_valid()) by {
            assert forall|v: int| 0 <= v < next.bindings.len() implies match #[trigger] next.bindings[v] {
                BindingView::Bound(ty) => next.bindable(ty),
                BindingView::Unbound(id) => id.0 == v,
            } by {
                if v != var.0 {
                    assert(next.bindings[v] == self.bindings[v]);
                }
            }
        }
    }

    /// A context with one more empty constness cell is well formed.
    pub proof fn lemma_new_constness_keeps_wf(self)
        requires
            self.wf(),
            self.constness.len() < usize::MAX,
        ensures
            (ContextView { constness: self.constness.push(None), ..self }).wf(),
    {
        let next = ContextView { constness: self.constness.push(None), ..self };
        let rank = self.constness_rank();
        assert(self.constness_ranked(rank));
        assert(next.constness_ranked(rank.push(0))) by {
            assert forall|i: int| 0 <= i < next.constness.len() implies (
            #[trigger] next.constness[i] matches Some(IsConst::Maybe(n)) ==> n.0 < rank.push(0).len()
                && rank.push(0)[n.0 as int] < rank.push(0)[i]) by {
                if i < self.constness.len() {
                    assert(next.constness[i] == self.constness[i]);
                }
            }
        }
        assert(next.bindings_ranked(self.bindings_rank()));
        assert(next.cells_valid()) by {
            assert forall|i: int| 0 <= i < next.constness.len() implies (
            #[trigger] next.constness[i] matches Some(c) ==> next.holds(c)) by {
                if i < self.constness.len() {
                    assert(next.constness[i] == self.constness[i]);
                }
            }
            assert forall|v: int| 0 <= v < next.bindings.len() implies match #[trigger] next.bindings[v] {
                BindingView::Bound(ty) => next.bindable(ty),
                BindingView::Unbound(id) => id.0 == v,
            } by {
                assert(self.bindings[v] == next.bindings[v]);
            }
        }
    }

    /// A context with one more unbound type cell is well formed.
    pub proof fn lemma_new_variable_keeps_wf(self)
        requires
            self.wf(),
            self.bindings.len() < usize::MAX,
        ensures
            (ContextView {
                bindings: self.bindings.push(
                    BindingView::Unbound(TypeVariableId(self.bindings.len() as usize)),
                ),
                ..self
            }).wf(),
    {
        let next = ContextView {
            bindings: self.bindings.push(
                BindingView::Unbound(TypeVariableId(self.bindings.len() as usize)),
            ),
            ..self
        };
        let rank = self.bindings_rank();
        assert(self.bindings_ranked(rank));
        assert(next.bindings_ranked(rank.push(0))) by {
            assert forall|v: int| 0 <= v < next.bindings.len() implies (
            #[trigger] next.bindings[v] matches BindingView::Bound(
                TypeView::PolymorphicInteger(_, n),
            ) ==> n.0 < rank.push(0).len() && rank.push(0)[n.0 as int] < rank.push(0)[v]) by {
                if v < self.bindings.len() {
                    assert(next.bindings[v] == self.bindings[v]);
                }
            }
        }
        assert(next.constness_ranked(self.constness_rank()));
        assert(next.cells_valid()) by {
            assert forall|v: int| 0 <= v < next.bindings.len() implies match #[trigger] next.bindings[v] {
                BindingView::Bound(ty) => next.bindable(ty),
                BindingView::Unbound(id) => id.0 == v,
            } by {
                if v < self.bindings.len() {
                    assert(next.bindings[v] == self.bindings[v]);
                }
            }
        }
    }
}

/// The cells of the unification variables of one compilation unit, and its
/// struct definitions.
pub struct TypeContext {
    constness: Vec<Option<IsConst>>,
    bindings: Vec<TypeBinding>,
    structs: Vec<StructType>,
}

impl View for TypeContext {
    type V = ContextView;

    closed spec fn view(&self) -> ContextView {
        ContextView {
            constness: self.constness@,
            bindings: Seq::new(self.bindings.len() as nat, |v: int| self.bindings[v]@),
            structs: Seq::new(self.structs.len() as nat, |s: int| self.structs[s]@),
        }
    }
}

impl TypeContext {
    /// A context without cells and without struct definitions.
    pub fn new() -> (ctx: TypeContext)
        ensures
            ctx@.wf(),
            ctx@.constness.len() == 0,
            ctx@.bindings.len() == 0,
            ctx@.structs.len() == 0,
    {
        let ctx = TypeContext { constness: Vec::new(), bindings: Vec::new(), structs: Vec::new() };
        proof {
            assert(ctx@.constness_ranked(Seq::empty()));
            assert(ctx@.bindings_ranked(Seq::empty()));
        }
        ctx
    }

    /// A fresh constness variable, with an empty cell.
    pub fn new_constness(&mut self) -> (c: IsConst)
        requires
            old(self)@.wf(),
            old(self)@.constness.len() < usize::MAX,
        ensures
            final(self)@.wf(),
            final(self)@.extends(old(self)@),
            final(self)@ == (ContextView {
                constness: old(self)@.constness.push(None),
                ..old(self)@
            }),
            c == IsConst::Maybe(TypeVariableId(old(self)@.constness.len() as usize)),
    {
        let id = TypeVariableId(self.constness.len());
        proof {
            self@.lemma_new_constness_keeps_wf();
        }
        self.constness.push(None);
        assert(self@.bindings =~= old(self)@.bindings);
        assert(self@.structs =~= old(self)@.structs);
        IsConst::Maybe(id)
    }

    /// A fresh type variable, unbound.
    pub fn new_type_variable(&mut self) -> (var: TypeVariableId)
        requires
            old(self)@.wf(),
            old(self)@.bindings.len() < usize::MAX,
        ensures
            final(self)@.wf(),
            final(self)@.extends(old(self)@),
            final(self)@ == (ContextView {
                bindings: old(self)@.bindings.push(BindingView::Unbound(var)),
                ..old(self)@
            }),
            var.0 == old(self)@.bindings.len(),
    {
        let var = TypeVariableId(self.bindings.len());
        proof {
            self@.lemma_new_variable_keeps_wf();
        }
        self.bindings.push(TypeBinding::Unbound(var));
        assert(self@.bindings =~= old(self)@.bindings.push(BindingView::Unbound(var)));
        assert(self@.structs =~= old(self)@.structs);
        var
    }

    /// How many constness cells there are.
    pub fn constness_count(&self) -> (n: usize)
        ensures
            n == self@.constness.len(),
    {
        self.constness.len()
    }

    /// How many type cells there are.
    pub fn variable_count(&self) -> (n: usize)
        ensures
            n == self@.bindings.len(),
    {
        self.bindings.len()
    }

    /// What the constness cell `id` holds.
    pub fn constness_of(&self, id: TypeVariableId) -> (value: Option<IsConst>)
        requires
            id.0 < self@.constness.len(),
        ensures
            value == self@.constness[id.0 as int],
    {
        self.constness[id.0]
    }

    /// What the type cell `var` holds.
    pub fn binding_of(&self, var: TypeVariableId) -> (binding: TypeBinding)
        requires
            self@.has_variable(var),
        ensures
            binding@ == self@.bindings[var.0 as int],
    {
        self.bindings[var.0].clone()
    }

    pub(crate) fn set_constness(&mut self, id: TypeVariableId, value: IsConst)
        requires
            id.0 < old(self)@.constness.len(),
        ensures
            final(self)@ == old(self)@.with_constness(id, Some(value)),
    {
        self.constness.set(id.0, Some(value));
        assert(self@.bindings =~= old(self)@.bindings);
        assert(self@.structs =~= old(self)@.structs);
    }

    pub(crate) fn set_binding(&mut self, var: TypeVariableId, ty: Type)
        requires
            old(self)@.has_variable(var),
        ensures
            final(self)@ == old(self)@.with_binding(var, BindingView::Bound(ty@)),
    {
        self.bindings.set(var.0, TypeBinding::Bound(ty));
        assert(self@.bindings =~= old(self)@.bindings.update(
            var.0 as int,
            BindingView::Bound(ty@),
        ));
        assert(self@.structs =~= old(self)@.structs);
    }

    /// How many struct definitions there are.
    pub fn struct_count(&self) -> (n: usize)
        ensures
            n == self@.structs.len(),
    {
        self.structs.len()
    }

    /// Enters a struct definition with the given name and fields, and gives
    /// it the next free identity.
    pub fn add_struct(&mut self, name: Ident, span: Span, fields: Vec<(Ident, Type)>) -> (id:
        StructId)
        requires
            old(self)@.wf(),
        ensures
            final(self)@.wf(),
            final(self)@.extends(old(self)@),
            id.0 == old(self)@.structs.len(),
            final(self)@.structs.len() == old(self)@.structs.len() + 1,
            final(self)@.structs[id.0 as int].id == id,
            final(self)@.structs[id.0 as int].name == name.contents@,
            final(self)@.structs[id.0 as int].span == span,
            final(self)@.structs[id.0 as int].methods == Map::<String, FuncId>::empty(),
            final(self)@.structs[id.0 as int].fields.len() == fields.len(),
            forall|i: int|
                0 <= i < fields.len() ==> #[trigger] final(self)@.structs[id.0 as int].fields[i] == (
                    fields[i].0.contents@,
                    fields[i].1@,
                ),
            final(self)@.constness == old(self)@.constness,
            final(self)@.bindings == old(self)@.bindings,
    {
        let id = StructId(self.structs.len());
        let def = StructType::new(id, name, span, fields);
        self.structs.push(def);
        proof {
            assert(self@.bindings =~= old(self)@.bindings);
            assert(self@.constness_ranked(old(self)@.constness_rank()));
            assert(self@.bindings_ranked(old(self)@.bindings_rank()));
            assert forall|s: int| 0 <= s < self@.structs.len() implies (
            #[trigger] self@.structs[s]).id.0 == s by {
                if s < old(self)@.structs.len() {
                    assert(self@.structs[s] == old(self)@.structs[s]);
                }
            }
        }
        id
    }

    /// The struct definition that `id` names.
    pub fn struct_def(&self, id: StructId) -> (def: &StructType)
        requires
            self@.has_struct(id),
        ensures
            def@ == self@.structs[id.0 as int],
    {
        &self.structs[id.0]
    }

    /// Whether every variable and every struct type inside `ty` names a cell
    /// or a definition of this context.
    pub fn covers(&self, ty: &Type) -> (yes: bool)
        ensures
            yes == self@.covers(ty@),
        decreases ty,
    {
        match ty {
            Type::FieldElement(c, _) => self.holds(c),
            Type::Integer(c, _, _, _) => self.holds(c),
            Type::PolymorphicInteger(c, var) => self.holds(c) && var.0 < self.variable_count(),
            Type::Struct(_, id) => id.0 < self.struct_count(),
            Type::Array(_, _, elem) => self.covers(elem),
            Type::Tuple(elems) => {
                let mut i: usize = 0;
                while i < elems.len()
                    invariant
                        i <= elems.len(),
                        *ty == Type::Tuple(*elems),
                        forall|k: int| 0 <= k < i ==> self@.covers(#[trigger] ty@->Tuple_0[k]),
                    decreases elems.len() - i,
                {
                    proof {
                        assert(decreases_to!(*ty => ty->Tuple_0));
                        assert(decreases_to!(ty->Tuple_0 => ty->Tuple_0[i as int]));
                        assert(ty@->Tuple_0[i as int] == elems[i as int]@);
                    }
                    if !self.covers(&elems[i]) {
                        return false;
                    }
                    i += 1;
                }
                true
            },
            _ => true,
        }
    }

    /// Whether a constness variable names a cell of this context.
    pub fn holds(&self, c: &IsConst) -> (yes: bool)
        ensures
            yes == self@.holds(*c),
    {
        match c {
            IsConst::Maybe(id) => id.0 < self.constness_count(),
            _ => true,
        }
    }
}

} // verus!

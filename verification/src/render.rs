//! How types are written out in messages.
//!
//! A type is written as its constness (`const ` or nothing), its visibility
//! (`pub ` or nothing) and its shape. A constness still pending is written
//! as `const `, and a type variable as the type it is bound to, or as
//! `Field` while it is unbound.

use vstd::prelude::*;
use vstd::string::*;
use crate::basics::ArraySize;
use crate::basics::FieldElementType;
use crate::basics::Signedness;
use crate::basics::TypeVariableId;
use crate::constness::IsConst;
use crate::context::ContextView;
use crate::context::TypeContext;
use crate::types::BindingView;
use crate::types::StructType;
use crate::types::Type;
use crate::types::TypeBinding;
use crate::types::TypeView;

verus! {

/// The character for the digit `d`.
pub open spec fn digit(d: nat) -> char {
    if d == 0 {
        '0'
    } else if d == 1 {
        '1'
    } else if d == 2 {
        '2'
    } else if d == 3 {
        '3'
    } else if d == 4 {
        '4'
    } else if d == 5 {
        '5'
    } else if d == 6 {
        '6'
    } else if d == 7 {
        '7'
    } else if d == 8 {
        '8'
    } else {
        '9'
    }
}

/// The number `n` in decimal, without leading zeros.
pub open spec fn decimal(n: nat) -> Seq<char>
    decreases n,
{
    if n < 10 {
        seq![digit(n)]
    } else {
        decimal(n / 10).push(digit(n % 10))
    }
}

/// How a visibility is written in front of a type.
pub open spec fn visibility_prefix(vis: FieldElementType) -> Seq<char> {
    match vis {
        FieldElementType::Private => ""@,
        FieldElementType::Public => "pub "@,
    }
}

/// How the size of an array is written.
pub open spec fn size_text(size: ArraySize) -> Seq<char> {
    match size {
        ArraySize::Variable => "[]"@,
        ArraySize::Fixed(length) => "["@ + decimal(length as nat) + "]"@,
    }
}

/// The letter that tells a signed integer type from an unsigned one.
pub open spec fn sign_letter(sign: Signedness) -> Seq<char> {
    match sign {
        Signedness::Signed => "i"@,
        Signedness::Unsigned => "u"@,
    }
}

impl ContextView {
    /// How a constness is written in front of a type.
    pub open spec fn constness_prefix(self, c: IsConst) -> Seq<char> {
        if self.is_const(c) {
            "const "@
        } else {
            ""@
        }
    }

    /// How a type that has no types inside it is written. A variable is not
    /// among these: see `variable_text`.
    pub open spec fn scalar_text(self, ty: TypeView) -> Seq<char> {
        match ty {
            TypeView::FieldElement(c, vis) => self.constness_prefix(c) + visibility_prefix(vis)
                + "Field"@,
            TypeView::Integer(c, vis, sign, bits) => self.constness_prefix(c) + visibility_prefix(
                vis,
            ) + sign_letter(sign) + decimal(bits as nat),
            TypeView::Struct(vis, id) => visibility_prefix(vis) + self.structs[id.0 as int].name,
            TypeView::Bool => "bool"@,
            TypeView::Unit => "()"@,
            TypeView::Error => "error"@,
            TypeView::Unspecified => "unspecified"@,
            _ => ""@,
        }
    }

    /// How the type variable `var` is written: as the type at the end of its
    /// chain of bound variables, or as `Field` where that chain ends unbound.
    pub open spec fn variable_text(self, var: TypeVariableId) -> Seq<char>
        decreases self.type_depth(TypeView::PolymorphicInteger(IsConst::Yes(None), var)),
        when self.wf() && self.has_variable(var)
    {
        match self.bindings[var.0 as int] {
            BindingView::Bound(TypeView::PolymorphicInteger(c, next)) => {
                proof {
                    self.lemma_type_depth_step(IsConst::Yes(None), var);
                    self.lemma_type_depth_of_variable(c, IsConst::Yes(None), next);
                }
                self.variable_text(next)
            },
            BindingView::Bound(inner) => self.scalar_text(inner),
            BindingView::Unbound(_) => "Field"@,
        }
    }

    /// How a type is written.
    pub open spec fn text(self, ty: TypeView) -> Seq<char>
        decreases ty,
    {
        match ty {
            TypeView::Array(vis, size, elem) => visibility_prefix(vis) + size_text(size)
                + self.text(*elem),
            TypeView::Tuple(elems) => "("@ + self.list_text(elems) + ")"@,
            TypeView::PolymorphicInteger(_, var) => self.variable_text(var),
            _ => self.scalar_text(ty),
        }
    }

    /// The types of `elems` as they are written, with `, ` between them.
    pub open spec fn list_text(self, elems: Seq<TypeView>) -> Seq<char>
        decreases elems,
    {
        if elems.len() == 0 {
            ""@
        } else if elems.len() == 1 {
            self.text(elems[0])
        } else {
            self.text(elems[0]) + ", "@ + self.list_text(elems.drop_first())
        }
    }

    /// How what a type cell holds is written.
    pub open spec fn binding_text(self, binding: BindingView) -> Seq<char> {
        match binding {
            BindingView::Bound(ty) => self.text(ty),
            BindingView::Unbound(_) => "Field"@,
        }
    }
}

fn digit_str(d: u128) -> (s: &'static str)
    requires
        d < 10,
    ensures
        s@ == seq![digit(d as nat)],
{
    proof {
        reveal_strlit("0");
        reveal_strlit("1");
        reveal_strlit("2");
        reveal_strlit("3");
        reveal_strlit("4");
        reveal_strlit("5");
        reveal_strlit("6");
        reveal_strlit("7");
        reveal_strlit("8");
        reveal_strlit("9");
    }
    let s = if d == 0 {
        "0"
    } else if d == 1 {
        "1"
    } else if d == 2 {
        "2"
    } else if d == 3 {
        "3"
    } else if d == 4 {
        "4"
    } else if d == 5 {
        "5"
    } else if d == 6 {
        "6"
    } else if d == 7 {
        "7"
    } else if d == 8 {
        "8"
    } else {
        "9"
    };
    assert(s@ =~= seq![digit(d as nat)]);
    s
}

/// Writes `n` in decimal.
pub fn decimal_string(n: u128) -> (s: String)
    ensures
        s@ == decimal(n as nat),
    decreases n,
{
    if n < 10 {
        String::from_str(digit_str(n))
    } else {
        let mut s = decimal_string(n / 10);
        s.append(digit_str(n % 10));
        assert(s@ =~= decimal(n as nat));
        s
    }
}

fn visibility_str(vis: FieldElementType) -> (s: &'static str)
    ensures
        s@ == visibility_prefix(vis),
{
    match vis {
        FieldElementType::Private => "",
        FieldElementType::Public => "pub ",
    }
}

impl ArraySize {
    /// Writes this size as it stands in an array type.
    pub fn to_string(&self) -> (s: String)
        ensures
            s@ == size_text(*self),
    {
        match self {
            ArraySize::Variable => String::from_str("[]"),
            ArraySize::Fixed(length) => {
                let mut s = String::from_str("[");
                let digits = decimal_string(*length);
                s.append(digits.as_str());
                s.append("]");
                s
            },
        }
    }
}

impl IsConst {
    /// Writes this constness as it stands in front of a type: `const ` or
    /// nothing. A constness still pending is written as `const `.
    pub fn to_string(&self, ctx: &TypeContext) -> (s: String)
        requires
            ctx@.wf(),
            ctx@.holds(*self),
        ensures
            s@ == ctx@.constness_prefix(*self),
    {
        if self.is_const(ctx) {
            String::from_str("const ")
        } else {
            String::from_str("")
        }
    }
}

impl StructType {
    /// Writes this definition: its name.
    pub fn to_string(&self) -> (s: String)
        ensures
            s@ == self@.name,
    {
        self.name.contents.clone()
    }
}

impl TypeContext {
    fn scalar_string(&self, ty: &Type) -> (s: String)
        requires
            self@.wf(),
            self@.covers(ty@),
        ensures
            s@ == self@.scalar_text(ty@),
    {
        match ty {
            Type::FieldElement(c, vis) => {
                let mut s = c.to_string(self);
                s.append(visibility_str(*vis));
                s.append("Field");
                s
            },
            Type::Integer(c, vis, sign, bits) => {
                let mut s = c.to_string(self);
                s.append(visibility_str(*vis));
                match sign {
                    Signedness::Signed => s.append("i"),
                    Signedness::Unsigned => s.append("u"),
                }
                let digits = decimal_string(*bits as u128);
                s.append(digits.as_str());
                s
            },
            Type::Struct(vis, id) => {
                let mut s = String::from_str(visibility_str(*vis));
                let name = self.struct_def(*id).to_string();
                s.append(name.as_str());
                s
            },
            Type::Bool => String::from_str("bool"),
            Type::Unit => String::from_str("()"),
            Type::Error => String::from_str("error"),
            Type::Unspecified => String::from_str("unspecified"),
            _ => String::from_str(""),
        }
    }

    fn variable_string(&self, var: TypeVariableId) -> (s: String)
        requires
            self@.wf(),
            self@.has_variable(var),
        ensures
            s@ == self@.variable_text(var),
        decreases self@.type_depth(TypeView::PolymorphicInteger(IsConst::Yes(None), var)),
    {
        match self.binding_of(var) {
            TypeBinding::Bound(Type::PolymorphicInteger(c, next)) => {
                proof {
                    self@.lemma_type_depth_step(IsConst::Yes(None), var);
                    self@.lemma_type_depth_of_variable(c, IsConst::Yes(None), next);
                }
                self.variable_string(next)
            },
            TypeBinding::Bound(inner) => {
                proof {
                    self@.lemma_type_depth_step(IsConst::Yes(None), var);
                }
                self.scalar_string(&inner)
            },
            TypeBinding::Unbound(_) => String::from_str("Field"),
        }
    }
}

impl Type {
    /// Writes this type as it is shown in messages.
    pub fn to_string(&self, ctx: &TypeContext) -> (s: String)
        requires
            ctx@.wf(),
            ctx@.covers(self@),
        ensures
            s@ == ctx@.text(self@),
        decreases self,
    {
        match self {
            Type::Array(vis, size, elem) => {
                let mut s = String::from_str(visibility_str(*vis));
                let size_string = size.to_string();
                s.append(size_string.as_str());
                let elem_string = elem.to_string(ctx);
                s.append(elem_string.as_str());
                s
            },
            Type::Tuple(elems) => {
                let ghost views = self@->Tuple_0;
                let mut s = String::from_str("");
                let mut i: usize = elems.len();
                while i > 0
                    invariant
                        i <= elems.len(),
                        *self == Type::Tuple(*elems),
                        views == self@->Tuple_0,
                        ctx@.wf(),
                        ctx@.covers(self@),
                        s@ == ctx@.list_text(views.skip(i as int)),
                    decreases i,
                {
                    i -= 1;
                    proof {
                        assert(decreases_to!(*self => self->Tuple_0));
                        assert(decreases_to!(self->Tuple_0 => self->Tuple_0[i as int]));
                        assert(views.skip(i as int)[0] == elems[i as int]@);
                        assert(views.skip(i as int).drop_first() =~= views.skip(i + 1));
                    }
                    let mut item = elems[i].to_string(ctx);
                    if i + 1 < elems.len() {
                        item.append(", ");
                        item.append(s.as_str());
                    }
                    s = item;
                }
                assert(views.skip(0) =~= views);
                let mut out = String::from_str("(");
                out.append(s.as_str());
                out.append(")");
                out
            },
            Type::PolymorphicInteger(_, var) => ctx.variable_string(*var),
            _ => ctx.scalar_string(self),
        }
    }
}

impl TypeBinding {
    /// Writes what a type cell holds: the type it is bound to, or `Field`
    /// while it is unbound.
    pub fn to_string(&self, ctx: &TypeContext) -> (s: String)
        requires
            ctx@.wf(),
            self@ matches BindingView::Bound(ty) ==> ctx@.covers(ty),
        ensures
            s@ == ctx@.binding_text(self@),
    {
        match self {
            TypeBinding::Bound(ty) => ty.to_string(ctx),
            TypeBinding::Unbound(_) => String::from_str("Field"),
        }
    }
}

} // verus!

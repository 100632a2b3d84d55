//! What later stages read off a type once checking is done: its description
//! in the interface, how many elements it has, and its fields.
//!
//! These do not change the context. A type variable that is still unbound
//! then stands for the default integer type, a private field element.

use vstd::prelude::*;
use vstd::string::*;
use crate::abi::AbiFEType;
use crate::abi::AbiType;
use crate::abi::Sign;
use crate::basics::ArraySize;
use crate::basics::FieldElementType;
use crate::basics::Signedness;
use crate::basics::TypeVariableId;
use crate::constness::IsConst;
use crate::context::ContextView;
use crate::context::TypeContext;
use crate::render::decimal;
use crate::render::decimal_string;
use crate::types::BindingView;
use crate::types::StructView;
use crate::types::Type;
use crate::types::TypeBinding;
use crate::types::TypeView;

verus! {

/// The visibility of an input, as the interface names it.
pub open spec fn abi_visibility(vis: FieldElementType) -> AbiFEType {
    match vis {
        FieldElementType::Private => AbiFEType::Private,
        FieldElementType::Public => AbiFEType::Public,
    }
}

/// The sign of an integer input, as the interface names it.
pub open spec fn abi_sign(sign: Signedness) -> Sign {
    match sign {
        Signedness::Unsigned => Sign::Unsigned,
        Signedness::Signed => Sign::Signed,
    }
}

/// The interface type of a field element or an integer; no other type has
/// one by itself.
pub open spec fn scalar_abi(ty: TypeView) -> Option<AbiType> {
    match ty {
        TypeView::FieldElement(_, vis) => Some(AbiType::Field(abi_visibility(vis))),
        TypeView::Integer(_, vis, sign, bits) => Some(
            AbiType::Integer { sign: abi_sign(sign), width: bits, visibility: abi_visibility(vis) },
        ),
        _ => None,
    }
}

impl ContextView {
    /// The interface type of the type variable `var`: that of the type at the
    /// end of its chain, or a private field where the chain ends unbound.
    pub open spec fn variable_abi(self, var: TypeVariableId) -> Option<AbiType>
        decreases self.type_depth(TypeView::PolymorphicInteger(IsConst::Yes(None), var)),
        when self.wf() && self.has_variable(var)
    {
        match self.bindings[var.0 as int] {
            BindingView::Bound(TypeView::PolymorphicInteger(c, next)) => {
                proof {
                    self.lemma_type_depth_step(IsConst::Yes(None), var);
                    self.lemma_type_depth_of_variable(c, IsConst::Yes(None), next);
                }
                self.variable_abi(next)
            },
            BindingView::Bound(inner) => scalar_abi(inner),
            BindingView::Unbound(_) => Some(AbiType::Field(AbiFEType::Private)),
        }
    }

    /// The interface type of `ty`, where it has one: a field element, an
    /// integer, a type variable, or an array of fixed length of these.
    pub open spec fn abi(self, ty: TypeView) -> Option<AbiType>
        decreases ty,
    {
        match ty {
            TypeView::Array(vis, ArraySize::Fixed(length), elem) => match self.abi(*elem) {
                Some(inner) => Some(
                    AbiType::Array {
                        visibility: abi_visibility(vis),
                        length,
                        typ: Box::new(inner),
                    },
                ),
                None => None,
            },
            TypeView::PolymorphicInteger(_, var) => self.variable_abi(var),
            _ => scalar_abi(ty),
        }
    }

    /// How many elements a value of type `ty` has: the length of an array,
    /// the number of fields of a struct or a tuple, and one for anything
    /// else. A length that does not fit in a `usize` is cut down to its low
    /// bits.
    pub open spec fn element_count(self, ty: TypeView) -> nat {
        match ty {
            TypeView::Array(_, ArraySize::Fixed(length), _) => (length as usize) as nat,
            TypeView::Struct(_, id) => self.structs[id.0 as int].fields.len(),
            TypeView::Tuple(elems) => elems.len(),
            _ => 1,
        }
    }

    /// The fields of `ty`, each with its name: those of the definition for a
    /// struct, the elements under their positions for a tuple, and none for
    /// any other type.
    pub open spec fn fields(self, ty: TypeView) -> Seq<(Seq<char>, TypeView)> {
        match ty {
            TypeView::Struct(_, id) => self.structs[id.0 as int].fields,
            TypeView::Tuple(elems) => Seq::new(elems.len(), |i: int| (decimal(i as nat), elems[i])),
            _ => Seq::empty(),
        }
    }
}

fn visibility_to_abi(vis: &FieldElementType) -> (abi: AbiFEType)
    ensures
        abi == abi_visibility(*vis),
{
    match vis {
        FieldElementType::Private => AbiFEType::Private,
        FieldElementType::Public => AbiFEType::Public,
    }
}

fn scalar_to_abi(ty: &Type) -> (abi: Option<AbiType>)
    ensures
        abi == scalar_abi(ty@),
{
    match ty {
        Type::FieldElement(_, vis) => Some(AbiType::Field(visibility_to_abi(vis))),
        Type::Integer(_, vis, sign, bits) => {
            let sign = match sign {
                Signedness::Unsigned => Sign::Unsigned,
                Signedness::Signed => Sign::Signed,
            };
            Some(AbiType::Integer { sign, width: *bits, visibility: visibility_to_abi(vis) })
        },
        _ => None,
    }
}

impl TypeContext {
    fn variable_to_abi(&self, var: TypeVariableId) -> (abi: Option<AbiType>)
        requires
            self@.wf(),
            self@.has_variable(var),
        ensures
            abi == self@.variable_abi(var),
        decreases self@.type_depth(TypeView::PolymorphicInteger(IsConst::Yes(None), var)),
    {
        match self.binding_of(var) {
            TypeBinding::Bound(Type::PolymorphicInteger(c, next)) => {
                proof {
                    self@.lemma_type_depth_step(IsConst::Yes(None), var);
                    self@.lemma_type_depth_of_variable(c, IsConst::Yes(None), next);
                }
                self.variable_to_abi(next)
            },
            TypeBinding::Bound(inner) => scalar_to_abi(&inner),
            TypeBinding::Unbound(_) => scalar_to_abi(&Type::default_int_type(None)),
        }
    }
}

impl Type {
    /// The description of this type in the interface, where it has one.
    pub fn try_as_abi_type(&self, ctx: &TypeContext) -> (abi: Option<AbiType>)
        requires
            ctx@.wf(),
            ctx@.covers(self@),
        ensures
            abi == ctx@.abi(self@),
        decreases self,
    {
        match self {
            Type::Array(vis, size, elem) => match size {
                ArraySize::Variable => None,
                ArraySize::Fixed(length) => match elem.try_as_abi_type(ctx) {
                    Some(inner) => Some(
                        AbiType::Array {
                            visibility: visibility_to_abi(vis),
                            length: *length,
                            typ: Box::new(inner),
                        },
                    ),
                    None => None,
                },
            },
            Type::PolymorphicInteger(_, var) => ctx.variable_to_abi(*var),
            _ => scalar_to_abi(self),
        }
    }

    /// The description of this type in the interface. The type must have
    /// one: see `try_as_abi_type`.
    pub fn as_abi_type(&self, ctx: &TypeContext) -> (abi: AbiType)
        requires
            ctx@.wf(),
            ctx@.covers(self@),
            ctx@.abi(self@) is Some,
        ensures
            ctx@.abi(self@) == Some(abi),
    {
        self.try_as_abi_type(ctx).unwrap()
    }

    /// How many elements a value of this type has. The type must not be an
    /// array whose length is left open.
    pub fn num_elements(&self, ctx: &TypeContext) -> (count: usize)
        requires
            ctx@.covers(self@),
            !(self@ matches TypeView::Array(_, ArraySize::Variable, _)),
        ensures
            count == ctx@.element_count(self@),
            self@ matches TypeView::Array(_, ArraySize::Fixed(length), _) ==> (length <= usize::MAX
                ==> count == length),
    {
        match self {
            Type::Array(_, ArraySize::Fixed(fixed_size), _) => {
                #[verifier::truncate]
                (*fixed_size as usize)
            },
            Type::Array(_, ArraySize::Variable, _) => unreached(),
            Type::Struct(_, id) => {
                let def = ctx.struct_def(*id);
                assert(def@.fields.len() == def.fields.len());
                def.fields.len()
            },
            Type::Tuple(fields) => fields.len(),
            _ => 1,
        }
    }

    /// The fields of this struct or tuple type, each with its name. The
    /// fields of a tuple are named by their positions.
    pub fn iter_fields(&self, ctx: &TypeContext) -> (fields: Vec<(String, Type)>)
        requires
            ctx@.covers(self@),
            self@ is Struct || self@ is Tuple,
        ensures
            fields.len() == ctx@.fields(self@).len(),
            forall|i: int|
                0 <= i < fields.len() ==> (#[trigger] fields[i]).0@ == ctx@.fields(self@)[i].0
                    && fields[i].1@ == ctx@.fields(self@)[i].1,
    {
        let mut out: Vec<(String, Type)> = Vec::new();
        match self {
            Type::Struct(_, id) => {
                let def = ctx.struct_def(*id);
                let mut i: usize = 0;
                while i < def.fields.len()
                    invariant
                        i <= def.fields.len(),
                        out.len() == i,
                        def@.fields.len() == def.fields.len(),
                        forall|k: int|
                            0 <= k < i ==> (#[trigger] out[k]).0@ == def@.fields[k].0 && out[k].1@
                                == def@.fields[k].1,
                    decreases def.fields.len() - i,
                {
                    out.push((def.fields[i].0.contents.clone(), def.fields[i].1.clone()));
                    i += 1;
                }
            },
            Type::Tuple(elems) => {
                let mut i: usize = 0;
                while i < elems.len()
                    invariant
                        i <= elems.len(),
                        out.len() == i,
                        forall|k: int|
                            0 <= k < i ==> (#[trigger] out[k]).0@ == decimal(k as nat) && out[k].1@
                                == elems[k]@,
                    decreases elems.len() - i,
                {
                    out.push((decimal_string(i as u128), elems[i].clone()));
                    i += 1;
                }
            },
            _ => {},
        }
        out
    }

    /// The type of the field called `field_name` of this struct or tuple
    /// type, if it has one. Where several fields have the name, the first
    /// counts.
    pub fn field_type(&self, field_name: &str, ctx: &TypeContext) -> (found: Option<Type>)
        requires
            ctx@.covers(self@),
        ensures
            match found {
                Some(ty) => StructView::first_named(ctx@.fields(self@), field_name@) == Some(ty@),
                None => StructView::first_named(ctx@.fields(self@), field_name@) is None,
            },
    {
        match self {
            Type::Struct(_, id) => {
                match ctx.struct_def(*id).get_field(field_name) {
                    Some(ty) => Some(ty.clone()),
                    None => None,
                }
            },
            Type::Tuple(elems) => {
                let ghost all = ctx@.fields(self@);
                let wanted = field_name.to_owned();
                assert(all.skip(0) =~= all);
                let mut i: usize = 0;
                while i < elems.len()
                    invariant
                        i <= elems.len(),
                        *self == Type::Tuple(*elems),
                        all == ctx@.fields(self@),
                        wanted@ == field_name@,
                        StructView::first_named(all, field_name@) == StructView::first_named(
                            all.skip(i as int),
                            field_name@,
                        ),
                    decreases elems.len() - i,
                {
                    proof {
                        assert(all.skip(i as int)[0] == all[i as int]);
                        assert(all.skip(i as int).drop_first() =~= all.skip(i + 1));
                    }
                    if decimal_string(i as u128) == wanted {
                        return Some(elems[i].clone());
                    }
                    i += 1;
                }
                None
            },
            _ => None,
        }
    }

    /// The type of the field called `field_name`. This type must be a struct
    /// or a tuple that has such a field: see `field_type`.
    pub fn get_field_type(&self, field_name: &str, ctx: &TypeContext) -> (ty: Type)
        requires
            ctx@.covers(self@),
            self@ is Struct || self@ is Tuple,
            StructView::first_named(ctx@.fields(self@), field_name@) is Some,
        ensures
            StructView::first_named(ctx@.fields(self@), field_name@) == Some(ty@),
    {
        self.field_type(field_name, ctx).unwrap()
    }
}

} // verus!

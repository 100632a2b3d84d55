//! The shapes a type can have, and the mathematical model of each.

use std::collections::HashMap;
use vstd::prelude::*;
use vstd::std_specs::cmp::PartialEqSpecImpl;
use crate::basics::ArraySize;
use crate::basics::FuncId;
use crate::basics::Ident;
use crate::basics::Span;
use crate::basics::FieldElementType;
use crate::basics::Signedness;
use crate::basics::StructId;
use crate::basics::TypeVariableId;
use crate::constness::IsConst;

verus! {

/// A type of the language.
///
/// A `PolymorphicInteger` is an integer whose width is not yet known; it names
/// the cell of the context that will hold the type it turns out to be. A
/// `Struct` names its definition in the context, and two struct types are the
/// same type exactly when they name the same definition.
#[derive(Debug, PartialEq, Eq)]
pub enum Type {
    FieldElement(IsConst, FieldElementType),
    Array(FieldElementType, ArraySize, Box<Type>),
    Integer(IsConst, FieldElementType, Signedness, u32),
    PolymorphicInteger(IsConst, TypeVariableId),
    Bool,
    Unit,
    Struct(FieldElementType, StructId),
    Tuple(Vec<Type>),
    /// A type that could not be determined, and was reported where that happened.
    Error,
    /// The type of a declaration that carries no annotation yet.
    Unspecified,
}

/// What a type variable's cell holds.
#[derive(Debug, PartialEq, Eq)]
pub enum TypeBinding {
    Bound(Type),
    Unbound(TypeVariableId),
}

/// The model of a [`Type`]: the same shapes, with a sequence for a tuple.
pub enum TypeView {
    FieldElement(IsConst, FieldElementType),
    Array(FieldElementType, ArraySize, Box<TypeView>),
    Integer(IsConst, FieldElementType, Signedness, u32),
    PolymorphicInteger(IsConst, TypeVariableId),
    Bool,
    Unit,
    Struct(FieldElementType, StructId),
    Tuple(Seq<TypeView>),
    Error,
    Unspecified,
}

impl TypeView {
    /// The same type but for the origins recorded in its constness. Only a
    /// field element, an integer or a variable has a constness of its own.
    pub open spec fn same_shape(self, other: TypeView) -> bool {
        match (self, other) {
            (TypeView::FieldElement(c1, v1), TypeView::FieldElement(c2, v2)) => c1.same_fact(c2)
                && v1 == v2,
            (TypeView::Integer(c1, v1, s1, b1), TypeView::Integer(c2, v2, s2, b2)) => c1.same_fact(
                c2,
            ) && v1 == v2 && s1 == s2 && b1 == b2,
            (
                TypeView::PolymorphicInteger(c1, var1),
                TypeView::PolymorphicInteger(c2, var2),
            ) => c1.same_fact(c2) && var1 == var2,
            _ => self == other,
        }
    }
}

/// The model of a [`TypeBinding`].
pub enum BindingView {
    Bound(TypeView),
    Unbound(TypeVariableId),
}

impl Type {
    /// The model of this type.
    pub open spec fn model(self) -> TypeView
        decreases self,
    {
        match self {
            Type::FieldElement(c, vis) => TypeView::FieldElement(c, vis),
            Type::Array(vis, size, elem) => TypeView::Array(vis, size, Box::new((*elem).model())),
            Type::Integer(c, vis, sign, bits) => TypeView::Integer(c, vis, sign, bits),
            Type::PolymorphicInteger(c, var) => TypeView::PolymorphicInteger(c, var),
            Type::Bool => TypeView::Bool,
            Type::Unit => TypeView::Unit,
            Type::Struct(vis, id) => TypeView::Struct(vis, id),
            Type::Tuple(elems) => TypeView::Tuple(
                Seq::new(
                    elems.len() as nat,
                    |i: int|
                        if 0 <= i < elems.len() {
                            elems[i].model()
                        } else {
                            TypeView::Error
                        },
                ),
            ),
            Type::Error => TypeView::Error,
            Type::Unspecified => TypeView::Unspecified,
        }
    }
}

impl View for Type {
    type V = TypeView;

    open spec fn view(&self) -> TypeView {
        self.model()
    }
}

impl View for TypeBinding {
    type V = BindingView;

    open spec fn view(&self) -> BindingView {
        match self {
            TypeBinding::Bound(ty) => BindingView::Bound(ty@),
            TypeBinding::Unbound(id) => BindingView::Unbound(*id),
        }
    }
}

impl Clone for Type {
    fn clone(&self) -> (copy: Type)
        ensures
            copy@ == self@,
        decreases self,
    {
        match self {
            Type::FieldElement(c, vis) => Type::FieldElement(*c, *vis),
            Type::Array(vis, size, elem) => Type::Array(*vis, *size, Box::new((&**elem).clone())),
            Type::Integer(c, vis, sign, bits) => Type::Integer(*c, *vis, *sign, *bits),
            Type::PolymorphicInteger(c, var) => Type::PolymorphicInteger(*c, *var),
            Type::Bool => Type::Bool,
            Type::Unit => Type::Unit,
            Type::Struct(vis, id) => Type::Struct(*vis, *id),
            Type::Tuple(elems) => {
                let mut copies: Vec<Type> = Vec::new();
                let mut i: usize = 0;
                while i < elems.len()
                    invariant
                        i <= elems.len(),
                        copies.len() == i,
                        forall|k: int| 0 <= k < i ==> (#[trigger] copies[k])@ == elems[k]@,
                        *self == Type::Tuple(*elems),
                    decreases elems.len() - i,
                {
                    proof {
                        assert(decreases_to!(*self => self->Tuple_0));
                        assert(decreases_to!(self->Tuple_0 => self->Tuple_0[i as int]));
                    }
                    copies.push(elems[i].clone());
                    i += 1;
                }
                assert(Type::Tuple(copies)@->Tuple_0 =~= self@->Tuple_0);
                Type::Tuple(copies)
            },
            Type::Error => Type::Error,
            Type::Unspecified => Type::Unspecified,
        }
    }
}

impl Clone for TypeBinding {
    fn clone(&self) -> (copy: TypeBinding)
        ensures
            copy@ == self@,
    {
        match self {
            TypeBinding::Bound(ty) => TypeBinding::Bound(ty.clone()),
            TypeBinding::Unbound(id) => TypeBinding::Unbound(*id),
        }
    }
}

/// The definition of a struct: its name, its fields in the order in which
/// they were declared, and the methods found for it so far.
///
/// Two definitions are the same when they have the same identity, whatever
/// their fields are.
#[derive(Debug)]
pub struct StructType {
    pub id: StructId,
    pub name: Ident,
    pub fields: Vec<(Ident, Type)>,
    pub methods: HashMap<String, FuncId>,
    pub span: Span,
}

/// The model of a [`StructType`]: its identity, its name, the name and the
/// type of each field, in order, its methods by name, and the place where
/// it was declared.
pub struct StructView {
    pub id: StructId,
    pub name: Seq<char>,
    pub fields: Seq<(Seq<char>, TypeView)>,
    pub methods: Map<String, FuncId>,
    pub span: Span,
}

impl View for StructType {
    type V = StructView;

    open spec fn view(&self) -> StructView {
        StructView {
            id: self.id,
            name: self.name.contents@,
            fields: Seq::new(
                self.fields.len() as nat,
                |i: int| (self.fields[i].0.contents@, self.fields[i].1@),
            ),
            methods: self.methods@,
            span: self.span,
        }
    }
}

impl PartialEq for StructType {
    fn eq(&self, other: &StructType) -> (same: bool) {
        self.id == other.id
    }
}

impl PartialEqSpecImpl for StructType {
    open spec fn obeys_eq_spec() -> bool {
        true
    }

    open spec fn eq_spec(&self, other: &StructType) -> bool {
        self.id == other.id
    }
}

impl Eq for StructType {

}

impl StructView {
    /// The type of the first field called `name`, if there is one.
    pub open spec fn field(self, name: Seq<char>) -> Option<TypeView> {
        Self::first_named(self.fields, name)
    }

    /// The type of the first entry of `fields` whose name is `name`.
    pub open spec fn first_named(fields: Seq<(Seq<char>, TypeView)>, name: Seq<char>) -> Option<
        TypeView,
    >
        decreases fields.len(),
    {
        if fields.len() == 0 {
            None
        } else if fields[0].0 == name {
            Some(fields[0].1)
        } else {
            Self::first_named(fields.drop_first(), name)
        }
    }
}

impl StructType {
    /// A definition with the given identity, name and fields, and no methods yet.
    pub fn new(id: StructId, name: Ident, span: Span, fields: Vec<(Ident, Type)>) -> (def:
        StructType)
        ensures
            def.id == id,
            def.name == name,
            def.span == span,
            def.fields == fields,
            def.methods@ == Map::<String, FuncId>::empty(),
    {
        StructType { id, fields, name, span, methods: HashMap::new() }
    }

    /// The type of the first field called `field_name`, if there is one.
    pub fn get_field(&self, field_name: &str) -> (found: Option<&Type>)
        ensures
            match found {
                Some(ty) => self@.field(field_name@) == Some(ty@),
                None => self@.field(field_name@) is None,
            },
    {
        let wanted = field_name.to_owned();
        assert(self@.fields.skip(0) =~= self@.fields);
        let mut i: usize = 0;
        while i < self.fields.len()
            invariant
                i <= self.fields.len(),
                wanted@ == field_name@,
                self@.field(field_name@) == StructView::first_named(
                    self@.fields.skip(i as int),
                    field_name@,
                ),
            decreases self.fields.len() - i,
        {
            proof {
                assert(self@.fields.skip(i as int)[0] == self@.fields[i as int]);
                assert(self@.fields.skip(i as int).drop_first() =~= self@.fields.skip(i + 1));
            }
            if self.fields[i].0.contents == wanted {
                return Some(&self.fields[i].1);
            }
            i += 1;
        }
        None
    }
}

impl TypeView {
    /// Whether a value of this type may stand in a constraint.
    pub open spec fn constrainable(self) -> bool {
        self is FieldElement || self is Integer || self is PolymorphicInteger || self is Array
            || self is Error || self is Bool
    }

    /// Whether this is a field element, an integer or an array marked public.
    pub open spec fn public(self) -> bool {
        match self {
            TypeView::FieldElement(_, vis) => vis is Public,
            TypeView::Integer(_, vis, _, _) => vis is Public,
            TypeView::Array(vis, _, _) => vis is Public,
            _ => false,
        }
    }
}

impl Type {
    /// The type of a private field element that is not const.
    pub fn witness(span: Option<Span>) -> (ty: Type)
        ensures
            ty@ == TypeView::FieldElement(IsConst::No(span), FieldElementType::Private),
    {
        Type::FieldElement(IsConst::No(span), FieldElementType::Private)
    }

    /// The type of a public field element that is not const.
    pub fn public(span: Option<Span>) -> (ty: Type)
        ensures
            ty@ == TypeView::FieldElement(IsConst::No(span), FieldElementType::Public),
    {
        Type::FieldElement(IsConst::No(span), FieldElementType::Public)
    }

    /// The type of a private field element that is const.
    pub fn constant(span: Option<Span>) -> (ty: Type)
        ensures
            ty@ == TypeView::FieldElement(IsConst::Yes(span), FieldElementType::Private),
    {
        Type::FieldElement(IsConst::Yes(span), FieldElementType::Private)
    }

    /// The type that an integer literal has when nothing else decides it: a
    /// private field element that is not const.
    pub fn default_int_type(span: Option<Span>) -> (ty: Type)
        ensures
            ty@ == TypeView::FieldElement(IsConst::No(span), FieldElementType::Private),
    {
        Type::witness(span)
    }

    /// Whether a value of this type may stand in a constraint.
    pub fn can_be_used_in_constrain(&self) -> (yes: bool)
        ensures
            yes == self@.constrainable(),
    {
        match self {
            Type::FieldElement(_, _) => true,
            Type::Integer(_, _, _, _) => true,
            Type::PolymorphicInteger(_, _) => true,
            Type::Array(_, _, _) => true,
            Type::Error => true,
            Type::Bool => true,
            _ => false,
        }
    }

    /// The size and the element type of this type, if it is an array.
    pub fn array(&self) -> (parts: Option<(&ArraySize, &Type)>)
        ensures
            match self@ {
                TypeView::Array(_, size, elem) => parts matches Some((s, e)) && *s == size && e@
                    == *elem,
                _ => parts is None,
            },
    {
        match self {
            Type::Array(_, sized, typ) => Some((sized, &**typ)),
            _ => None,
        }
    }

    /// Whether this is an array whose length is fixed.
    pub fn is_fixed_sized_array(&self) -> (yes: bool)
        ensures
            yes == (self@ matches TypeView::Array(_, size, _) && size is Fixed),
    {
        match self.array() {
            None => false,
            Some((sized, _)) => sized.is_fixed(),
        }
    }

    /// Whether this is an array whose length is left open.
    pub fn is_variable_sized_array(&self) -> (yes: bool)
        ensures
            yes == (self@ matches TypeView::Array(_, size, _) && size is Variable),
    {
        match self.array() {
            None => false,
            Some((sized, _)) => !sized.is_fixed(),
        }
    }

    /// Whether this is a field element, an integer or an array marked public.
    pub fn is_public(&self) -> (yes: bool)
        ensures
            yes == self@.public(),
    {
        match self {
            Type::FieldElement(_, FieldElementType::Public) => true,
            Type::Integer(_, FieldElementType::Public, _, _) => true,
            Type::Array(FieldElementType::Public, _, _) => true,
            _ => false,
        }
    }
}

} // verus!

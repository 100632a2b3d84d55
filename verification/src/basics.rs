//! Small value types that the rest of the library is built from.

use vstd::prelude::*;

verus! {

/// A region of source text, as a half-open range of byte offsets.
#[derive(Clone, Copy, Debug, PartialEq, Eq, Structural, Hash)]
pub struct Span {
    pub start: u32,
    pub end: u32,
}

impl Span {
    /// The span that covers `start..end`.
    pub fn new(start: u32, end: u32) -> (span: Span)
        ensures
            span == (Span { start, end }),
    {
        Span { start, end }
    }
}

/// Whether a value is a public or a private input of the circuit.
#[derive(Clone, Copy, Debug, PartialEq, Eq, Structural, Hash)]
pub enum FieldElementType {
    Private,
    Public,
}

/// Whether an integer type is signed.
#[derive(Clone, Copy, Debug, PartialEq, Eq, Structural, Hash)]
pub enum Signedness {
    Unsigned,
    Signed,
}

/// The length of an array type: fixed at compile time, or left open.
#[derive(Clone, Copy, Debug, PartialEq, Eq, Structural, Hash)]
pub enum ArraySize {
    Variable,
    Fixed(u128),
}

impl ArraySize {
    /// A size is accepted where `expected` is asked for when the two are the
    /// same, or when `expected` leaves the length open and `self` fixes it.
    pub open spec fn fits(self, expected: ArraySize) -> bool {
        self == expected || (self is Fixed && expected is Variable)
    }

    pub fn is_fixed(&self) -> (fixed: bool)
        ensures
            fixed == (*self is Fixed),
    {
        match self {
            ArraySize::Fixed(_) => true,
            ArraySize::Variable => false,
        }
    }

    pub fn is_subtype_of(&self, expected: &ArraySize) -> (accepted: bool)
        ensures
            accepted == self.fits(*expected),
    {
        match (*self, *expected) {
            (ArraySize::Fixed(_), ArraySize::Variable) => true,
            (ArraySize::Fixed(n), ArraySize::Fixed(m)) => n == m,
            (ArraySize::Variable, ArraySize::Variable) => true,
            (ArraySize::Variable, ArraySize::Fixed(_)) => false,
        }
    }
}

/// Names a unification variable: the index of its cell in the context.
#[derive(Clone, Copy, Debug, PartialEq, Eq, Structural, Hash)]
pub struct TypeVariableId(pub usize);

/// Names a struct definition: the index of its entry in the context.
#[derive(Clone, Copy, Debug, PartialEq, Eq, Structural, Hash)]
pub struct StructId(pub usize);

/// Names a function of the program.
#[derive(Clone, Copy, Debug, PartialEq, Eq, Structural, Hash)]
pub struct FuncId(pub usize);

/// A name as written in the source, with the place where it stands.
#[derive(Debug, PartialEq, Eq)]
pub struct Ident {
    pub contents: String,
    pub span: Span,
}

impl Clone for Ident {
    fn clone(&self) -> (copy: Ident)
        ensures
            copy.contents@ == self.contents@,
            copy.span == self.span,
    {
        Ident { contents: self.contents.clone(), span: self.span }
    }
}

impl Ident {
    /// The name `contents`, standing at `span`.
    pub fn new(contents: String, span: Span) -> (ident: Ident)
        ensures
            ident.contents@ == contents@,
            ident.span == span,
    {
        Ident { contents, span }
    }
}

} // verus!

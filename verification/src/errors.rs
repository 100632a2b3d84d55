//! The diagnostics that type checking reports.

use vstd::prelude::*;
use vstd::string::*;
use crate::basics::Span;
use crate::constness::SpanKind;

verus! {

/// An error found while checking types.
#[derive(Debug, PartialEq, Eq)]
pub enum TypeCheckError {
    /// An expression has another type than the one expected of it.
    TypeMismatch { expected_typ: String, expr_typ: String, expr_span: Span },
    /// A message in words, about a place in the source.
    Unstructured { msg: String, span: Span },
}

impl Clone for TypeCheckError {
    fn clone(&self) -> (copy: TypeCheckError)
        ensures
            match (*self, copy) {
                (
                    TypeCheckError::TypeMismatch { expected_typ, expr_typ, expr_span },
                    TypeCheckError::TypeMismatch {
                        expected_typ: expected_copy,
                        expr_typ: expr_copy,
                        expr_span: span_copy,
                    },
                ) => expected_copy@ == expected_typ@ && expr_copy@ == expr_typ@ && span_copy
                    == expr_span,
                (
                    TypeCheckError::Unstructured { msg, span },
                    TypeCheckError::Unstructured { msg: msg_copy, span: span_copy },
                ) => msg_copy@ == msg@ && span_copy == span,
                _ => false,
            },
    {
        match self {
            TypeCheckError::TypeMismatch { expected_typ, expr_typ, expr_span } => {
                TypeCheckError::TypeMismatch {
                    expected_typ: expected_typ.clone(),
                    expr_typ: expr_typ.clone(),
                    expr_span: *expr_span,
                }
            },
            TypeCheckError::Unstructured { msg, span } => TypeCheckError::Unstructured {
                msg: msg.clone(),
                span: *span,
            },
        }
    }
}

/// The note that points at what made a value non-const.
pub open spec fn non_const_note() -> Seq<char> {
    "The value is non-const because of this expression, which uses another non-const value"@
}

/// The note that points at what forced a value to be const.
pub open spec fn const_note() -> Seq<char> {
    "The value is const because of this expression, which forces the value to be const"@
}

/// The note that goes with a failed comparison, if any: where a const type
/// was expected and the clash came from a non-const place, that place; where
/// a non-const type was expected and the clash came from a const place, that
/// place; otherwise none.
pub open spec fn note_for(expected_is_const: bool, kind: SpanKind) -> Option<(Seq<char>, Span)> {
    match (expected_is_const, kind) {
        (true, SpanKind::NonConst(span)) => Some((non_const_note(), span)),
        (false, SpanKind::Const(span)) => Some((const_note(), span)),
        _ => None,
    }
}

/// `error` is the note `note`.
pub open spec fn is_note(error: TypeCheckError, note: (Seq<char>, Span)) -> bool {
    error matches TypeCheckError::Unstructured { msg, span } && msg@ == note.0 && span == note.1
}

/// The secondary diagnostic for a failed comparison, if there is one.
pub fn secondary_error(expected_is_const: bool, kind: SpanKind) -> (note: Option<TypeCheckError>)
    ensures
        match note_for(expected_is_const, kind) {
            Some(expected) => note matches Some(error) && is_note(error, expected),
            None => note is None,
        },
{
    match (expected_is_const, kind) {
        (true, SpanKind::NonConst(span)) => {
            let msg = String::from_str(
                "The value is non-const because of this expression, which uses another non-const value",
            );
            Some(TypeCheckError::Unstructured { msg, span })
        },
        (false, SpanKind::Const(span)) => {
            let msg = String::from_str(
                "The value is const because of this expression, which forces the value to be const",
            );
            Some(TypeCheckError::Unstructured { msg, span })
        },
        _ => None,
    }
}

} // verus!

//! The type representation and type inference core of a compiler for a
//! circuit language: types, the constness lattice, the cells of unification
//! variables, unification, subtyping, and what later stages read off a
//! resolved type.
//!
//! Type variables and constness variables are cells of a
//! [`context::TypeContext`], named by their index, and a struct type names a
//! definition in the same context. Every operation that reads or fills a cell
//! takes the context as an argument.
//!
//! - [`basics`], [`constness`], [`types`]: the values that types are made of.
//! - [`context`]: the cells, and what it means for them to be well formed.
//! - [`unify`]: unification and subtyping, and how a failure is reported.
//! - [`laws`], [`agreement`]: what holds of unification and subtyping on every input.
//! - [`projection`], [`abi`], [`render`]: what is read off a type afterwards.
//! - [`mem`], [`bignum`]: the arrays of a program as the memory of the circuit holds them.

pub mod abi;
pub mod agreement;
pub mod basics;
pub mod bignum;
pub mod constness;
pub mod context;
pub mod errors;
pub mod laws;
pub mod mem;
pub mod projection;
pub mod render;
pub mod types;
pub mod unify;

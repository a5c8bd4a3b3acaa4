//! The error taxonomy of the inference engine. Every error is terminal for
//! the current inference call: nothing is retried or coerced.

use vstd::prelude::*;

use crate::ty::{SpecTy, Ty};

verus! {

/// Why inference or unification failed.
#[derive(Debug, PartialEq, Eq)]
pub enum TypeError {
    /// A variable reference names a binding absent from the environment.
    UnboundVariable(String),
    /// Unification reached two incompatible shapes; carries both monotypes.
    TypeMismatch(Ty, Ty),
    /// The occurs-check failed: the variable appears free inside the type it
    /// would be bound to.
    InfiniteType(String, Ty),
}

/// The mathematical model of an error.
pub ghost enum SpecTypeError {
    Unbound(Seq<char>),
    Mismatch(SpecTy, SpecTy),
    Infinite(Seq<char>, SpecTy),
}

impl View for TypeError {
    type V = SpecTypeError;

    open spec fn view(&self) -> SpecTypeError {
        match self {
            TypeError::UnboundVariable(n) => SpecTypeError::Unbound(n@),
            TypeError::TypeMismatch(a, b) => SpecTypeError::Mismatch(a@, b@),
            TypeError::InfiniteType(n, t) => SpecTypeError::Infinite(n@, t@),
        }
    }
}

} // verus!

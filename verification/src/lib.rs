//! A Hindley-Milner type inference engine (Algorithm W) for a small lambda
//! calculus with variables, literals, application, abstraction and let
//! bindings. Given an expression, `infer::infer_type` either produces a
//! principal monomorphic type or reports why none exists.

pub mod ast;
pub mod env;
pub mod error;
pub mod fresh;
pub mod infer;
pub mod scheme;
pub mod subst;
pub mod table;
pub mod ty;
pub mod unify;

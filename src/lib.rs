//! Static type inference for a stack-based language: unification over stack
//! signatures, stack chaining with padding, and exhaustive case analysis.

pub mod ast;
pub mod error;
pub mod index;
pub mod inference;
pub mod laws;
pub mod prelude;
pub mod subst;
pub mod types;
pub mod unify;

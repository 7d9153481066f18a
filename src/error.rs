use vstd::prelude::*;
use crate::ast::Span;
use crate::types::{OpType, Type, Var};

verus! {

/// What went wrong during inference.
#[derive(Debug)]
#[allow(inconsistent_fields)]
pub enum InferenceErrorMessage {
    AnnInfConflict { inf: OpType, ann: OpType },
    UnificationError { t1: Type, t2: Type },
    UnknownOp { name: String },
    UnknownConstructor { name: String },
    DuplicateConstructor { name: String },
    NotAllConstructorsCovered,
    TypeOrderErrorElem { general: Type, concrete: Type },
    TypeOrderErrorOp { general: OpType, concrete: OpType },
    OpPrePostLenNeq { general: OpType, concrete: OpType },
    OccursCheck { name: Var },
    ListMGULengthDifferent,
}

/// An error that unification raises.
pub open spec fn is_unify_error(e: InferenceErrorMessage) -> bool {
    e is UnificationError || e is OccursCheck || e is ListMGULengthDifferent
}

/// An inference failure, located in the source.
#[derive(Debug)]
pub struct InferenceError {
    pub span: Span,
    pub error: InferenceErrorMessage,
}

} // verus!

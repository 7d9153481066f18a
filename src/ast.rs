use vstd::prelude::*;
use crate::types::OpType;

verus! {

/// A source range, carried through for diagnostics only.
#[derive(Clone, Copy, Debug, PartialEq, Eq)]
pub struct Span {
    pub start: usize,
    pub end: usize,
}

#[derive(Clone, Copy, Debug)]
pub enum Literal {
    Int(i64),
}

/// One arm of a case expression: the constructor it matches, and its body.
#[derive(Debug)]
pub struct CaseArm {
    pub constr: String,
    pub body: Vec<Op>,
    pub span: Span,
}

/// An operation of a body.
#[derive(Debug)]
#[allow(inconsistent_fields)]
pub enum Op {
    Literal { value: Literal, span: Span },
    Name { value: String, span: Span },
    Quote { value: Vec<Op>, span: Span },
    Case { head_arm: Box<CaseArm>, arms: Vec<CaseArm>, span: Span },
}

impl Op {
    pub fn get_span(&self) -> (r: Span)
        ensures
            r == self.span(),
    {
        match self {
            Op::Literal { span, .. } => *span,
            Op::Name { span, .. } => *span,
            Op::Quote { span, .. } => *span,
            Op::Case { span, .. } => *span,
        }
    }

    pub open spec fn span(&self) -> Span {
        match self {
            Op::Literal { span, .. } => *span,
            Op::Name { span, .. } => *span,
            Op::Quote { span, .. } => *span,
            Op::Case { span, .. } => *span,
        }
    }
}

/// A data constructor: the types it consumes to build a value.
#[derive(Debug)]
pub struct ConstrDef {
    pub params: Vec<crate::types::Type>,
}

/// A data type: its parameters and its constructors, by name.
#[derive(Debug)]
pub struct DataDef {
    pub name: String,
    pub params: Vec<String>,
    pub constrs: Vec<(String, ConstrDef)>,
}

/// A user operation: its declared signature and its body. A `foreign`
/// operation is implemented outside the language, and its body is not checked.
#[derive(Debug)]
pub struct OpDef {
    pub foreign: bool,
    pub ann: OpType,
    pub body: Vec<Op>,
    pub span: Span,
}

/// A parsed module: data definitions and operation definitions, by name.
#[derive(Debug)]
pub struct Module {
    pub data_defs: Vec<(String, DataDef)>,
    pub op_defs: Vec<(String, OpDef)>,
}

impl Module {
    /// No two operation definitions share a name.
    pub open spec fn op_names_unique(&self) -> bool {
        forall|i: int, j: int|
            0 <= i < j < self.op_defs@.len() ==> #[trigger] self.op_defs@[i].0@
                != #[trigger] self.op_defs@[j].0@
    }

    /// Whether no two operation definitions share a name.
    pub fn has_unique_op_names(&self) -> (r: bool)
        ensures
            r == self.op_names_unique(),
    {
        let defs = &self.op_defs;
        let mut k: usize = 0;
        while k < defs.len()
            invariant
                k <= defs@.len(),
                defs == &self.op_defs,
                forall|a: int, b: int|
                    0 <= a < b < k ==> #[trigger] defs@[a].0@ != #[trigger] defs@[b].0@,
            decreases defs@.len() - k,
        {
            let mut j: usize = 0;
            while j < k
                invariant
                    j <= k < defs@.len(),
                    defs == &self.op_defs,
                    forall|a: int| 0 <= a < j ==> #[trigger] defs@[a].0@ != defs@[k as int].0@,
                decreases k - j,
            {
                if defs[j].0 == defs[k].0 {
                    return false;
                }
                j += 1;
            }
            k += 1;
        }
        true
    }
}

} // verus!

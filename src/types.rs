use vstd::prelude::*;

verus! {

/// A type variable: either written by the user, or minted by the engine.
/// The two namespaces can never alias each other.
#[derive(Debug)]
pub enum Var {
    Named(String),
    Gen(u64),
}

/// The value type of a stack slot.
#[derive(Debug)]
pub enum Type {
    Mono(String),
    Poly(Var),
    Op(OpType),
    App(Box<Type>, Box<Type>),
}

/// A stack signature: what an operation consumes (`pre`) and produces (`post`).
/// Index 0 of each stack is the deepest element.
#[derive(Debug)]
pub struct OpType {
    pub pre: Vec<Type>,
    pub post: Vec<Type>,
}

/// Mathematical model of a type variable.
pub enum VarV {
    Named(Seq<char>),
    Gen(nat),
}

/// Mathematical model of a type.
pub enum TyV {
    Mono(Seq<char>),
    Poly(VarV),
    Op(Seq<TyV>, Seq<TyV>),
    App(Box<TyV>, Box<TyV>),
}

/// Mathematical model of a stack signature.
pub struct OpTyV {
    pub pre: Seq<TyV>,
    pub post: Seq<TyV>,
}

impl View for Var {
    type V = VarV;

    open spec fn view(&self) -> VarV {
        match self {
            Var::Named(s) => VarV::Named(s@),
            Var::Gen(n) => VarV::Gen(*n as nat),
        }
    }
}

pub open spec fn ty_view(t: Type) -> TyV
    decreases t,
{
    match t {
        Type::Mono(n) => TyV::Mono(n@),
        Type::Poly(v) => TyV::Poly(v@),
        Type::Op(o) => TyV::Op(tys_view(o.pre@), tys_view(o.post@)),
        Type::App(l, r) => TyV::App(Box::new(ty_view(*l)), Box::new(ty_view(*r))),
    }
}

pub open spec fn tys_view(s: Seq<Type>) -> Seq<TyV>
    decreases s,
{
    if s.len() == 0 {
        Seq::empty()
    } else {
        tys_view(s.subrange(0, s.len() - 1)).push(ty_view(s[s.len() - 1]))
    }
}

impl View for Type {
    type V = TyV;

    open spec fn view(&self) -> TyV {
        ty_view(*self)
    }
}

impl View for OpType {
    type V = OpTyV;

    open spec fn view(&self) -> OpTyV {
        OpTyV { pre: tys_view(self.pre@), post: tys_view(self.post@) }
    }
}

impl Var {
    pub fn copy(&self) -> (r: Var)
        ensures
            r@ == self@,
    {
        match self {
            Var::Named(s) => Var::Named(s.clone()),
            Var::Gen(n) => Var::Gen(*n),
        }
    }

    pub fn same(&self, other: &Var) -> (r: bool)
        ensures
            r == (self@ == other@),
    {
        match (self, other) {
            (Var::Named(a), Var::Named(b)) => *a == *b,
            (Var::Gen(a), Var::Gen(b)) => *a == *b,
            _ => false,
        }
    }
}

impl Type {
    /// A structural copy.
    pub fn copy(&self) -> (r: Type)
        ensures
            r@ == self@,
        decreases self,
    {
        match self {
            Type::Mono(n) => Type::Mono(n.clone()),
            Type::Poly(v) => Type::Poly(v.copy()),
            Type::Op(o) => Type::Op(OpType { pre: copy_types(&o.pre), post: copy_types(&o.post) }),
            Type::App(l, r) => Type::App(Box::new((**l).copy()), Box::new((**r).copy())),
        }
    }
}

pub fn copy_types(ts: &Vec<Type>) -> (r: Vec<Type>)
    ensures
        r@.len() == ts@.len(),
        tys_view(r@) == tys_view(ts@),
    decreases ts,
{
    let mut r: Vec<Type> = Vec::new();
    let mut i: usize = 0;
    while i < ts.len()
        invariant
            i <= ts@.len(),
            r@.len() == i,
            tys_view(r@) == tys_view(ts@.subrange(0, i as int)),
        decreases ts@.len() - i,
    {
        proof {
            assert(decreases_to!(ts => ts@[i as int]));
        }
        let t = ts[i].copy();
        let ghost old_r = r@;
        r.push(t);
        proof {
            let n = r@;
            let p = ts@.subrange(0, i + 1);
            assert(n.subrange(0, n.len() - 1) =~= old_r);
            assert(p.subrange(0, p.len() - 1) =~= ts@.subrange(0, i as int));
        }
        i += 1;
    }
    assert(ts@.subrange(0, ts@.len() as int) =~= ts@);
    r
}

impl OpType {
    pub fn copy(&self) -> (r: OpType)
        ensures
            r@ == self@,
    {
        OpType { pre: copy_types(&self.pre), post: copy_types(&self.post) }
    }
}

} // verus!

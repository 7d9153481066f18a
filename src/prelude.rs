use vstd::prelude::*;
use crate::types::{OpTyV, OpType, TyV, Type, Var, VarV};

verus! {

pub open spec fn int_v() -> TyV {
    TyV::Mono("Int"@)
}

pub open spec fn var_v(n: Seq<char>) -> TyV {
    TyV::Poly(VarV::Named(n))
}

/// The signatures of the built-in operations.
pub open spec fn prelude_sig(name: Seq<char>) -> Option<OpTyV> {
    if name == "dup"@ {
        Some(OpTyV { pre: seq![var_v("a"@)], post: seq![var_v("a"@), var_v("a"@)] })
    } else if name == "drop"@ {
        Some(OpTyV { pre: seq![var_v("a"@)], post: seq![] })
    } else if name == "swap"@ {
        Some(OpTyV { pre: seq![var_v("a"@), var_v("b"@)], post: seq![var_v("b"@), var_v("a"@)] })
    } else if name == "add"@ || name == "sub"@ || name == "mul"@ {
        Some(OpTyV { pre: seq![int_v(), int_v()], post: seq![int_v()] })
    } else {
        None
    }
}

fn named(n: &str) -> (r: Type)
    ensures
        r@ == var_v(n@),
{
    Type::Poly(Var::Named(n.to_owned()))
}

fn int_type() -> (r: Type)
    ensures
        r@ == int_v(),
{
    Type::Mono("Int".to_owned())
}

fn sig(pre: Vec<Type>, post: Vec<Type>) -> (r: OpType)
    ensures
        r.pre == pre,
        r.post == post,
{
    OpType { pre, post }
}

/// The signature of a built-in operation, if `name` is one.
pub fn get(name: &String) -> (r: Option<OpType>)
    ensures
        match r {
            Some(o) => prelude_sig(name@) == Some(o@),
            None => prelude_sig(name@) is None,
        },
{
    proof {
        reveal_strlit("dup");
        reveal_strlit("drop");
        reveal_strlit("swap");
        reveal_strlit("add");
        reveal_strlit("sub");
        reveal_strlit("mul");
        reveal_strlit("a");
        reveal_strlit("b");
        reveal_strlit("Int");
    }
    let r = if *name == "dup".to_owned() {
        Some(sig(vec![named("a")], vec![named("a"), named("a")]))
    } else if *name == "drop".to_owned() {
        Some(sig(vec![named("a")], vec![]))
    } else if *name == "swap".to_owned() {
        Some(sig(vec![named("a"), named("b")], vec![named("b"), named("a")]))
    } else if *name == "add".to_owned() || *name == "sub".to_owned() || *name == "mul".to_owned() {
        Some(sig(vec![int_type(), int_type()], vec![int_type()]))
    } else {
        None
    };
    proof {
        if r is Some {
            let o = r->Some_0;
            crate::subst::lemma_tys_view_index(o.pre@);
            crate::subst::lemma_tys_view_index(o.post@);
            let p = prelude_sig(name@).unwrap();
            assert(o@.pre =~= p.pre);
            assert(o@.post =~= p.post);
        }
    }
    r
}

} // verus!

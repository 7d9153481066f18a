use vstd::prelude::*;
use crate::error::{is_unify_error, InferenceErrorMessage};
use crate::laws::{
    good, lemma_apply_composition, lemma_apply_idle, lemma_apply_seq_composition,
    lemma_apply_twice, lemma_good_composition, lemma_good_empty, lemma_good_mono,
    lemma_lookup_single, lemma_vars_apply, lemma_vars_apply_seq, lemma_vars_seq_index,
};
use crate::subst::{
    composition, lookup, apply, apply_op, SubstV, apply_seq, apply_types, compose, lemma_apply_empty, lemma_apply_seq_index,
    lemma_tys_view_index, vars, vars_op, vars_seq, Subst,
};
use crate::types::{tys_view, OpTyV, OpType, TyV, Type, VarV};

verus! {

/// The bound on nesting that unification walks through; a pair of types
/// nested deeper than this is reported as a mismatch.
pub const DEPTH: u64 = 0xffff_ffff_ffff_ffff;

/// The outcome of unifying a variable `v` with a type `t` other than itself.
pub open spec fn var_outcome(v: VarV, t: TyV, r: Result<Subst, InferenceErrorMessage>) -> bool {
    if vars(t).contains(v) {
        r matches Err(InferenceErrorMessage::OccursCheck { name }) && name@ == v
    } else {
        r matches Ok(s) && s@ == seq![(v, t)]
    }
}

/// What `mgu` promises on pairs whose outcome is decided at the top.
pub open spec fn mgu_shape(t1: TyV, t2: TyV, r: Result<Subst, InferenceErrorMessage>) -> bool {
    &&& (t1 is Mono && t2 is Mono ==> if t1 == t2 {
        r matches Ok(s) && s@.len() == 0
    } else {
        r matches Err(InferenceErrorMessage::UnificationError { .. })
    })
    &&& (t1 is Poly && t1 == t2 ==> (r matches Ok(s) && s@.len() == 0))
    &&& (t1 is Poly && t1 != t2 ==> var_outcome(t1->Poly_0, t2, r))
    &&& (t2 is Poly && !(t1 is Poly) ==> var_outcome(t2->Poly_0, t1, r))
    &&& (t1 is Mono && (t2 is Op || t2 is App) ==> r matches Err(
        InferenceErrorMessage::UnificationError { .. },
    ))
    &&& (t2 is Mono && (t1 is Op || t1 is App) ==> r matches Err(
        InferenceErrorMessage::UnificationError { .. },
    ))
    &&& (t1 is Op && t2 is App || t1 is App && t2 is Op ==> r matches Err(
        InferenceErrorMessage::UnificationError { .. },
    ))
}

/// What unification can report, over the models.
pub enum UnifyErr {
    Mismatch(TyV, TyV),
    Occurs(VarV),
    Length,
}

/// `e` is the error that `u` describes, payload included.
pub open spec fn err_is(e: InferenceErrorMessage, u: UnifyErr) -> bool {
    match u {
        UnifyErr::Mismatch(a, b) => e matches InferenceErrorMessage::UnificationError { t1, t2 }
            && t1@ == a && t2@ == b,
        UnifyErr::Occurs(v) => e matches InferenceErrorMessage::OccursCheck { name } && name@ == v,
        UnifyErr::Length => e is ListMGULengthDifferent,
    }
}

/// `r` is the outcome `u`: the same substitution, or the same error.
pub open spec fn same_outcome(r: Result<Subst, InferenceErrorMessage>, u: Result<SubstV, UnifyErr>) -> bool {
    match u {
        Ok(s) => r matches Ok(x) && x@ == s,
        Err(x) => r matches Err(e) && err_is(e, x),
    }
}

/// Binding `v` to `t`, after the occurs check.
pub open spec fn bind_spec(v: VarV, t: TyV) -> Result<SubstV, UnifyErr> {
    if vars(t).contains(v) {
        Err(UnifyErr::Occurs(v))
    } else {
        Ok(seq![(v, t)])
    }
}

/// The unifier that unification computes, with `fuel` levels of nesting.
pub open spec fn unify(t1: TyV, t2: TyV, fuel: nat) -> Result<SubstV, UnifyErr>
    decreases fuel, 0int,
{
    if t1 is Mono && t2 is Mono {
        if t1 == t2 {
            Ok(Seq::empty())
        } else {
            Err(UnifyErr::Mismatch(t1, t2))
        }
    } else if t1 is Poly && t2 is Poly && t1 == t2 {
        Ok(Seq::empty())
    } else if t1 is Poly {
        bind_spec(t1->Poly_0, t2)
    } else if t2 is Poly {
        bind_spec(t2->Poly_0, t1)
    } else if t1 is App && t2 is App {
        if fuel == 0 {
            Err(UnifyErr::Mismatch(t1, t2))
        } else {
            match unify(*t1->App_0, *t2->App_0, (fuel - 1) as nat) {
                Err(e) => Err(e),
                Ok(s1) => match unify(
                    apply(*t1->App_1, s1),
                    apply(*t2->App_1, s1),
                    (fuel - 1) as nat,
                ) {
                    Err(e) => Err(e),
                    Ok(s2) => Ok(composition(s1, s2)),
                },
            }
        }
    } else if t1 is Op && t2 is Op {
        if fuel == 0 {
            Err(UnifyErr::Mismatch(t1, t2))
        } else {
            unify_op(
                OpTyV { pre: t1->Op_0, post: t1->Op_1 },
                OpTyV { pre: t2->Op_0, post: t2->Op_1 },
                (fuel - 1) as nat,
            )
        }
    } else {
        Err(UnifyErr::Mismatch(t1, t2))
    }
}

/// Signatures: `pre` first, then `post` under what `pre` bound.
pub open spec fn unify_op(o1: OpTyV, o2: OpTyV, fuel: nat) -> Result<SubstV, UnifyErr>
    decreases fuel, 0int,
{
    if fuel == 0 {
        if o1.pre.len() != o2.pre.len() {
            Err(UnifyErr::Length)
        } else {
            Err(UnifyErr::Mismatch(TyV::Op(o1.pre, o1.post), TyV::Op(o2.pre, o2.post)))
        }
    } else {
        match unify_seq(o1.pre, o2.pre, (fuel - 1) as nat) {
            Err(e) => Err(e),
            Ok(s1) => match unify_seq(
                apply_seq(o1.post, s1),
                apply_seq(o2.post, s1),
                (fuel - 1) as nat,
            ) {
                Err(e) => Err(e),
                Ok(s2) => Ok(composition(s1, s2)),
            },
        }
    }
}

/// Stacks: lengths first, then pair by pair from the bottom.
pub open spec fn unify_seq(ts1: Seq<TyV>, ts2: Seq<TyV>, fuel: nat) -> Result<SubstV, UnifyErr>
    decreases fuel, ts1.len() + 1,
{
    if ts1.len() != ts2.len() {
        Err(UnifyErr::Length)
    } else if fuel == 0 {
        if ts1.len() == 0 {
            Ok(Seq::empty())
        } else {
            Err(UnifyErr::Mismatch(ts1[0], ts2[0]))
        }
    } else {
        unify_seq_from(ts1, ts2, 0, Seq::empty(), fuel)
    }
}

/// The pairs from position `i` on, under the substitution `s` built so far;
/// each pair is compared after `s` is applied to it.
pub open spec fn unify_seq_from(ts1: Seq<TyV>, ts2: Seq<TyV>, i: nat, s: SubstV, fuel: nat) -> Result<
    SubstV,
    UnifyErr,
>
    decreases fuel, ts1.len() - i,
{
    if i >= ts1.len() || i >= ts2.len() || fuel == 0 {
        Ok(s)
    } else {
        match unify(apply(ts1[i as int], s), apply(ts2[i as int], s), (fuel - 1) as nat) {
            Err(e) => Err(e),
            Ok(ss) => unify_seq_from(ts1, ts2, i + 1, composition(s, ss), fuel),
        }
    }
}

fn bind(v: &crate::types::Var, t: &Type) -> (r: Result<Subst, InferenceErrorMessage>)
    ensures
        r matches Err(e) ==> is_unify_error(e),
        var_outcome(v@, t@, r),
        same_outcome(r, bind_spec(v@, t@)),
        r matches Ok(s) ==> apply(TyV::Poly(v@), s@) == apply(t@, s@) && good(
            s@,
            set![v@] + vars(t@),
        ),
{
    if t.occurs(v) {
        return Err(InferenceErrorMessage::OccursCheck { name: v.copy() });
    }
    let mut s = Subst::new();
    s.entries.push((v.copy(), t.copy()));
    assert(s@ =~= seq![(v@, t@)]);
    proof {
        assert forall|w: VarV| #[trigger] lookup(s@, w) == if v@ == w { Some(t@) } else { None } by {
            lemma_lookup_single(v@, t@, w);
        }
        lemma_apply_idle(t@, s@);
    }
    Ok(s)
}

fn mismatch(t1: &Type, t2: &Type) -> (r: Result<Subst, InferenceErrorMessage>)
    ensures
        r matches Err(e) ==> is_unify_error(e),
        r matches Err(InferenceErrorMessage::UnificationError { .. }),
        same_outcome(r, Err(UnifyErr::Mismatch(t1@, t2@))),
{
    Err(InferenceErrorMessage::UnificationError { t1: t1.copy(), t2: t2.copy() })
}

impl Type {
    /// The most general unifier of two types.
    pub fn mgu(t1: &Type, t2: &Type) -> (r: Result<Subst, InferenceErrorMessage>)
        ensures
            r matches Ok(s) ==> apply(t1@, s@) == apply(t2@, s@),
            r matches Ok(s) ==> forall|t: TyV| #[trigger] apply(apply(t, s@), s@) == apply(t, s@),
            r matches Err(e) ==> is_unify_error(e),
            same_outcome(r, unify(t1@, t2@, DEPTH as nat)),
    {
        let r = mgu_type(t1, t2, DEPTH);
        if let Ok(s) = &r {
            assert forall|t: TyV| #[trigger] apply(apply(t, s@), s@) == apply(t, s@) by {
                lemma_apply_twice(t, s@, vars(t1@) + vars(t2@));
            }
        }
        r
    }
}

impl OpType {
    /// The most general unifier of two signatures: `pre` first, then `post`
    /// under what `pre` bound.
    pub fn mgu(o1: &OpType, o2: &OpType) -> (r: Result<Subst, InferenceErrorMessage>)
        ensures
            r matches Ok(s) ==> apply_op(o1@, s@) == apply_op(o2@, s@),
            r matches Ok(s) ==> forall|t: TyV| #[trigger] apply(apply(t, s@), s@) == apply(t, s@),
            r matches Err(e) ==> is_unify_error(e),
            o1.pre@.len() != o2.pre@.len() ==> r matches Err(
                InferenceErrorMessage::ListMGULengthDifferent,
            ),
            same_outcome(r, unify_op(o1@, o2@, DEPTH as nat)),
    {
        let r = mgu_op(o1, o2, DEPTH);
        if let Ok(s) = &r {
            assert forall|t: TyV| #[trigger] apply(apply(t, s@), s@) == apply(t, s@) by {
                lemma_apply_twice(t, s@, vars_op(o1@) + vars_op(o2@));
            }
        }
        r
    }
}

/// The most general unifier of two stacks, element by element from the bottom.
pub fn mgu_types(ts1: &Vec<Type>, ts2: &Vec<Type>) -> (r: Result<Subst, InferenceErrorMessage>)
    ensures
        r matches Ok(s) ==> apply_seq(tys_view(ts1@), s@) == apply_seq(tys_view(ts2@), s@),
        r matches Ok(s) ==> forall|t: TyV| #[trigger] apply(apply(t, s@), s@) == apply(t, s@),
        r matches Err(e) ==> is_unify_error(e),
        ts1@.len() != ts2@.len() ==> r matches Err(InferenceErrorMessage::ListMGULengthDifferent),
        ts1@.len() == 0 && ts2@.len() == 0 ==> (r matches Ok(s) && s@.len() == 0),
        same_outcome(r, unify_seq(tys_view(ts1@), tys_view(ts2@), DEPTH as nat)),
{
    let r = mgu_seq(ts1, ts2, DEPTH);
    if let Ok(s) = &r {
        assert forall|t: TyV| #[trigger] apply(apply(t, s@), s@) == apply(t, s@) by {
            lemma_apply_twice(t, s@, vars_seq(tys_view(ts1@)) + vars_seq(tys_view(ts2@)));
        }
    }
    r
}

fn mgu_type(t1: &Type, t2: &Type, fuel: u64) -> (r: Result<Subst, InferenceErrorMessage>)
    ensures
        r matches Ok(s) ==> apply(t1@, s@) == apply(t2@, s@) && good(s@, vars(t1@) + vars(t2@)),
        r matches Err(e) ==> is_unify_error(e),
        mgu_shape(t1@, t2@, r),
        same_outcome(r, unify(t1@, t2@, fuel as nat)),
    decreases fuel,
{
    match (t1, t2) {
        (Type::Mono(n1), Type::Mono(n2)) => {
            if *n1 == *n2 {
                let s = Subst::new();
                proof {
                    lemma_good_empty(vars(t1@) + vars(t2@));
                    lemma_apply_empty(t1@);
                    lemma_apply_empty(t2@);
                }
                Ok(s)
            } else {
                mismatch(t1, t2)
            }
        },
        (Type::Poly(v1), Type::Poly(v2)) => {
            assert(t1@ == TyV::Poly(v1@));
            assert(t2@ == TyV::Poly(v2@));
            if v1.same(v2) {
                let s = Subst::new();
                proof {
                    lemma_good_empty(vars(t1@) + vars(t2@));
                    lemma_apply_empty(t1@);
                    lemma_apply_empty(t2@);
                }
                assert(apply(t1@, s@) == apply(t2@, s@));
                Ok(s)
            } else {
                bind(v1, t2)
            }
        },
        (Type::Poly(v), _) => {
            assert(t1@ == TyV::Poly(v@));
            bind(v, t2)
        },
        (_, Type::Poly(v)) => {
            let r = bind(v, t1);
            assert(t2@ == TyV::Poly(v@));
            assert(set![v@] + vars(t1@) =~= vars(t1@) + vars(t2@));
            r
        },
        (Type::App(l1, r1), Type::App(l2, r2)) => {
            if fuel == 0 {
                return mismatch(t1, t2);
            }
            let s1 = match mgu_type(l1, l2, fuel - 1) {
                Ok(s) => s,
                Err(e) => return Err(e),
            };
            let x1 = (**r1).apply(&s1);
            let x2 = (**r2).apply(&s1);
            let s2 = match mgu_type(&x1, &x2, fuel - 1) {
                Ok(s) => s,
                Err(e) => return Err(e),
            };
            let ghost v = vars(t1@) + vars(t2@);
            proof {
                lemma_good_mono(s1@, vars(l1@) + vars(l2@), v);
                lemma_vars_apply(r1@, s1@, v);
                lemma_vars_apply(r2@, s1@, v);
                assert forall|w: VarV| #[trigger] (vars(x1@) + vars(x2@)).contains(w) implies v.contains(w)
                    && lookup(s1@, w) is None by {
                    if vars(x1@).contains(w) {
                        if vars(r1@).contains(w) {
                            assert(vars(t1@).contains(w));
                        }
                    } else {
                        if vars(r2@).contains(w) {
                            assert(vars(t2@).contains(w));
                        }
                    }
                }
                lemma_good_composition(s1@, s2@, v, vars(x1@) + vars(x2@));
                lemma_apply_composition(l1@, s1@, s2@);
                lemma_apply_composition(l2@, s1@, s2@);
                lemma_apply_composition(r1@, s1@, s2@);
                lemma_apply_composition(r2@, s1@, s2@);
            }
            let s = compose(s1, s2);
            assert(apply(t1@, s@) == apply(t2@, s@));
            Ok(s)
        },
        (Type::Op(o1), Type::Op(o2)) => {
            if fuel == 0 {
                return mismatch(t1, t2);
            }
            let r = mgu_op(o1, o2, fuel - 1);
            assert(vars(t1@) + vars(t2@) == vars_op(o1@) + vars_op(o2@));
            if let Ok(s) = &r {
                assert(apply(t1@, s@) == TyV::Op(apply_op(o1@, s@).pre, apply_op(o1@, s@).post));
                assert(apply(t2@, s@) == TyV::Op(apply_op(o2@, s@).pre, apply_op(o2@, s@).post));
            }
            r
        },
        _ => mismatch(t1, t2),
    }
}

fn mgu_op(o1: &OpType, o2: &OpType, fuel: u64) -> (r: Result<Subst, InferenceErrorMessage>)
    ensures
        same_outcome(r, unify_op(o1@, o2@, fuel as nat)),
        r matches Ok(s) ==> apply_op(o1@, s@) == apply_op(o2@, s@) && good(
            s@,
            vars_op(o1@) + vars_op(o2@),
        ),
        r matches Err(e) ==> is_unify_error(e),
        o1.pre@.len() != o2.pre@.len() ==> r matches Err(
            InferenceErrorMessage::ListMGULengthDifferent,
        ),
    decreases fuel,
{
    proof {
        lemma_tys_view_index(o1.pre@);
        lemma_tys_view_index(o2.pre@);
    }
    if fuel == 0 {
        if o1.pre.len() != o2.pre.len() {
            return Err(InferenceErrorMessage::ListMGULengthDifferent);
        }
        let a = Type::Op(o1.copy());
        let b = Type::Op(o2.copy());
        assert(a@ == TyV::Op(o1@.pre, o1@.post));
        assert(b@ == TyV::Op(o2@.pre, o2@.post));
        return Err(InferenceErrorMessage::UnificationError { t1: a, t2: b });
    }
    let s1 = match mgu_seq(&o1.pre, &o2.pre, fuel - 1) {
        Ok(s) => s,
        Err(e) => return Err(e),
    };
    let p1 = apply_types(&o1.post, &s1);
    let p2 = apply_types(&o2.post, &s1);
    let s2 = match mgu_seq(&p1, &p2, fuel - 1) {
        Ok(s) => s,
        Err(e) => return Err(e),
    };
    let ghost v = vars_op(o1@) + vars_op(o2@);
    proof {
        lemma_good_mono(s1@, vars_seq(o1@.pre) + vars_seq(o2@.pre), v);
        lemma_vars_apply_seq(o1@.post, s1@, v);
        lemma_vars_apply_seq(o2@.post, s1@, v);
        assert forall|w: VarV| #[trigger] (vars_seq(tys_view(p1@)) + vars_seq(tys_view(p2@))).contains(w)
            implies v.contains(w) && lookup(s1@, w) is None by {
            if vars_seq(tys_view(p1@)).contains(w) {
                if vars_seq(o1@.post).contains(w) {
                    assert(vars_op(o1@).contains(w));
                }
            } else {
                if vars_seq(o2@.post).contains(w) {
                    assert(vars_op(o2@).contains(w));
                }
            }
        }
        lemma_good_composition(s1@, s2@, v, vars_seq(tys_view(p1@)) + vars_seq(tys_view(p2@)));
        lemma_apply_seq_composition(o1@.pre, s1@, s2@);
        lemma_apply_seq_composition(o2@.pre, s1@, s2@);
        lemma_apply_seq_composition(o1@.post, s1@, s2@);
        lemma_apply_seq_composition(o2@.post, s1@, s2@);
    }
    Ok(compose(s1, s2))
}

fn mgu_seq(ts1: &Vec<Type>, ts2: &Vec<Type>, fuel: u64) -> (r: Result<
    Subst,
    InferenceErrorMessage,
>)
    ensures
        same_outcome(r, unify_seq(tys_view(ts1@), tys_view(ts2@), fuel as nat)),
        r matches Ok(s) ==> apply_seq(tys_view(ts1@), s@) == apply_seq(tys_view(ts2@), s@) && good(
            s@,
            vars_seq(tys_view(ts1@)) + vars_seq(tys_view(ts2@)),
        ),
        r matches Err(e) ==> is_unify_error(e),
        ts1@.len() != ts2@.len() ==> r matches Err(InferenceErrorMessage::ListMGULengthDifferent),
        ts1@.len() == 0 && ts2@.len() == 0 ==> (r matches Ok(s) && s@.len() == 0),
    decreases fuel,
{
    proof {
        lemma_tys_view_index(ts1@);
        lemma_tys_view_index(ts2@);
    }
    if ts1.len() != ts2.len() {
        return Err(InferenceErrorMessage::ListMGULengthDifferent);
    }
    let mut s = Subst::new();
    if fuel == 0 {
        if ts1.len() == 0 {
            return Ok(s);
        }
        return mismatch(&ts1[0], &ts2[0]);
    }
    let ghost v = vars_seq(tys_view(ts1@)) + vars_seq(tys_view(ts2@));
    proof {
        lemma_good_empty(v);
        lemma_tys_view_index(ts1@);
        lemma_tys_view_index(ts2@);
        lemma_vars_seq_index(tys_view(ts1@));
        lemma_vars_seq_index(tys_view(ts2@));
        assert forall|k: int, w: VarV| 0 <= k < ts1@.len() && #[trigger] vars(ts1@[k]@).contains(w) implies v.contains(w) by {
            assert(vars(tys_view(ts1@)[k]).contains(w));
        }
        assert forall|k: int, w: VarV| 0 <= k < ts2@.len() && #[trigger] vars(ts2@[k]@).contains(w) implies v.contains(w) by {
            assert(vars(tys_view(ts2@)[k]).contains(w));
        }
    }
    let mut i: usize = 0;
    while i < ts1.len()
        invariant
            i <= ts1@.len(),
            ts1@.len() == ts2@.len(),
            fuel > 0,
            ts1@.len() == 0 ==> s@.len() == 0,
            v == vars_seq(tys_view(ts1@)) + vars_seq(tys_view(ts2@)),
            tys_view(ts1@).len() == ts1@.len(),
            tys_view(ts2@).len() == ts2@.len(),
            forall|k: int| 0 <= k < ts1@.len() ==> #[trigger] tys_view(ts1@)[k] == ts1@[k]@,
            forall|k: int| 0 <= k < ts2@.len() ==> #[trigger] tys_view(ts2@)[k] == ts2@[k]@,
            forall|k: int, w: VarV| 0 <= k < ts1@.len() && #[trigger] vars(ts1@[k]@).contains(w) ==> v.contains(w),
            forall|k: int, w: VarV| 0 <= k < ts2@.len() && #[trigger] vars(ts2@[k]@).contains(w) ==> v.contains(w),
            good(s@, v),
            forall|k: int| 0 <= k < i ==> #[trigger] apply(ts1@[k]@, s@) == apply(ts2@[k]@, s@),
            unify_seq(tys_view(ts1@), tys_view(ts2@), fuel as nat) == unify_seq_from(
                tys_view(ts1@),
                tys_view(ts2@),
                i as nat,
                s@,
                fuel as nat,
            ),
        decreases ts1@.len() - i,
    {
        let x = ts1[i].apply(&s);
        let y = ts2[i].apply(&s);
        let ss = match mgu_type(&x, &y, fuel - 1) {
            Ok(ss) => ss,
            Err(e) => return Err(e),
        };
        let ghost s0 = s@;
        proof {
            assert(tys_view(ts1@)[i as int] == ts1@[i as int]@);
            lemma_vars_apply(ts1@[i as int]@, s0, v);
            lemma_vars_apply(ts2@[i as int]@, s0, v);
            lemma_good_composition(s0, ss@, v, vars(x@) + vars(y@));
            assert forall|k: int| 0 <= k <= i implies #[trigger] apply(ts1@[k]@, crate::subst::composition(s0, ss@))
                == apply(ts2@[k]@, crate::subst::composition(s0, ss@)) by {
                lemma_apply_composition(ts1@[k]@, s0, ss@);
                lemma_apply_composition(ts2@[k]@, s0, ss@);
            }
        }
        s = compose(s, ss);
        i += 1;
    }
    proof {
        lemma_apply_seq_index(tys_view(ts1@), s@);
        lemma_apply_seq_index(tys_view(ts2@), s@);
        assert(apply_seq(tys_view(ts1@), s@) =~= apply_seq(tys_view(ts2@), s@));
    }
    Ok(s)
}

} // verus!

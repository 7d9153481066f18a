use vstd::prelude::*;
use crate::subst::{apply, apply_seq, composition, lemma_vars_seq_push, lookup, vars, vars_seq, SubstV};
use crate::types::TyV;
use crate::types::VarV;

verus! {

/// Every variable of a right-hand side of `s` is in `r` and unbound by `s`.
pub open spec fn range_in(s: SubstV, r: Set<VarV>) -> bool {
    forall|v: VarV, w: VarV|
        #![trigger vars(lookup(s, v).unwrap()).contains(w)]
        lookup(s, v) is Some && vars(lookup(s, v).unwrap()).contains(w) ==> r.contains(w) && lookup(
            s,
            w,
        ) is None
}

/// `s` binds only variables of `v`, maps them to types over `v`, and binds no
/// variable that occurs in one of its right-hand sides.
pub open spec fn good(s: SubstV, v: Set<VarV>) -> bool {
    &&& forall|x: VarV| #[trigger] lookup(s, x) is Some ==> v.contains(x)
    &&& range_in(s, v)
}

pub proof fn lemma_apply_seq_push(ts: Seq<TyV>, t: TyV, s: SubstV)
    ensures
        apply_seq(ts.push(t), s) == apply_seq(ts, s).push(apply(t, s)),
{
    assert(ts.push(t).subrange(0, ts.len() as int) =~= ts);
}

pub proof fn lemma_lookup_append(a: SubstV, b: SubstV, v: VarV)
    ensures
        lookup(a + b, v) == match lookup(b, v) {
            Some(t) => Some(t),
            None => lookup(a, v),
        },
    decreases b.len(),
{
    if b.len() == 0 {
        assert(a + b =~= a);
    } else {
        assert((a + b).drop_last() =~= a + b.drop_last());
        lemma_lookup_append(a, b.drop_last(), v);
    }
}

pub proof fn lemma_lookup_map(s1: SubstV, s2: SubstV, v: VarV)
    ensures
        lookup(s1.map_values(|e: (VarV, TyV)| (e.0, apply(e.1, s2))), v) == match lookup(s1, v) {
            Some(t) => Some(apply(t, s2)),
            None => None,
        },
    decreases s1.len(),
{
    let m = s1.map_values(|e: (VarV, TyV)| (e.0, apply(e.1, s2)));
    if s1.len() > 0 {
        assert(m.drop_last() =~= s1.drop_last().map_values(|e: (VarV, TyV)| (e.0, apply(e.1, s2))));
        lemma_lookup_map(s1.drop_last(), s2, v);
    }
}

/// What a composed substitution binds a variable to.
pub proof fn lemma_lookup_composition(s1: SubstV, s2: SubstV, v: VarV)
    ensures
        lookup(composition(s1, s2), v) == match lookup(s2, v) {
            Some(t) => Some(t),
            None => match lookup(s1, v) {
                Some(t) => Some(apply(t, s2)),
                None => None,
            },
        },
{
    lemma_lookup_append(s1.map_values(|e: (VarV, TyV)| (e.0, apply(e.1, s2))), s2, v);
    lemma_lookup_map(s1, s2, v);
}

/// A substitution that binds no variable of `t` leaves it unchanged.
pub proof fn lemma_apply_idle(t: TyV, s: SubstV)
    requires
        forall|w: VarV| #[trigger] vars(t).contains(w) ==> lookup(s, w) is None,
    ensures
        apply(t, s) == t,
    decreases t,
{
    match t {
        TyV::Op(pre, post) => {
            assert forall|w: VarV| #[trigger] vars_seq(pre).contains(w) implies lookup(s, w) is None by {
                assert(vars(t).contains(w));
            }
            assert forall|w: VarV| #[trigger] vars_seq(post).contains(w) implies lookup(s, w) is None by {
                assert(vars(t).contains(w));
            }
            lemma_apply_seq_idle(pre, s);
            lemma_apply_seq_idle(post, s);
        },
        TyV::Poly(v) => {
            assert(vars(t).contains(v));
        },
        TyV::App(l, r) => {
            assert forall|w: VarV| #[trigger] vars(*l).contains(w) implies lookup(s, w) is None by {
                assert(vars(t).contains(w));
            }
            assert forall|w: VarV| #[trigger] vars(*r).contains(w) implies lookup(s, w) is None by {
                assert(vars(t).contains(w));
            }
            lemma_apply_idle(*l, s);
            lemma_apply_idle(*r, s);
        },
        _ => {},
    }
}

pub proof fn lemma_apply_seq_idle(ts: Seq<TyV>, s: SubstV)
    requires
        forall|w: VarV| #[trigger] vars_seq(ts).contains(w) ==> lookup(s, w) is None,
    ensures
        apply_seq(ts, s) == ts,
    decreases ts,
{
    if ts.len() > 0 {
        let p = ts.subrange(0, ts.len() - 1);
        let q = ts[ts.len() - 1];
        assert(p.push(q) =~= ts);
        lemma_vars_seq_push(p, q);
        assert forall|w: VarV| #[trigger] vars_seq(p).contains(w) implies lookup(s, w) is None by {
            assert(vars_seq(ts).contains(w));
        }
        assert forall|w: VarV| #[trigger] vars(q).contains(w) implies lookup(s, w) is None by {
            assert(vars_seq(ts).contains(w));
        }
        lemma_apply_seq_idle(p, s);
        lemma_apply_idle(q, s);
    }
}

/// The variables of `apply(t, s)` are unbound by `s`, and come from `t` or
/// from the right-hand sides of `s`.
pub proof fn lemma_vars_apply(t: TyV, s: SubstV, r: Set<VarV>)
    requires
        range_in(s, r),
    ensures
        forall|w: VarV| #[trigger] vars(apply(t, s)).contains(w) ==> lookup(s, w) is None && (vars(
            t,
        ).contains(w) || r.contains(w)),
    decreases t,
{
    match t {
        TyV::Op(pre, post) => {
            lemma_vars_apply_seq(pre, s, r);
            lemma_vars_apply_seq(post, s, r);
            assert forall|w: VarV| #[trigger] vars(apply(t, s)).contains(w) implies lookup(s, w) is None
                && (vars(t).contains(w) || r.contains(w)) by {
                if vars_seq(apply_seq(pre, s)).contains(w) {
                } else {
                    assert(vars_seq(apply_seq(post, s)).contains(w));
                }
            }
        },
        TyV::App(l, x) => {
            lemma_vars_apply(*l, s, r);
            lemma_vars_apply(*x, s, r);
            assert forall|w: VarV| #[trigger] vars(apply(t, s)).contains(w) implies lookup(s, w) is None
                && (vars(t).contains(w) || r.contains(w)) by {
                if vars(apply(*l, s)).contains(w) {
                } else {
                    assert(vars(apply(*x, s)).contains(w));
                }
            }
        },
        TyV::Poly(v) => {
            if lookup(s, v) is Some {
                assert forall|w: VarV| #[trigger] vars(apply(t, s)).contains(w) implies lookup(s, w) is None
                    && r.contains(w) by {
                    assert(vars(lookup(s, v).unwrap()).contains(w));
                }
            }
        },
        _ => {},
    }
}

pub proof fn lemma_vars_apply_seq(ts: Seq<TyV>, s: SubstV, r: Set<VarV>)
    requires
        range_in(s, r),
    ensures
        forall|w: VarV| #[trigger] vars_seq(apply_seq(ts, s)).contains(w) ==> lookup(s, w) is None
            && (vars_seq(ts).contains(w) || r.contains(w)),
    decreases ts,
{
    if ts.len() > 0 {
        let p = ts.subrange(0, ts.len() - 1);
        let q = ts[ts.len() - 1];
        assert(p.push(q) =~= ts);
        lemma_vars_seq_push(p, q);
        lemma_vars_seq_push(apply_seq(p, s), apply(q, s));
        lemma_vars_apply_seq(p, s, r);
        lemma_vars_apply(q, s, r);
        assert forall|w: VarV| #[trigger] vars_seq(apply_seq(ts, s)).contains(w) implies lookup(s, w) is None
            && (vars_seq(ts).contains(w) || r.contains(w)) by {
            if vars_seq(apply_seq(p, s)).contains(w) {
            } else {
                assert(vars(apply(q, s)).contains(w));
            }
        }
    }
}

/// Applying a composition is applying its parts in turn, where the second
/// binds nothing that the first binds.
pub proof fn lemma_apply_composition(t: TyV, s1: SubstV, s2: SubstV)
    requires
        forall|v: VarV| #[trigger] lookup(s1, v) is Some ==> lookup(s2, v) is None,
    ensures
        apply(t, composition(s1, s2)) == apply(apply(t, s1), s2),
    decreases t,
{
    match t {
        TyV::Op(pre, post) => {
            lemma_apply_seq_composition(pre, s1, s2);
            lemma_apply_seq_composition(post, s1, s2);
        },
        TyV::App(l, r) => {
            lemma_apply_composition(*l, s1, s2);
            lemma_apply_composition(*r, s1, s2);
        },
        TyV::Poly(v) => {
            lemma_lookup_composition(s1, s2, v);
        },
        _ => {},
    }
}

pub proof fn lemma_apply_seq_composition(ts: Seq<TyV>, s1: SubstV, s2: SubstV)
    requires
        forall|v: VarV| #[trigger] lookup(s1, v) is Some ==> lookup(s2, v) is None,
    ensures
        apply_seq(ts, composition(s1, s2)) == apply_seq(apply_seq(ts, s1), s2),
    decreases ts,
{
    if ts.len() > 0 {
        let p = ts.subrange(0, ts.len() - 1);
        let q = ts[ts.len() - 1];
        lemma_apply_seq_composition(p, s1, s2);
        lemma_apply_composition(q, s1, s2);
        lemma_apply_seq_push(apply_seq(p, s1), apply(q, s1), s2);
    }
}

/// Composing two such substitutions, where the second works only on
/// variables that the first leaves unbound, gives another.
pub proof fn lemma_good_composition(s1: SubstV, s2: SubstV, v: Set<VarV>, v2: Set<VarV>)
    requires
        good(s1, v),
        good(s2, v2),
        forall|w: VarV| #[trigger] v2.contains(w) ==> v.contains(w) && lookup(s1, w) is None,
    ensures
        good(composition(s1, s2), v),
        forall|x: VarV| #[trigger] lookup(s1, x) is Some ==> lookup(s2, x) is None,
{
    let c = composition(s1, s2);
    assert forall|x: VarV| #[trigger] lookup(c, x) is Some implies v.contains(x) by {
        lemma_lookup_composition(s1, s2, x);
    }
    assert forall|x: VarV, w: VarV|
        #![trigger vars(lookup(c, x).unwrap()).contains(w)]
        lookup(c, x) is Some && vars(lookup(c, x).unwrap()).contains(w) implies v.contains(w) && lookup(
            c,
            w,
        ) is None by {
        lemma_lookup_composition(s1, s2, x);
        lemma_lookup_composition(s1, s2, w);
        if lookup(s2, x) is Some {
            assert(vars(lookup(s2, x).unwrap()).contains(w));
        } else {
            let u = lookup(s1, x).unwrap();
            lemma_vars_apply(u, s2, v2);
            assert(vars(apply(u, s2)).contains(w));
            if vars(u).contains(w) {
                assert(vars(lookup(s1, x).unwrap()).contains(w));
            }
        }
    }
    assert forall|x: VarV| #[trigger] lookup(s1, x) is Some implies lookup(s2, x) is None by {
        if lookup(s2, x) is Some {
            assert(v2.contains(x));
        }
    }
}

/// Applying a substitution of this kind twice is applying it once.
pub proof fn lemma_apply_twice(t: TyV, s: SubstV, v: Set<VarV>)
    requires
        good(s, v),
    ensures
        apply(apply(t, s), s) == apply(t, s),
{
    lemma_vars_apply(apply(t, s), s, v);
    lemma_vars_apply(t, s, v);
    lemma_apply_idle(apply(t, s), s);
}

} // verus!

verus! {

pub proof fn lemma_vars_seq_index(ts: Seq<TyV>)
    ensures
        forall|i: int, w: VarV|
            0 <= i < ts.len() && #[trigger] vars(ts[i]).contains(w) ==> vars_seq(ts).contains(w),
    decreases ts.len(),
{
    if ts.len() > 0 {
        let p = ts.subrange(0, ts.len() - 1);
        lemma_vars_seq_index(p);
        assert forall|i: int, w: VarV|
            0 <= i < ts.len() && #[trigger] vars(ts[i]).contains(w) implies vars_seq(ts).contains(w) by {
            if i < ts.len() - 1 {
                assert(p[i] == ts[i]);
            }
        }
    }
}

pub proof fn lemma_good_mono(s: SubstV, a: Set<VarV>, b: Set<VarV>)
    requires
        good(s, a),
        a.subset_of(b),
    ensures
        good(s, b),
{
}

pub proof fn lemma_good_empty(v: Set<VarV>)
    ensures
        good(Seq::empty(), v),
{
}

pub proof fn lemma_lookup_single(v: VarV, t: TyV, w: VarV)
    ensures
        lookup(seq![(v, t)], w) == if v == w { Some(t) } else { None },
{
    let s = seq![(v, t)];
    assert(s.len() == 1);
    assert(s.last() == (v, t));
    assert(s.drop_last() =~= Seq::<(VarV, TyV)>::empty());
    assert(lookup(Seq::<(VarV, TyV)>::empty(), w) is None);
}

} // verus!

verus! {

/// Substitutions that bind every variable alike apply alike.
pub proof fn lemma_apply_ext(t: TyV, a: SubstV, b: SubstV)
    requires
        forall|v: VarV| #[trigger] lookup(a, v) == lookup(b, v),
    ensures
        apply(t, a) == apply(t, b),
    decreases t,
{
    match t {
        TyV::Op(pre, post) => {
            lemma_apply_seq_ext(pre, a, b);
            lemma_apply_seq_ext(post, a, b);
        },
        TyV::App(l, r) => {
            lemma_apply_ext(*l, a, b);
            lemma_apply_ext(*r, a, b);
        },
        TyV::Poly(v) => {
            assert(lookup(a, v) == lookup(b, v));
        },
        _ => {},
    }
}

pub proof fn lemma_apply_seq_ext(ts: Seq<TyV>, a: SubstV, b: SubstV)
    requires
        forall|v: VarV| #[trigger] lookup(a, v) == lookup(b, v),
    ensures
        apply_seq(ts, a) == apply_seq(ts, b),
    decreases ts,
{
    if ts.len() > 0 {
        lemma_apply_seq_ext(ts.subrange(0, ts.len() - 1), a, b);
        lemma_apply_ext(ts[ts.len() - 1], a, b);
    }
}

/// Composition is associative: `compose(compose(s1, s2), s3)` and
/// `compose(s1, compose(s2, s3))` apply alike to every type, wherever `s3`
/// rebinds no variable that `s2` binds.
pub proof fn lemma_composition_associative(s1: SubstV, s2: SubstV, s3: SubstV, t: TyV)
    requires
        forall|v: VarV| #[trigger] lookup(s2, v) is Some ==> lookup(s3, v) is None,
    ensures
        apply(t, composition(composition(s1, s2), s3)) == apply(
            t,
            composition(s1, composition(s2, s3)),
        ),
{
    let l = composition(composition(s1, s2), s3);
    let r = composition(s1, composition(s2, s3));
    assert forall|v: VarV| #[trigger] lookup(l, v) == lookup(r, v) by {
        lemma_lookup_composition(composition(s1, s2), s3, v);
        lemma_lookup_composition(s1, s2, v);
        lemma_lookup_composition(s1, composition(s2, s3), v);
        lemma_lookup_composition(s2, s3, v);
        if lookup(s1, v) is Some {
            lemma_apply_composition(lookup(s1, v).unwrap(), s2, s3);
        }
    }
    lemma_apply_ext(t, l, r);
}

} // verus!

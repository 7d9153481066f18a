use vstd::prelude::*;
use crate::types::{tys_view, OpTyV, OpType, TyV, Type, Var, VarV};

verus! {

/// Model of a substitution: an association list read from its end, so that a
/// later binding of a variable hides an earlier one.
pub type SubstV = Seq<(VarV, TyV)>;

pub open spec fn lookup(s: SubstV, v: VarV) -> Option<TyV>
    decreases s.len(),
{
    if s.len() == 0 {
        None
    } else if s.last().0 == v {
        Some(s.last().1)
    } else {
        lookup(s.drop_last(), v)
    }
}

pub open spec fn apply(t: TyV, s: SubstV) -> TyV
    decreases t,
{
    match t {
        TyV::Mono(n) => TyV::Mono(n),
        TyV::Poly(v) => match lookup(s, v) {
            Some(u) => u,
            None => TyV::Poly(v),
        },
        TyV::Op(pre, post) => TyV::Op(apply_seq(pre, s), apply_seq(post, s)),
        TyV::App(l, r) => TyV::App(Box::new(apply(*l, s)), Box::new(apply(*r, s))),
    }
}

pub open spec fn apply_seq(ts: Seq<TyV>, s: SubstV) -> Seq<TyV>
    decreases ts,
{
    if ts.len() == 0 {
        Seq::empty()
    } else {
        apply_seq(ts.subrange(0, ts.len() - 1), s).push(apply(ts[ts.len() - 1], s))
    }
}

pub open spec fn apply_op(o: OpTyV, s: SubstV) -> OpTyV {
    OpTyV { pre: apply_seq(o.pre, s), post: apply_seq(o.post, s) }
}

/// Free type variables.
pub open spec fn vars(t: TyV) -> Set<VarV>
    decreases t,
{
    match t {
        TyV::Mono(_) => Set::empty(),
        TyV::Poly(v) => set![v],
        TyV::Op(pre, post) => vars_seq(pre) + vars_seq(post),
        TyV::App(l, r) => vars(*l) + vars(*r),
    }
}

pub open spec fn vars_seq(ts: Seq<TyV>) -> Set<VarV>
    decreases ts,
{
    if ts.len() == 0 {
        Set::empty()
    } else {
        vars_seq(ts.subrange(0, ts.len() - 1)) + vars(ts[ts.len() - 1])
    }
}

pub open spec fn vars_op(o: OpTyV) -> Set<VarV> {
    vars_seq(o.pre) + vars_seq(o.post)
}

/// `compose(s1, s2)`: `s2` applied to every right-hand side of `s1`, then the
/// bindings of `s2`, which win over those of `s1`.
pub open spec fn composition(s1: SubstV, s2: SubstV) -> SubstV {
    s1.map_values(|e: (VarV, TyV)| (e.0, apply(e.1, s2))) + s2
}

pub open spec fn entries_view(s: Seq<(Var, Type)>) -> SubstV {
    s.map_values(|e: (Var, Type)| (e.0@, e.1@))
}

/// A substitution from type variables to types.
#[derive(Debug)]
pub struct Subst {
    pub entries: Vec<(Var, Type)>,
}

impl View for Subst {
    type V = SubstV;

    open spec fn view(&self) -> SubstV {
        entries_view(self.entries@)
    }
}

pub proof fn lemma_tys_view_index(s: Seq<Type>)
    ensures
        tys_view(s).len() == s.len(),
        forall|i: int| 0 <= i < s.len() ==> #[trigger] tys_view(s)[i] == s[i]@,
    decreases s.len(),
{
    if s.len() > 0 {
        lemma_tys_view_index(s.subrange(0, s.len() - 1));
    }
}

pub proof fn lemma_apply_seq_index(ts: Seq<TyV>, s: SubstV)
    ensures
        apply_seq(ts, s).len() == ts.len(),
        forall|i: int| 0 <= i < ts.len() ==> #[trigger] apply_seq(ts, s)[i] == apply(ts[i], s),
    decreases ts.len(),
{
    if ts.len() > 0 {
        lemma_apply_seq_index(ts.subrange(0, ts.len() - 1), s);
    }
}

/// Two sequences of exec types with equal models element by element have equal models.
pub proof fn lemma_tys_view_ext(a: Seq<Type>, b: Seq<TyV>)
    requires
        a.len() == b.len(),
        forall|i: int| 0 <= i < a.len() ==> #[trigger] a[i]@ == b[i],
    ensures
        tys_view(a) == b,
{
    lemma_tys_view_index(a);
    assert(tys_view(a) =~= b);
}

impl Subst {
    pub fn new() -> (r: Subst)
        ensures
            r@ == Seq::<(VarV, TyV)>::empty(),
    {
        let r = Subst { entries: Vec::new() };
        assert(r@ =~= Seq::<(VarV, TyV)>::empty());
        r
    }

    /// The binding of `v`, the latest one where there are several.
    pub fn get(&self, v: &Var) -> (r: Option<&Type>)
        ensures
            match r {
                Some(t) => lookup(self@, v@) == Some(t@),
                None => lookup(self@, v@) is None,
            },
    {
        let mut i: usize = self.entries.len();
        assert(self@.subrange(0, i as int) =~= self@);
        while i > 0
            invariant
                i <= self.entries@.len(),
                lookup(self@, v@) == lookup(self@.subrange(0, i as int), v@),
            decreases i,
        {
            let ghost p = self@.subrange(0, i as int);
            assert(p.drop_last() =~= self@.subrange(0, i - 1));
            if self.entries[i - 1].0.same(v) {
                return Some(&self.entries[i - 1].1);
            }
            i -= 1;
        }
        None
    }
}

/// The free variables of a type, in the order a left-to-right walk meets
/// them, repeats included.
pub open spec fn ftv_seq(t: TyV) -> Seq<VarV>
    decreases t,
{
    match t {
        TyV::Mono(_) => Seq::empty(),
        TyV::Poly(v) => seq![v],
        TyV::Op(pre, post) => ftv_seqs(pre) + ftv_seqs(post),
        TyV::App(l, r) => ftv_seq(*l) + ftv_seq(*r),
    }
}

pub open spec fn ftv_seqs(ts: Seq<TyV>) -> Seq<VarV>
    decreases ts,
{
    if ts.len() == 0 {
        Seq::empty()
    } else {
        ftv_seqs(ts.subrange(0, ts.len() - 1)) + ftv_seq(ts[ts.len() - 1])
    }
}

pub open spec fn ftv_op(o: OpTyV) -> Seq<VarV> {
    ftv_seqs(o.pre) + ftv_seqs(o.post)
}

pub open spec fn vars_view(s: Seq<Var>) -> Seq<VarV> {
    s.map_values(|v: Var| v@)
}

/// The variables named in a sequence of exec variables.
pub open spec fn var_set(s: Seq<Var>) -> Set<VarV> {
    Set::new(|v: VarV| exists|i: int| 0 <= i < s.len() && s[i]@ == v)
}

pub proof fn lemma_vars_seq_push(ts: Seq<TyV>, t: TyV)
    ensures
        vars_seq(ts.push(t)) == vars_seq(ts) + vars(t),
{
    assert(ts.push(t).subrange(0, ts.len() as int) =~= ts);
}

pub proof fn lemma_tys_view_push(ts: Seq<Type>, t: Type)
    ensures
        tys_view(ts.push(t)) == tys_view(ts).push(t@),
{
    assert(ts.push(t).subrange(0, ts.len() as int) =~= ts);
}

impl Type {
    /// Substitutes every variable that `s` binds.
    pub fn apply(&self, s: &Subst) -> (r: Type)
        ensures
            r@ == apply(self@, s@),
        decreases self,
    {
        match self {
            Type::Mono(n) => Type::Mono(n.clone()),
            Type::Poly(v) => match s.get(v) {
                Some(t) => t.copy(),
                None => Type::Poly(v.copy()),
            },
            Type::Op(o) => Type::Op(
                OpType { pre: apply_types(&o.pre, s), post: apply_types(&o.post, s) },
            ),
            Type::App(l, r) => Type::App(Box::new((**l).apply(s)), Box::new((**r).apply(s))),
        }
    }

    /// Pushes the free variables of `self` onto `acc`.
    pub fn collect_vars(&self, acc: &mut Vec<Var>)
        ensures
            var_set(final(acc)@) == var_set(old(acc)@) + vars(self@),
            vars_view(final(acc)@) == vars_view(old(acc)@) + ftv_seq(self@),
        decreases self,
    {
        match self {
            Type::Mono(_) => {
                assert(var_set(acc@) =~= var_set(acc@) + vars(self@));
                assert(vars_view(acc@) =~= vars_view(acc@) + ftv_seq(self@));
            },
            Type::Poly(v) => {
                let ghost a = acc@;
                acc.push(v.copy());
                assert forall|w: VarV| var_set(a).contains(w) implies var_set(acc@).contains(w) by {
                    let i = choose|i: int| 0 <= i < a.len() && a[i]@ == w;
                    assert(acc@[i] == a[i]);
                }
                assert(var_set(acc@).contains(v@)) by {
                    assert(acc@[a.len() as int]@ == v@);
                }
                assert(var_set(acc@) =~= var_set(a) + vars(self@));
                assert(vars_view(acc@) =~= vars_view(a) + ftv_seq(self@));
            },
            Type::Op(o) => {
                let ghost a = acc@;
                collect_vars_seq(&o.pre, acc);
                collect_vars_seq(&o.post, acc);
                assert(var_set(acc@) =~= var_set(a) + vars(self@));
                assert(vars_view(acc@) =~= vars_view(a) + ftv_seq(self@));
            },
            Type::App(l, r) => {
                let ghost a = acc@;
                (**l).collect_vars(acc);
                (**r).collect_vars(acc);
                assert(var_set(acc@) =~= var_set(a) + vars(self@));
                assert(vars_view(acc@) =~= vars_view(a) + ftv_seq(self@));
            },
        }
    }

    /// The free type variables of `self`, possibly repeated.
    pub fn ftv(&self) -> (r: Vec<Var>)
        ensures
            var_set(r@) == vars(self@),
    {
        let mut r: Vec<Var> = Vec::new();
        self.collect_vars(&mut r);
        assert(var_set(Seq::<Var>::empty()) =~= Set::<VarV>::empty());
        assert(var_set(r@) =~= vars(self@));
        r
    }

    /// Whether `v` is a free variable of `self`.
    pub fn occurs(&self, v: &Var) -> (r: bool)
        ensures
            r == vars(self@).contains(v@),
    {
        let fv = self.ftv();
        let mut i: usize = 0;
        while i < fv.len()
            invariant
                i <= fv@.len(),
                var_set(fv@) == vars(self@),
                forall|j: int| 0 <= j < i ==> fv@[j]@ != v@,
            decreases fv@.len() - i,
        {
            if fv[i].same(v) {
                return true;
            }
            i += 1;
        }
        false
    }
}

pub fn collect_vars_seq(ts: &Vec<Type>, acc: &mut Vec<Var>)
    ensures
        var_set(final(acc)@) == var_set(old(acc)@) + vars_seq(tys_view(ts@)),
        vars_view(final(acc)@) == vars_view(old(acc)@) + ftv_seqs(tys_view(ts@)),
    decreases ts,
{
    let ghost a = acc@;
    let mut i: usize = 0;
    assert(ts@.subrange(0, 0) =~= Seq::<Type>::empty());
    assert(var_set(acc@) =~= var_set(a) + vars_seq(tys_view(ts@.subrange(0, 0))));
    assert(vars_view(acc@) =~= vars_view(a) + ftv_seqs(tys_view(ts@.subrange(0, 0))));
    while i < ts.len()
        invariant
            i <= ts@.len(),
            var_set(acc@) == var_set(a) + vars_seq(tys_view(ts@.subrange(0, i as int))),
            vars_view(acc@) == vars_view(a) + ftv_seqs(tys_view(ts@.subrange(0, i as int))),
        decreases ts@.len() - i,
    {
        proof {
            assert(decreases_to!(ts => ts@[i as int]));
        }
        ts[i].collect_vars(acc);
        proof {
            assert(ts@.subrange(0, i + 1) =~= ts@.subrange(0, i as int).push(ts@[i as int]));
            lemma_tys_view_push(ts@.subrange(0, i as int), ts@[i as int]);
            lemma_vars_seq_push(tys_view(ts@.subrange(0, i as int)), ts@[i as int]@);
            assert(var_set(acc@) =~= var_set(a) + vars_seq(tys_view(ts@.subrange(0, i + 1))));
            let tv = tys_view(ts@.subrange(0, i as int)).push(ts@[i as int]@);
            assert(tv.subrange(0, tv.len() - 1) =~= tys_view(ts@.subrange(0, i as int)));
            assert(vars_view(acc@) =~= vars_view(a) + ftv_seqs(tys_view(ts@.subrange(0, i + 1))));
        }
        i += 1;
    }
    assert(ts@.subrange(0, ts@.len() as int) =~= ts@);
}

/// Applies `s` to each type of a stack.
pub fn apply_types(ts: &Vec<Type>, s: &Subst) -> (r: Vec<Type>)
    ensures
        r@.len() == ts@.len(),
        tys_view(r@) == apply_seq(tys_view(ts@), s@),
    decreases ts,
{
    let mut r: Vec<Type> = Vec::new();
    let mut i: usize = 0;
    while i < ts.len()
        invariant
            i <= ts@.len(),
            r@.len() == i,
            forall|j: int| 0 <= j < i ==> #[trigger] r@[j]@ == apply(ts@[j]@, s@),
        decreases ts@.len() - i,
    {
        proof {
            assert(decreases_to!(ts => ts@[i as int]));
        }
        let t = ts[i].apply(s);
        r.push(t);
        i += 1;
    }
    proof {
        lemma_tys_view_index(ts@);
        lemma_apply_seq_index(tys_view(ts@), s@);
        lemma_tys_view_ext(r@, apply_seq(tys_view(ts@), s@));
    }
    r
}

impl OpType {
    pub fn apply(&self, s: &Subst) -> (r: OpType)
        ensures
            r@ == apply_op(self@, s@),
    {
        OpType { pre: apply_types(&self.pre, s), post: apply_types(&self.post, s) }
    }

    /// The free type variables of both stacks, possibly repeated.
    pub fn ftv(&self) -> (r: Vec<Var>)
        ensures
            var_set(r@) == vars_op(self@),
            vars_view(r@) == ftv_op(self@),
    {
        let mut r: Vec<Var> = Vec::new();
        collect_vars_seq(&self.pre, &mut r);
        collect_vars_seq(&self.post, &mut r);
        assert(var_set(Seq::<Var>::empty()) =~= Set::<VarV>::empty());
        assert(var_set(r@) =~= vars_op(self@));
        assert(vars_view(r@) =~= ftv_op(self@));
        r
    }
}

/// Composes two substitutions: `s2` is applied to each right-hand side of
/// `s1`, and the bindings of `s2` come after, so that they win.
pub fn compose(s1: Subst, s2: Subst) -> (r: Subst)
    ensures
        r@ == composition(s1@, s2@),
{
    let mut entries: Vec<(Var, Type)> = Vec::new();
    let mut i: usize = 0;
    while i < s1.entries.len()
        invariant
            i <= s1.entries@.len(),
            entries@.len() == i,
            forall|j: int| 0 <= j < i ==> #[trigger] entries@[j].0@ == s1.entries@[j].0@
                && entries@[j].1@ == apply(s1.entries@[j].1@, s2@),
        decreases s1.entries@.len() - i,
    {
        let k = s1.entries[i].0.copy();
        let t = s1.entries[i].1.apply(&s2);
        entries.push((k, t));
        i += 1;
    }
    let ghost mapped = entries@;
    let mut s2 = s2;
    let ghost s2v = s2@;
    let ghost s2e = s2.entries@;
    entries.append(&mut s2.entries);
    let r = Subst { entries };
    assert(r@ =~= composition(s1@, s2v));
    r
}

} // verus!

verus! {

pub proof fn lemma_lookup_push(s: SubstV, e: (VarV, TyV), v: VarV)
    ensures
        lookup(s.push(e), v) == if e.0 == v { Some(e.1) } else { lookup(s, v) },
{
    assert(s.push(e).drop_last() =~= s);
}

pub proof fn lemma_apply_empty(t: TyV)
    ensures
        apply(t, Seq::empty()) == t,
    decreases t,
{
    match t {
        TyV::Op(pre, post) => {
            lemma_apply_seq_empty(pre);
            lemma_apply_seq_empty(post);
        },
        TyV::App(l, r) => {
            lemma_apply_empty(*l);
            lemma_apply_empty(*r);
        },
        _ => {},
    }
}

pub proof fn lemma_apply_seq_empty(ts: Seq<TyV>)
    ensures
        apply_seq(ts, Seq::empty()) == ts,
    decreases ts,
{
    if ts.len() > 0 {
        let p = ts.subrange(0, ts.len() - 1);
        lemma_apply_seq_empty(p);
        lemma_apply_empty(ts[ts.len() - 1]);
        assert(p.push(ts[ts.len() - 1]) =~= ts);
    }
}

} // verus!

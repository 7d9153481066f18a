use vstd::prelude::*;
use crate::ast::{CaseArm, ConstrDef, DataDef, Literal, Module, Op, OpDef, Span};
use crate::index::{
    constr_known, has_duplicate, index_entries, lemma_index_entries_complete,
    lemma_index_entries_sound, IndexEntry, ModuleConstrOpTypeMap,
};
use crate::error::{is_unify_error, InferenceError, InferenceErrorMessage};
use crate::prelude;
use crate::subst::{
    apply, apply_op, apply_seq, composition, lemma_apply_empty, lemma_apply_seq_index, lemma_apply_seq_empty, lemma_lookup_push,
    lemma_tys_view_index, lemma_tys_view_push, vars, ftv_op, vars_view,
    lookup, vars_op, var_set, Subst, SubstV,
};
use crate::unify::{err_is, mgu_types, unify, unify_op, unify_seq, unify_seq_from, UnifyErr, DEPTH};
use crate::types::{copy_types, tys_view, OpTyV, OpType, TyV, Type, Var, VarV};

verus! {

/// How many pass-through slots `augment_op_ow` adds to `g` toward `c`.
pub open spec fn pad_count(g: OpTyV, c: OpTyV) -> nat {
    if g.pre.len() < c.pre.len() && g.post.len() < c.post.len() {
        let a = c.pre.len() - g.pre.len();
        let b = c.post.len() - g.post.len();
        (if a < b { a } else { b }) as nat
    } else {
        0
    }
}

/// `r` is `g` with `k` generated variables pushed onto both stacks, the same
/// variable at the same depth on each.
pub open spec fn padded(g: OpTyV, r: OpTyV, k: nat) -> bool {
    &&& r.pre.len() == g.pre.len() + k
    &&& r.post.len() == g.post.len() + k
    &&& r.pre.subrange(0, g.pre.len() as int) == g.pre
    &&& r.post.subrange(0, g.post.len() as int) == g.post
    &&& forall|i: int|
        0 <= i < k ==> #[trigger] r.pre[g.pre.len() + i] == r.post[g.post.len() + i]
            && r.pre[g.pre.len() + i] matches TyV::Poly(VarV::Gen(_))
}

/// The signature of two operations run one after the other, before the
/// values that the first hands to the second are unified.
pub open spec fn chain_shape(o1: OpTyV, o2: OpTyV) -> OpTyV {
    if o1.post.len() >= o2.pre.len() {
        OpTyV { pre: o1.pre, post: o2.post + o1.post.skip(o2.pre.len() as int) }
    } else {
        OpTyV { pre: o1.pre + o2.pre.skip(o1.post.len() as int), post: o2.post }
    }
}

/// The `i`-th generated variable counted from `c`, wrapping like the counter.
pub open spec fn nth_gen(c: u64, i: nat) -> TyV {
    TyV::Poly(VarV::Gen(((c as nat + i) % 0x1_0000_0000_0000_0000) as nat))
}

/// The counter after `k` names are drawn from `c`.
pub open spec fn advanced(c: u64, k: nat) -> u64 {
    ((c as nat + k) % 0x1_0000_0000_0000_0000) as u64
}

/// The `k` generated variables drawn from `c`, in order.
pub open spec fn pads(c: u64, k: nat) -> Seq<TyV> {
    Seq::new(k, |i: int| nth_gen(c, i as nat))
}

/// `g` padded toward `c` with variables drawn from the counter value `n`.
pub open spec fn pad_spec(g: OpTyV, c: OpTyV, n: u64) -> OpTyV {
    OpTyV {
        pre: g.pre + pads(n, pad_count(g, c)),
        post: g.post + pads(n, pad_count(g, c)),
    }
}

/// The outcome of chaining `o1` then `o2`: the handed-over values are
/// unified, and the unifier is applied to the overflow or underflow shape.
pub open spec fn chain_spec(o1: OpTyV, o2: OpTyV) -> Result<OpTyV, UnifyErr> {
    let l = handed_over(o1, o2);
    match unify_seq(o1.post.subrange(0, l), o2.pre.subrange(0, l), DEPTH as nat) {
        Ok(s) => Ok(apply_op(chain_shape(o1, o2), s)),
        Err(e) => Err(e),
    }
}

/// `r` is the outcome `c`, error payload included.
pub open spec fn chain_outcome(r: Result<OpType, InferenceErrorMessage>, c: Result<OpTyV, UnifyErr>) -> bool {
    match c {
        Ok(o) => r matches Ok(x) && x@ == o,
        Err(u) => r matches Err(e) && err_is(e, u),
    }
}

/// The outcome of checking `inf` against `ann` with the counter at `n`: the
/// padded `inf` must unify with `ann`, and the unifier must keep `ann` general.
pub open spec fn ann_outcome(r: Result<(), InferenceErrorMessage>, inf: OpTyV, ann: OpTyV, n: u64) -> bool {
    let p = pad_spec(inf, ann, n);
    match unify_op(p, ann, DEPTH as nat) {
        Err(u) => r matches Err(e) && err_is(e, u),
        Ok(s) => if keeps_general(ann, s) {
            r is Ok
        } else {
            r matches Err(InferenceErrorMessage::AnnInfConflict { inf: i, ann: a }) && i@ == p && a@
                == ann
        },
    }
}

/// The number of values that the first of two chained operations hands to
/// the second.
pub open spec fn handed_over(o1: OpTyV, o2: OpTyV) -> int {
    if o1.post.len() < o2.pre.len() {
        o1.post.len() as int
    } else {
        o2.pre.len() as int
    }
}

/// `s` makes the values that `o1` leaves at the bottom of what it hands over
/// equal to those that `o2` takes there.
pub open spec fn handed_over_unify(o1: OpTyV, o2: OpTyV, s: SubstV) -> bool {
    apply_seq(o1.post.subrange(0, handed_over(o1, o2)), s) == apply_seq(
        o2.pre.subrange(0, handed_over(o1, o2)),
        s,
    )
}

/// `s` binds each free variable of `o`, and its `i`-th entry binds a variable
/// to the `i`-th name drawn from the counter value `c`; distinct variables
/// get distinct names.
pub open spec fn fresh_renaming(o: OpTyV, s: SubstV, c: u64) -> bool {
    &&& s.len() < 0x1_0000_0000_0000_0000
    &&& forall|i: int| 0 <= i < s.len() ==> (#[trigger] s[i]).1 == nth_gen(c, i as nat)
    &&& forall|v: VarV| #[trigger] vars_op(o).contains(v) ==> lookup(s, v) is Some
    &&& forall|v: VarV, w: VarV|
        #![trigger lookup(s, v), lookup(s, w)]
        vars_op(o).contains(v) && vars_op(o).contains(w) && v != w ==> lookup(s, v) != lookup(s, w)
}

/// A binding that `lookup` finds is the last entry for its variable.
pub proof fn lemma_lookup_index(s: SubstV, v: VarV)
    requires
        lookup(s, v) is Some,
    ensures
        exists|i: int|
            0 <= i < s.len() && s[i].0 == v && Some(s[i].1) == lookup(s, v) && forall|j: int|
                i < j < s.len() ==> s[j].0 != v,
    decreases s.len(),
{
    if s.last().0 != v {
        lemma_lookup_index(s.drop_last(), v);
        let i = choose|i: int|
            0 <= i < s.drop_last().len() && s.drop_last()[i].0 == v && Some(s.drop_last()[i].1)
                == lookup(s.drop_last(), v) && forall|j: int|
                i < j < s.drop_last().len() ==> s.drop_last()[j].0 != v;
        assert(s[i] == s.drop_last()[i]);
        assert forall|j: int| i < j < s.len() implies s[j].0 != v by {
            if j < s.len() - 1 {
                assert(s[j] == s.drop_last()[j]);
            }
        }
    } else {
        assert(s[s.len() - 1].0 == v);
    }
}

proof fn lemma_fresh_distinct(o: OpTyV, s: SubstV, c: u64)
    requires
        s.len() < 0x1_0000_0000_0000_0000,
        forall|i: int| 0 <= i < s.len() ==> (#[trigger] s[i]).1 == nth_gen(c, i as nat),
        forall|v: VarV| #[trigger] vars_op(o).contains(v) ==> lookup(s, v) is Some,
    ensures
        fresh_renaming(o, s, c),
{
    assert forall|v: VarV, w: VarV|
        #![trigger lookup(s, v), lookup(s, w)]
        vars_op(o).contains(v) && vars_op(o).contains(w) && v != w implies lookup(s, v) != lookup(s, w) by {
        lemma_lookup_index(s, v);
        lemma_lookup_index(s, w);
        let i = choose|i: int|
            0 <= i < s.len() && s[i].0 == v && Some(s[i].1) == lookup(s, v) && forall|j: int|
                i < j < s.len() ==> s[j].0 != v;
        let k = choose|k: int|
            0 <= k < s.len() && s[k].0 == w && Some(s[k].1) == lookup(s, w) && forall|j: int|
                k < j < s.len() ==> s[j].0 != w;
        assert(s[i].1 == nth_gen(c, i as nat));
        assert(s[k].1 == nth_gen(c, k as nat));
        assert(i != k);
        assert((c as nat + i as nat) % 0x1_0000_0000_0000_0000 != (c as nat + k as nat)
            % 0x1_0000_0000_0000_0000);
    }
}

/// `s` maps each free variable of `o` to a generated variable.
pub open spec fn renames_fresh(o: OpTyV, s: SubstV) -> bool {
    forall|v: VarV| #[trigger] vars_op(o).contains(v) ==> lookup(s, v) matches Some(
        TyV::Poly(VarV::Gen(_)),
    )
}

pub open spec fn literal_sig(lit: Literal) -> OpTyV {
    match lit {
        Literal::Int(_) => OpTyV { pre: seq![], post: seq![TyV::Mono("Int"@)] },
    }
}

/// A copy of the first `n` types of a stack.
fn prefix(v: &Vec<Type>, n: usize) -> (r: Vec<Type>)
    requires
        n <= v@.len(),
    ensures
        r@.len() == n,
        tys_view(r@) == tys_view(v@).subrange(0, n as int),
{
    let mut r: Vec<Type> = Vec::new();
    let mut i: usize = 0;
    while i < n
        invariant
            i <= n <= v@.len(),
            r@.len() == i,
            forall|j: int| 0 <= j < i ==> #[trigger] r@[j]@ == v@[j]@,
        decreases n - i,
    {
        r.push(v[i].copy());
        i += 1;
    }
    proof {
        lemma_tys_view_index(r@);
        lemma_tys_view_index(v@);
        assert(tys_view(r@) =~= tys_view(v@).subrange(0, n as int));
    }
    r
}

/// `a` followed by the types of `b` from position `n` on.
fn append_from(a: Vec<Type>, b: &Vec<Type>, n: usize) -> (r: Vec<Type>)
    requires
        n <= b@.len(),
    ensures
        tys_view(r@) == tys_view(a@) + tys_view(b@).skip(n as int),
{
    let mut r = a;
    let mut i: usize = n;
    while i < b.len()
        invariant
            n <= i <= b@.len(),
            r@.len() == a@.len() + (i - n),
            forall|j: int| 0 <= j < a@.len() ==> #[trigger] r@[j]@ == a@[j]@,
            forall|j: int| a@.len() <= j < r@.len() ==> #[trigger] r@[j]@ == b@[j - a@.len() + n]@,
        decreases b@.len() - i,
    {
        r.push(b[i].copy());
        i += 1;
    }
    proof {
        lemma_tys_view_index(r@);
        lemma_tys_view_index(a@);
        lemma_tys_view_index(b@);
        assert(tys_view(r@) =~= tys_view(a@) + tys_view(b@).skip(n as int));
    }
    r
}

/// `n` names a user operation of the module.
pub open spec fn user_known(m: Module, n: Seq<char>) -> bool {
    exists|i: int| 0 <= i < m.op_defs@.len() && #[trigger] m.op_defs@[i].0@ == n
}

/// The position of the first user operation named `n`.
pub open spec fn first_user(m: Module, n: Seq<char>) -> int {
    choose|i: int|
        0 <= i < m.op_defs@.len() && m.op_defs@[i].0@ == n && forall|j: int|
            0 <= j < i ==> m.op_defs@[j].0@ != n
}

/// The constructors that the arms of a case name, head arm first.
pub open spec fn arm_names(head: CaseArm, arms: Seq<CaseArm>) -> Seq<Seq<char>> {
    seq![head.constr@] + arms.map_values(|a: CaseArm| a.constr@)
}

pub open spec fn names_of(cs: Seq<&String>) -> Seq<Seq<char>> {
    cs.map_values(|c: &String| c@)
}

/// The names of the constructors of `d`, as a set.
pub open spec fn constr_names(d: DataDef) -> Set<Seq<char>> {
    d.constrs@.map_values(|c: (String, ConstrDef)| c.0@).to_set()
}

/// No free variable of the annotation is bound to anything but a variable.
pub open spec fn keeps_general(ann: OpTyV, s: SubstV) -> bool {
    forall|v: VarV| #[trigger] vars_op(ann).contains(v) ==> match lookup(s, v) {
        Some(t) => t is Poly,
        None => true,
    }
}

/// Whether each variable of `vs` is left alone by `s` or bound to a variable.
pub fn ann_is_general(vs: &Vec<Var>, s: &Subst) -> (r: bool)
    ensures
        r == forall|v: VarV| #[trigger] var_set(vs@).contains(v) ==> match lookup(s@, v) {
            Some(t) => t is Poly,
            None => true,
        },
{
    let mut i: usize = 0;
    while i < vs.len()
        invariant
            i <= vs@.len(),
            forall|k: int| 0 <= k < i ==> match #[trigger] lookup(s@, vs@[k]@) {
                Some(t) => t is Poly,
                None => true,
            },
        decreases vs@.len() - i,
    {
        match s.get(&vs[i]) {
            Some(Type::Poly(_)) => {},
            Some(_) => {
                assert(var_set(vs@).contains(vs@[i as int]@));
                return false;
            },
            None => {},
        }
        i += 1;
    }
    assert forall|v: VarV| #[trigger] var_set(vs@).contains(v) implies match lookup(s@, v) {
        Some(t) => t is Poly,
        None => true,
    } by {
        let k = choose|k: int| 0 <= k < vs@.len() && vs@[k]@ == v;
        assert(lookup(s@, vs@[k]@) == lookup(s@, v));
    }
    true
}

/// Whether the covered names, as a set, are exactly the constructors of `d`.
pub fn covers_exactly(d: &DataDef, covered: &Vec<&String>) -> (r: bool)
    ensures
        r == (names_of(covered@).to_set() == constr_names(*d)),
{
    let ghost cs = names_of(covered@);
    let ghost ds = d.constrs@.map_values(|c: (String, ConstrDef)| c.0@);
    let mut i: usize = 0;
    while i < covered.len()
        invariant
            i <= covered@.len(),
            cs == names_of(covered@),
            ds == d.constrs@.map_values(|c: (String, ConstrDef)| c.0@),
            forall|k: int| 0 <= k < i ==> ds.contains(#[trigger] cs[k]),
        decreases covered@.len() - i,
    {
        let mut j: usize = 0;
        let mut found = false;
        while j < d.constrs.len()
            invariant
                i < covered@.len(),
                j <= d.constrs@.len(),
                cs == names_of(covered@),
                ds == d.constrs@.map_values(|c: (String, ConstrDef)| c.0@),
                found ==> ds.contains(cs[i as int]),
                !found ==> forall|k: int| 0 <= k < j ==> ds[k] != cs[i as int],
            decreases d.constrs@.len() - j,
        {
            if d.constrs[j].0 == *covered[i] {
                found = true;
                assert(ds[j as int] == cs[i as int]);
            }
            j += 1;
        }
        if !found {
            proof {
                assert(cs.to_set().contains(cs[i as int]));
                assert(!ds.to_set().contains(cs[i as int])) by {
                    if ds.contains(cs[i as int]) {
                        let k = choose|k: int| 0 <= k < ds.len() && ds[k] == cs[i as int];
                    }
                }
            }
            return false;
        }
        i += 1;
    }
    let mut j: usize = 0;
    while j < d.constrs.len()
        invariant
            j <= d.constrs@.len(),
            cs == names_of(covered@),
            ds == d.constrs@.map_values(|c: (String, ConstrDef)| c.0@),
            forall|k: int| 0 <= k < covered@.len() ==> ds.contains(#[trigger] cs[k]),
            forall|k: int| 0 <= k < j ==> cs.contains(#[trigger] ds[k]),
        decreases d.constrs@.len() - j,
    {
        let mut i: usize = 0;
        let mut found = false;
        while i < covered.len()
            invariant
                j < d.constrs@.len(),
                i <= covered@.len(),
                cs == names_of(covered@),
                ds == d.constrs@.map_values(|c: (String, ConstrDef)| c.0@),
                found ==> cs.contains(ds[j as int]),
                !found ==> forall|k: int| 0 <= k < i ==> cs[k] != ds[j as int],
            decreases covered@.len() - i,
        {
            if *covered[i] == d.constrs[j].0 {
                found = true;
                assert(ds[j as int] == cs[i as int]);
            }
            i += 1;
        }
        if !found {
            proof {
                assert(ds.to_set().contains(ds[j as int]));
                assert(!cs.to_set().contains(ds[j as int])) by {
                    if cs.contains(ds[j as int]) {
                        let k = choose|k: int| 0 <= k < cs.len() && cs[k] == ds[j as int];
                    }
                }
            }
            return false;
        }
        j += 1;
    }
    proof {
        assert forall|x: Seq<char>| cs.to_set().contains(x) == ds.to_set().contains(x) by {
            if cs.contains(x) {
                let k = choose|k: int| 0 <= k < cs.len() && cs[k] == x;
            }
            if ds.contains(x) {
                let k = choose|k: int| 0 <= k < ds.len() && ds[k] == x;
            }
        }
        assert(cs.to_set() =~= ds.to_set());
    }
    true
}

/// The position of the first entry of the index for constructor `n`.
pub open spec fn first_entry(idx: Seq<IndexEntry>, n: Seq<char>) -> int {
    choose|k: int| 0 <= k < idx.len() && idx[k].0 == n && forall|j: int| 0 <= j < k ==> idx[j].0 != n
}

/// The signature of the empty body.
pub open spec fn empty_sig() -> OpTyV {
    OpTyV { pre: seq![], post: seq![] }
}

/// The type-checking context of one module: its constructor index and the
/// counter that fresh type variables are numbered from.
pub struct Inference<'m> {
    pub module: &'m Module,
    pub optype_maps: ModuleConstrOpTypeMap,
    pub counter: u64,
}

impl<'m> Inference<'m> {
    pub open spec fn same_context(&self, other: &Inference<'m>) -> bool {
        self.module == other.module && self.optype_maps == other.optype_maps
    }

    /// What inference reads: the module and its constructor index.
    pub open spec fn ctx(&self) -> Ctx {
        Ctx { m: *self.module, idx: self.optype_maps@ }
    }

    pub open spec fn resolve(&self, n: Seq<char>) -> Option<OpTyV> {
        self.ctx().resolve(n)
    }

    /// The index is the one built from the module.
    pub open spec fn wf(&self) -> bool {
        self.optype_maps@ == index_entries(self.module.data_defs@)
    }

    /// The data type that owns constructor `n`: the first that declares it.
    pub open spec fn owner(&self, n: Seq<char>) -> DataDef {
        self.ctx().owner(n)
    }

    pub fn new(module: &'m Module) -> (r: Self)
        ensures
            r.wf(),
            r.module == module,
            r.optype_maps@ == index_entries(module.data_defs@),
            r.counter == 0,
    {
        let optype_maps = ModuleConstrOpTypeMap::new(module);
        Inference { module, optype_maps, counter: 0 }
    }

    /// A type variable that no other call has returned, numbered from the
    /// counter; the counter wraps around after 2^64 names.
    fn gen_name(&mut self) -> (r: Type)
        ensures
            r@ == TyV::Poly(VarV::Gen(old(self).counter as nat)),
            final(self).counter == if old(self).counter == u64::MAX {
                0
            } else {
                (old(self).counter + 1) as u64
            },
            final(self).same_context(old(self)),
    {
        let n = self.counter;
        self.counter = self.counter.wrapping_add(1);
        Type::Poly(Var::Gen(n))
    }

    /// `op` with each free variable renamed to a fresh generated variable,
    /// drawn once per distinct variable.
    fn instantiate_op(&mut self, op: &OpType) -> (r: OpType)
        ensures
            exists|s: SubstV| renames_fresh(op@, s) && r@ == apply_op(op@, s),
            exists|s: SubstV|
                #![trigger apply_op(op@, s)]
                fresh_renaming(op@, s, old(self).counter) && r@ == apply_op(op@, s)
                    && final(self).counter == advanced(old(self).counter, s.len()),
            r@ == inst_spec(op@, old(self).counter).0,
            final(self).counter == inst_spec(op@, old(self).counter).1,
            final(self).same_context(old(self)),
    {
        let ghost c0 = self.counter;
        let vs = op.ftv();
        let ghost vv = vars_view(vs@);
        assert(fresh_from(vv, 0, s0_empty(), c0) == inst_subst(op@, c0));
        let mut s = Subst::new();
        let mut i: usize = 0;
        while i < vs.len()
            invariant
                i <= vs@.len(),
                self.same_context(old(self)),
                forall|v: VarV| lookup(s@, v) is Some ==> #[trigger] lookup(s@, v) matches Some(
                    TyV::Poly(VarV::Gen(_)),
                ),
                forall|k: int| 0 <= k < i ==> #[trigger] lookup(s@, vs@[k]@) is Some,
                s@.len() <= i,
                forall|k: int| 0 <= k < s@.len() ==> (#[trigger] s@[k]).1 == nth_gen(c0, k as nat),
                self.counter == advanced(c0, s@.len()),
                vv == vars_view(vs@),
                vv.len() == vs@.len(),
                fresh_from(vv, i as nat, s@, c0) == inst_subst(op@, c0),
            decreases vs@.len() - i,
        {
            assert(vv[i as int] == vs@[i as int]@);
            if s.get(&vs[i]).is_some() {
                i += 1;
                continue;
            }
            let ghost before = s@;
            let t = self.gen_name();
            let v = vs[i].copy();
            let ghost e = (v@, t@);
            s.entries.push((v, t));
            proof {
                assert(s@ =~= before.push(e));
                assert(e.1 == nth_gen(c0, before.len()));
                assert forall|w: VarV| #[trigger] lookup(s@, w) == if e.0 == w {
                    Some(e.1)
                } else {
                    lookup(before, w)
                } by {
                    lemma_lookup_push(before, e, w);
                }
            }
            i += 1;
        }
        assert forall|v: VarV| #[trigger] vars_op(op@).contains(v) implies lookup(s@, v) matches Some(
            TyV::Poly(VarV::Gen(_)),
        ) by {
            assert(var_set(vs@).contains(v));
            let k = choose|k: int| 0 <= k < vs@.len() && vs@[k]@ == v;
            assert(lookup(s@, vs@[k]@) is Some);
        }
        proof {
            lemma_fresh_distinct(op@, s@, c0);
        }
        let r = op.apply(&s);
        assert(r@ == inst_spec(op@, c0).0);
        r
    }

    /// Pads `general` toward `concrete`: while both of its stacks are shorter
    /// than those of `concrete`, one fresh variable goes onto both.
    fn augment_op_ow(&mut self, general: OpType, concrete: &OpType) -> (r: OpType)
        ensures
            padded(general@, r@, pad_count(general@, concrete@)),
            r@ == pad_spec(general@, concrete@, old(self).counter),
            final(self).counter == advanced(old(self).counter, pad_count(general@, concrete@)),
            final(self).same_context(old(self)),
    {
        let ghost g = general@;
        let ghost c0 = self.counter;
        assert(g.pre + pads(c0, 0) =~= g.pre);
        assert(g.post + pads(c0, 0) =~= g.post);
        let mut general = general;
        proof {
            lemma_tys_view_index(general.pre@);
            lemma_tys_view_index(general.post@);
            lemma_tys_view_index(concrete.pre@);
            lemma_tys_view_index(concrete.post@);
            assert(general@.pre.subrange(0, g.pre.len() as int) =~= g.pre);
            assert(general@.post.subrange(0, g.post.len() as int) =~= g.post);
        }
        let ghost mut k: nat = 0;
        while general.pre.len() < concrete.pre.len() && general.post.len() < concrete.post.len()
            invariant
                self.same_context(old(self)),
                padded(g, general@, k),
                k <= pad_count(g, concrete@),
                general@.pre == g.pre + pads(c0, k),
                general@.post == g.post + pads(c0, k),
                self.counter == advanced(c0, k),
                general.pre@.len() == general@.pre.len(),
                general.post@.len() == general@.post.len(),
                concrete.pre@.len() == concrete@.pre.len(),
                concrete.post@.len() == concrete@.post.len(),
            decreases concrete.pre@.len() - general.pre@.len(),
        {
            let ghost before = general@;
            let v = self.gen_name();
            let ghost vv = v@;
            let c = v.copy();
            let ghost pre0 = general.pre@;
            let ghost post0 = general.post@;
            let ghost cc = c;
            let ghost vg = v;
            general.pre.push(c);
            general.post.push(v);
            proof {
                lemma_tys_view_push(pre0, cc);
                lemma_tys_view_push(post0, vg);
                lemma_tys_view_index(general.pre@);
                lemma_tys_view_index(general.post@);
                assert(general@.pre =~= before.pre.push(vv));
                assert(general@.post =~= before.post.push(vv));
                assert(general@.pre.subrange(0, g.pre.len() as int) =~= g.pre);
                assert(general@.post.subrange(0, g.post.len() as int) =~= g.post);
                assert(vv == nth_gen(c0, k));
                assert(pads(c0, k + 1) =~= pads(c0, k).push(nth_gen(c0, k)));
                assert(general@.pre =~= g.pre + pads(c0, k + 1));
                assert(general@.post =~= g.post + pads(c0, k + 1));
                k = k + 1;
            }
        }
        general
    }

    /// Pads `o1` toward `o2`, then `o2` toward the padded `o1`.
    fn augment_op_bw(&mut self, o1: OpType, o2: OpType) -> (r: (OpType, OpType))
        ensures
            padded(o1@, r.0@, pad_count(o1@, o2@)),
            padded(o2@, r.1@, pad_count(o2@, r.0@)),
            r.0@ == pad_spec(o1@, o2@, old(self).counter),
            r.1@ == pad_spec(o2@, r.0@, advanced(old(self).counter, pad_count(o1@, o2@))),
            final(self).counter == advanced(
                advanced(old(self).counter, pad_count(o1@, o2@)),
                pad_count(o2@, r.0@),
            ),
            final(self).same_context(old(self)),
    {
        let o1 = self.augment_op_ow(o1, &o2);
        let o2 = self.augment_op_ow(o2, &o1);
        (o1, o2)
    }

    /// A literal pushes one value of its type.
    fn lit_optype(&self, lit: &Literal) -> (r: OpType)
        ensures
            r@ == literal_sig(*lit),
    {
        let t = match lit {
            Literal::Int(_) => Type::Mono("Int".to_owned()),
        };
        proof {
            reveal_strlit("Int");
        }
        let r = OpType { pre: vec![], post: vec![t] };
        proof {
            lemma_tys_view_index(r.pre@);
            lemma_tys_view_index(r.post@);
            assert(r@.pre =~= literal_sig(*lit).pre);
            assert(r@.post =~= literal_sig(*lit).post);
        }
        r
    }

    /// The destructor of a constructor: its signature read backwards.
    fn make_destr(constr: &OpType) -> (r: OpType)
        ensures
            r@ == (OpTyV { pre: constr@.post, post: constr@.pre }),
    {
        OpType { pre: copy_types(&constr.post), post: copy_types(&constr.pre) }
    }

    /// Runs `ot1` then `ot2`: the values that `ot1` leaves on top are unified
    /// with those that `ot2` takes, and what is left over on either side
    /// passes through.
    fn chain(&self, ot1: OpType, ot2: OpType) -> (r: Result<OpType, InferenceErrorMessage>)
        ensures
            r matches Ok(o) ==> exists|s: SubstV|
                #![trigger apply_op(chain_shape(ot1@, ot2@), s)]
                handed_over_unify(ot1@, ot2@, s) && o@ == apply_op(chain_shape(ot1@, ot2@), s),
            r matches Err(e) ==> is_unify_error(e),
            chain_outcome(r, chain_spec(ot1@, ot2@)),
            ot1.post@.len() == 0 || ot2.pre@.len() == 0 ==> (r matches Ok(o) && o@ == chain_shape(
                ot1@,
                ot2@,
            )),
    {
        let OpType { pre: alpha, post: beta } = ot1;
        let OpType { pre: gamma, post: delta } = ot2;
        let l = if beta.len() < gamma.len() {
            beta.len()
        } else {
            gamma.len()
        };
        let p1 = prefix(&beta, l);
        let p2 = prefix(&gamma, l);
        proof {
            lemma_tys_view_index(beta@);
            lemma_tys_view_index(gamma@);
            assert(l == handed_over(ot1@, ot2@));
        }
        let s = match mgu_types(&p1, &p2) {
            Ok(s) => s,
            Err(e) => return Err(e),
        };
        let built = if beta.len() >= gamma.len() {
            let post = append_from(delta, &beta, gamma.len());
            OpType { pre: alpha, post }
        } else {
            let pre = append_from(alpha, &gamma, beta.len());
            OpType { pre, post: delta }
        };
        let ghost shape = chain_shape(ot1@, ot2@);
        assert(built@ == shape);
        let r = built.apply(&s);
        assert(handed_over_unify(ot1@, ot2@, s@));
        proof {
            if l == 0 {
                assert(s@ =~= Seq::<(VarV, TyV)>::empty());
                lemma_apply_seq_empty(shape.pre);
                lemma_apply_seq_empty(shape.post);
                assert(r@ == shape);
            }
        }
        Ok(r)
    }

    proof fn lemma_first_entry(&self, n: Seq<char>, k: int)
        requires
            0 <= k < self.optype_maps@.len(),
            self.optype_maps@[k].0 == n,
            forall|j: int| 0 <= j < k ==> self.optype_maps@[j].0 != n,
        ensures
            first_entry(self.optype_maps@, n) == k,
    {
        let f = first_entry(self.optype_maps@, n);
        assert(self.optype_maps@[f].0 == n);
        if f < k {
        } else if f > k {
        }
    }

    fn get_prelude_optype(&self, name: &String) -> (r: Option<OpType>)
        ensures
            match r {
                Some(o) => prelude::prelude_sig(name@) == Some(o@),
                None => prelude::prelude_sig(name@) is None,
            },
    {
        prelude::get(name)
    }

    fn lookup_constructor_optype(&self, name: &String) -> (r: Option<&OpType>)
        requires
            self.wf(),
        ensures
            r is Some <==> constr_known(*self.module, name@),
            r matches Some(o) ==> o@ == self.optype_maps@[first_entry(self.optype_maps@, name@)].1,
    {
        proof {
            lemma_index_entries_sound(self.module.data_defs@);
        }
        match self.optype_maps.find(name) {
            Some(k) => {
                proof {
                    self.lemma_first_entry(name@, k as int);
                }
                Some(&self.optype_maps.constr_to_optype_map[k].1)
            },
            None => {
                proof {
                    if constr_known(*self.module, name@) {
                        let (i, j) = choose|i: int, j: int|
                            0 <= i < self.module.data_defs@.len() && 0 <= j
                                < self.module.data_defs@[i].1.constrs@.len()
                                && #[trigger] self.module.data_defs@[i].1.constrs@[j].0@ == name@;
                        lemma_index_entries_complete(self.module.data_defs@, i, j);
                    }
                }
                None
            },
        }
    }

    fn get_constr_optype(&self, name: &String) -> (r: Option<OpType>)
        requires
            self.wf(),
        ensures
            r is Some <==> constr_known(*self.module, name@),
            r matches Some(o) ==> o@ == self.optype_maps@[first_entry(self.optype_maps@, name@)].1,
    {
        match self.lookup_constructor_optype(name) {
            Some(o) => Some(o.copy()),
            None => None,
        }
    }

    fn lookup_constructor_data_def(&self, name: &String) -> (r: Option<&DataDef>)
        requires
            self.wf(),
        ensures
            r is Some <==> constr_known(*self.module, name@),
            r matches Some(d) ==> *d == self.owner(name@),
    {
        proof {
            lemma_index_entries_sound(self.module.data_defs@);
        }
        match self.optype_maps.find(name) {
            Some(k) => {
                proof {
                    self.lemma_first_entry(name@, k as int);
                    let e = self.optype_maps@[k as int];
                    assert(e.2 < self.module.data_defs@.len());
                }
                let i = self.optype_maps.constr_to_optype_map[k].2;
                Some(&self.module.data_defs[i].1)
            },
            None => {
                proof {
                    if constr_known(*self.module, name@) {
                        let (i, j) = choose|i: int, j: int|
                            0 <= i < self.module.data_defs@.len() && 0 <= j
                                < self.module.data_defs@[i].1.constrs@.len()
                                && #[trigger] self.module.data_defs@[i].1.constrs@[j].0@ == name@;
                        lemma_index_entries_complete(self.module.data_defs@, i, j);
                    }
                }
                None
            },
        }
    }

    fn get_user_optype(&self, name: &String) -> (r: Option<OpType>)
        ensures
            r is Some <==> user_known(*self.module, name@),
            r matches Some(o) ==> o@ == self.module.op_defs@[first_user(*self.module, name@)].1.ann@,
    {
        let defs = &self.module.op_defs;
        let mut i: usize = 0;
        while i < defs.len()
            invariant
                i <= defs@.len(),
                defs == &self.module.op_defs,
                forall|k: int| 0 <= k < i ==> defs@[k].0@ != name@,
            decreases defs@.len() - i,
        {
            if defs[i].0 == *name {
                assert(defs@[i as int].0@ == name@);
                proof {
                    let f = first_user(*self.module, name@);
                    assert(defs@[f].0@ == name@);
                    if f < i {
                    } else if f > i {
                    }
                }
                return Some(defs[i].1.ann.copy());
            }
            i += 1;
        }
        None
    }

    /// The signature that `name` refers to: a built-in first, then a
    /// constructor, then a user operation.
    fn lookup_op_optype(&self, name: &String) -> (r: Option<OpType>)
        requires
            self.wf(),
        ensures
            r is None <==> prelude::prelude_sig(name@) is None && !constr_known(*self.module, name@)
                && !user_known(*self.module, name@),
            prelude::prelude_sig(name@) is Some ==> (r matches Some(o) && prelude::prelude_sig(
                name@,
            ) == Some(o@)),
            match self.resolve(name@) {
                Some(x) => r matches Some(o) && o@ == x,
                None => r is None,
            },
    {
        match self.get_prelude_optype(name) {
            Some(o) => Some(o),
            None => match self.get_constr_optype(name) {
                Some(o) => Some(o),
                None => self.get_user_optype(name),
            },
        }
    }

    /// The signature of one case arm: the destructor of its constructor,
    /// freshly instantiated, chained with the arm's body.
    fn infer_case_arm(&mut self, arm: &CaseArm) -> (r: Result<OpType, InferenceError>)
        requires
            old(self).wf(),
        ensures
            final(self).same_context(old(self)),
            r matches Err(e) ==> !(e.error is DuplicateConstructor) && !(e.error is AnnInfConflict),
            !constr_known(*old(self).module, arm.constr@) ==> (r matches Err(e)
                && e.error is UnknownConstructor && e.span == arm.span),
            !constr_known(*old(self).module, arm.constr@) ==> (r matches Err(e)
                && e.error matches InferenceErrorMessage::UnknownConstructor { name }
                && name@ == arm.constr@),
            outcome(r, final(self).counter, old(self).ctx().arm_spec(*arm, old(self).counter)),
        decreases arm,
    {
        let constr_ot = match self.lookup_constructor_optype(&arm.constr) {
            Some(o) => o.copy(),
            None => {
                return Err(
                    InferenceError {
                        error: InferenceErrorMessage::UnknownConstructor { name: arm.constr.clone() },
                        span: arm.span,
                    },
                );
            },
        };
        let body_optype = match self.infer(&arm.body) {
            Ok(o) => o,
            Err(e) => return Err(e),
        };
        let destr = Self::make_destr(&constr_ot);
        let inst_destr = self.instantiate_op(&destr);
        match self.chain(inst_destr, body_optype) {
            Ok(o) => Ok(o),
            Err(error) => Err(InferenceError { error, span: arm.span }),
        }
    }

    /// The signature of one operation.
    fn infer_op(&mut self, op: &Op) -> (r: Result<OpType, InferenceError>)
        requires
            old(self).wf(),
        ensures
            final(self).same_context(old(self)),
            r matches Err(e) ==> !(e.error is DuplicateConstructor) && !(e.error is AnnInfConflict),
            op matches Op::Literal { value, .. } ==> (r matches Ok(o) && o@ == literal_sig(*value)),
            op matches Op::Name { value, .. } ==> (r matches Ok(o) ==> exists|s: SubstV|
                #![trigger apply_op(old(self).resolve(value@).unwrap(), s)]
                fresh_renaming(old(self).resolve(value@).unwrap(), s, old(self).counter) && o@
                    == apply_op(old(self).resolve(value@).unwrap(), s)),
            outcome(r, final(self).counter, old(self).ctx().infer_op_spec(*op, old(self).counter)),
        decreases op,
    {
        let ghost c0 = self.counter;
        let ghost cx = self.ctx();
        match op {
            Op::Literal { value, .. } => Ok(self.lit_optype(value)),
            Op::Name { value: name, span } => match self.lookup_op_optype(name) {
                Some(o) => Ok(self.instantiate_op(&o)),
                None => Err(
                    InferenceError {
                        error: InferenceErrorMessage::UnknownOp { name: name.clone() },
                        span: *span,
                    },
                ),
            },
            Op::Quote { value, .. } => {
                let quoted_optype = match self.infer(value) {
                    Ok(o) => o,
                    Err(e) => return Err(e),
                };
                let ghost q = quoted_optype@;
                let r = OpType { pre: vec![], post: vec![Type::Op(quoted_optype)] };
                proof {
                    lemma_tys_view_index(r.pre@);
                    lemma_tys_view_index(r.post@);
                    assert(r@.pre =~= seq![]);
                    assert(r@.post =~= seq![TyV::Op(q.pre, q.post)]);
                }
                Ok(r)
            },
            Op::Case { head_arm, arms, span } => {
                let ghost m = *self.module;
                let matched = match self.lookup_constructor_data_def(&head_arm.constr) {
                    Some(d) => d,
                    None => {
                        return Err(
                            InferenceError {
                                error: InferenceErrorMessage::UnknownConstructor {
                                    name: head_arm.constr.clone(),
                                },
                                span: *span,
                            },
                        );
                    },
                };
                let mut covered: Vec<&String> = vec![&head_arm.constr];
                let mut i: usize = 0;
                while i < arms.len()
                    invariant
                        self.wf(),
                        op is Case,
                        op->Case_head_arm == head_arm,
                        op->Case_arms == arms,
                        m == *self.module,
                        m == *old(self).module,
                        constr_known(m, head_arm.constr@),
                        i <= arms@.len(),
                        forall|k: int| 0 <= k < i ==> constr_known(m, #[trigger] arms@[k].constr@),
                        names_of(covered@) == arm_names(**head_arm, arms@).subrange(
                            0,
                            i + 1,
                        ),
                    decreases arms@.len() - i,
                {
                    if self.optype_maps.find(&arms[i].constr).is_none() {
                        proof {
                            if constr_known(m, arms@[i as int].constr@) {
                                let (a, b) = choose|a: int, b: int|
                                    0 <= a < m.data_defs@.len() && 0 <= b
                                        < m.data_defs@[a].1.constrs@.len()
                                        && #[trigger] m.data_defs@[a].1.constrs@[b].0@
                                        == arms@[i as int].constr@;
                                lemma_index_entries_complete(m.data_defs@, a, b);
                            }
                        }
                        assert(!constr_known(m, arms@[i as int].constr@));
                        proof {
                            let f = first_unknown(m, arms@);
                            assert(!constr_known(m, arms@[f].constr@));
                            if f < i {
                            } else if f > i {
                            }
                        }
                        return Err(
                            InferenceError {
                                error: InferenceErrorMessage::UnknownConstructor {
                                    name: arms[i].constr.clone(),
                                },
                                span: arms[i].span,
                            },
                        );
                    }
                    proof {
                        lemma_index_entries_sound(m.data_defs@);
                        let k = choose|k: int| 0 <= k < self.optype_maps@.len() && self.optype_maps@[k].0 == arms@[i as int].constr@;
                        let e = self.optype_maps@[k];
                        assert(index_entries(m.data_defs@)[k] == e);
                        let j = choose|j: int| 0 <= j < m.data_defs@[e.2 as int].1.constrs@.len()
                            && m.data_defs@[e.2 as int].1.constrs@[j].0@ == e.0;
                        assert(m.data_defs@[e.2 as int].1.constrs@[j].0@ == arms@[i as int].constr@);
                    }
                    let ghost before = covered@;
                    covered.push(&arms[i].constr);
                    proof {
                        let names = arm_names(**head_arm, arms@);
                        assert(covered@ == before.push(&arms@[i as int].constr));
                        assert(names.len() == arms@.len() + 1);
                        assert(names_of(before).len() == i + 1);
                        assert(before.len() == i + 1);
                        assert(names[i + 1] == arms@[i as int].constr@);
                        assert forall|k: int| 0 <= k < i + 2 implies #[trigger] names_of(covered@)[k]
                            == names.subrange(0, i + 2)[k] by {
                            if k <= i {
                                assert(covered@[k] == before[k]);
                            }
                        }
                        assert(names_of(covered@) =~= names.subrange(0, i + 2));
                    }
                    i += 1;
                }
                proof {
                    let names = arm_names(**head_arm, arms@);
                    assert(names.subrange(0, i + 1) =~= names);
                }
                if !covers_exactly(matched, &covered) {
                    return Err(
                        InferenceError {
                            error: InferenceErrorMessage::NotAllConstructorsCovered,
                            span: *span,
                        },
                    );
                }
                let mut head_ot = match self.infer_case_arm(head_arm) {
                    Ok(o) => o,
                    Err(e) => return Err(e),
                };
                let ghost fold0 = cx.case_fold(arms@, 0, head_ot@, self.counter, *span);
                let mut i: usize = 0;
                while i < arms.len()
                    invariant
                        self.wf(),
                        self.same_context(old(self)),
                        op is Case,
                        op->Case_arms == arms,
                        op->Case_head_arm == head_arm,
                        constr_known(*old(self).module, head_arm.constr@),
                        forall|k: int| 0 <= k < arms@.len() ==> constr_known(*old(self).module, #[trigger] arms@[k].constr@),
                        arm_names(**head_arm, arms@).to_set() == constr_names(old(self).owner(head_arm.constr@)),
                        i <= arms@.len(),
                        cx == self.ctx(),
                        cx == old(self).ctx(),
                        c0 == old(self).counter,
                        op->Case_span == span,
                        fold0 == cx.infer_op_spec(*op, c0),
                        fold0 == cx.case_fold(arms@, i as nat, head_ot@, self.counter, *span),
                    decreases arms@.len() - i,
                {
                    proof {
                        assert(decreases_to!(op => arms@[i as int]));
                    }
                    let arm_ot = match self.infer_case_arm(&arms[i]) {
                        Ok(o) => o,
                        Err(e) => return Err(e),
                    };
                    let (h, a) = self.augment_op_bw(head_ot, arm_ot);
                    let s = match OpType::mgu(&h, &a) {
                        Ok(s) => s,
                        Err(error) => return Err(InferenceError { error, span: *span }),
                    };
                    head_ot = h.apply(&s);
                    i += 1;
                }
                Ok(head_ot)
            },
        }
    }

    /// The signature of a sequence of operations: each chained after the ones
    /// before it, starting from the empty signature.
    pub fn infer(&mut self, ops: &Vec<Op>) -> (r: Result<OpType, InferenceError>)
        requires
            old(self).wf(),
        ensures
            final(self).same_context(old(self)),
            r matches Err(e) ==> !(e.error is DuplicateConstructor) && !(e.error is AnnInfConflict),
            ops@.len() == 0 ==> (r matches Ok(o) && o@ == empty_sig()),
            ops@.len() == 1 && ops@[0] is Literal ==> (r matches Ok(o) && o@ == literal_sig(
                ops@[0]->Literal_value,
            )),
            outcome(r, final(self).counter, old(self).ctx().infer_seq(ops@, old(self).counter)),
        decreases ops,
    {
        let ghost c0 = self.counter;
        let ghost cx = self.ctx();
        assert(ops@.subrange(0, 0) =~= Seq::<Op>::empty());
        let mut acc = OpType { pre: Vec::new(), post: Vec::new() };
        proof {
            lemma_tys_view_index(acc.pre@);
            lemma_tys_view_index(acc.post@);
            assert(acc@ =~= empty_sig());
        }
        let mut i: usize = 0;
        while i < ops.len()
            invariant
                self.wf(),
                self.same_context(old(self)),
                i <= ops@.len(),
                i == 0 ==> acc@ == empty_sig(),
                i == 1 && ops@.len() == 1 && ops@[0] is Literal ==> acc@ == literal_sig(
                    ops@[0]->Literal_value,
                ),
                cx == self.ctx(),
                cx == old(self).ctx(),
                c0 == old(self).counter,
                cx.infer_seq(ops@.subrange(0, i as int), c0) == (Ok::<OpTyV, ErrV>(acc@), self.counter),
            decreases ops@.len() - i,
        {
            proof {
                assert(decreases_to!(ops => ops@[i as int]));
            }
            proof {
                let p = ops@.subrange(0, i + 1);
                assert(p.subrange(0, p.len() - 1) =~= ops@.subrange(0, i as int));
                assert(p[p.len() - 1] == ops@[i as int]);
            }
            let t = match self.infer_op(&ops[i]) {
                Ok(t) => t,
                Err(e) => {
                    proof {
                        lemma_infer_seq_err(cx, ops@, (i + 1) as nat, c0);
                    }
                    return Err(e);
                },
            };
            let ghost acc0 = acc@;
            let ghost t0 = t@;
            acc = match self.chain(acc, t) {
                Ok(o) => o,
                Err(error) => {
                    proof {
                        lemma_infer_seq_err(cx, ops@, (i + 1) as nat, c0);
                    }
                    return Err(InferenceError { error, span: ops[i].get_span() });
                },
            };
            proof {
                if i == 0 && ops@.len() == 1 && ops@[0] is Literal {
                    let sh = chain_shape(acc0, t0);
                    assert(sh.pre =~= t0.pre);
                    assert(sh.post =~= t0.post);
                }
            }
            i += 1;
        }
        assert(ops@.subrange(0, ops@.len() as int) =~= ops@);
        Ok(acc)
    }

    /// Checks an inferred signature against the instantiated annotation:
    /// after padding the inferred one toward it, the two must unify without
    /// binding any variable of the annotation to anything but a variable.
    fn inf_vs_ann(&mut self, inf: OpType, ann: &OpType) -> (r: Result<(), InferenceErrorMessage>)
        ensures
            final(self).same_context(old(self)),
            r is Ok ==> exists|p: OpTyV, s: SubstV|
                #![trigger padded(inf@, p, pad_count(inf@, ann@)), apply_op(p, s)]
                padded(inf@, p, pad_count(inf@, ann@)) && apply_op(p, s) == apply_op(ann@, s)
                    && keeps_general(ann@, s),
            r matches Err(InferenceErrorMessage::AnnInfConflict { .. }) ==> exists|p: OpTyV, s: SubstV|
                #![trigger padded(inf@, p, pad_count(inf@, ann@)), apply_op(p, s)]
                padded(inf@, p, pad_count(inf@, ann@)) && apply_op(p, s) == apply_op(ann@, s)
                    && !keeps_general(ann@, s),
            r matches Err(e) ==> !(e is DuplicateConstructor),
            ann_outcome(r, inf@, ann@, old(self).counter),
            final(self).counter == advanced(old(self).counter, pad_count(inf@, ann@)),
    {
        let ghost inf0 = inf@;
        let inf = self.augment_op_ow(inf, ann);
        let s = match OpType::mgu(&inf, ann) {
            Ok(s) => s,
            Err(e) => return Err(e),
        };
        let vs = ann.ftv();
        if !ann_is_general(&vs, &s) {
            proof {
                assert(!keeps_general(ann@, s@));
                assert(padded(inf0, inf@, pad_count(inf0, ann@)));
                assert(apply_op(inf@, s@) == apply_op(ann@, s@));
            }
            return Err(InferenceErrorMessage::AnnInfConflict { inf, ann: ann.copy() });
        }
        proof {
            assert(padded(inf0, inf@, pad_count(inf0, ann@)));
            assert(apply_op(inf@, s@) == apply_op(ann@, s@));
            assert(keeps_general(ann@, s@));
        }
        Ok(())
    }

    /// The position of an index entry whose constructor an earlier entry
    /// already names, if there is one.
    fn find_duplicate(&self) -> (r: Option<usize>)
        ensures
            r is None <==> !has_duplicate(self.optype_maps@),
            r matches Some(k) ==> k < self.optype_maps@.len() && exists|j: int|
                0 <= j < k && self.optype_maps@[j].0 == self.optype_maps@[k as int].0,
    {
        let map = &self.optype_maps.constr_to_optype_map;
        let mut k: usize = 0;
        while k < map.len()
            invariant
                k <= map@.len(),
                map == &self.optype_maps.constr_to_optype_map,
                self.optype_maps@.len() == map@.len(),
                forall|a: int, b: int|
                    0 <= a < b < k ==> #[trigger] self.optype_maps@[a].0 != #[trigger] self.optype_maps@[b].0,
            decreases map@.len() - k,
        {
            let mut j: usize = 0;
            while j < k
                invariant
                    j <= k < map@.len(),
                    map == &self.optype_maps.constr_to_optype_map,
                    self.optype_maps@.len() == map@.len(),
                    forall|a: int| 0 <= a < j ==> #[trigger] self.optype_maps@[a].0 != self.optype_maps@[k as int].0,
                decreases k - j,
            {
                if map[j].0 == map[k].0 {
                    assert(self.optype_maps@[j as int].0 == self.optype_maps@[k as int].0);
                    return Some(k);
                }
                j += 1;
            }
            k += 1;
        }
        None
    }

    /// Checks every operation of the module that is not foreign against its
    /// annotation, and fails on the first error. A constructor name that two
    /// data types declare is an error before anything else is checked.
    pub fn typecheck(&mut self) -> (r: Result<(), InferenceError>)
        requires
            old(self).wf(),
            old(self).module.op_names_unique(),
        ensures
            final(self).same_context(old(self)),
            has_duplicate(old(self).optype_maps@) <==> (r matches Err(e)
                && e.error is DuplicateConstructor),
            r matches Err(e) ==> (e.error is AnnInfConflict ==> exists|i: int|
                0 <= i < old(self).module.op_defs@.len() && !(#[trigger] old(
                    self,
                ).module.op_defs@[i]).1.foreign && e.span == old(self).module.op_defs@[i].1.span),
            !has_duplicate(old(self).optype_maps@) && (forall|i: int|
                0 <= i < old(self).module.op_defs@.len() ==> (#[trigger] old(
                self,
            ).module.op_defs@[i]).1.foreign) ==> r is Ok,
            r matches Err(e) ==> (e.error matches InferenceErrorMessage::DuplicateConstructor { name }
                ==> exists|j: int, k: int|
                0 <= j < k < old(self).optype_maps@.len() && old(self).optype_maps@[j].0 == name@
                    && old(self).optype_maps@[k].0 == name@),
            !has_duplicate(old(self).optype_maps@) ==> match old(self).ctx().check_from(
                old(self).module.op_defs@,
                0,
                old(self).counter,
            ) {
                Ok(_) => r is Ok,
                Err(ev) => r matches Err(e) && err_matches(e, ev),
            },
    {
        let ghost c0 = self.counter;
        let ghost cx = self.ctx();
        if let Some(k) = self.find_duplicate() {
            return Err(
                InferenceError {
                    error: InferenceErrorMessage::DuplicateConstructor {
                        name: self.optype_maps.constr_to_optype_map[k].0.clone(),
                    },
                    span: Span { start: 0, end: 0 },
                },
            );
        }
        let module = self.module;
        let mut i: usize = 0;
        while i < module.op_defs.len()
            invariant
                self.wf(),
                self.same_context(old(self)),
                module == old(self).module,
                !has_duplicate(old(self).optype_maps@),
                i <= module.op_defs@.len(),
                cx == self.ctx(),
                cx == old(self).ctx(),
                c0 == old(self).counter,
                cx.check_from(module.op_defs@, 0, c0) == cx.check_from(
                    module.op_defs@,
                    i as nat,
                    self.counter,
                ),
            decreases module.op_defs@.len() - i,
        {
            let op_def = &module.op_defs[i].1;
            assert(module.op_defs@[i as int].1 == *op_def);
            if !op_def.foreign {
                let inf = match self.infer(&op_def.body) {
                    Ok(o) => o,
                    Err(e) => return Err(e),
                };
                let ann_inst = self.instantiate_op(&op_def.ann);
                match self.inf_vs_ann(inf, &ann_inst) {
                    Ok(()) => {},
                    Err(error) => {
                        assert(module.op_defs@[i as int].1 == *op_def);
                        return Err(InferenceError { error, span: op_def.span });
                    },
                }
            }
            i += 1;
        }
        assert(cx.check_from(module.op_defs@, i as nat, self.counter) is Ok);
        assert(cx.check_from(module.op_defs@, i as nat, self.counter) is Ok);
        Ok(())
    }
}

} // verus!

verus! {

/// Chaining `dup` (`[a] -> [a, a]`) with `drop` (`[b] -> []`), where `a` and
/// `b` are distinct variables, gives an identity signature `[b] -> [b]`.
pub proof fn lemma_dup_then_drop(a: VarV, b: VarV)
    requires
        a != b,
    ensures
        chain_spec(
            OpTyV { pre: seq![TyV::Poly(a)], post: seq![TyV::Poly(a), TyV::Poly(a)] },
            OpTyV { pre: seq![TyV::Poly(b)], post: seq![] },
        ) == Ok::<OpTyV, UnifyErr>(OpTyV { pre: seq![TyV::Poly(b)], post: seq![TyV::Poly(b)] }),
{
    let o1 = OpTyV { pre: seq![TyV::Poly(a)], post: seq![TyV::Poly(a), TyV::Poly(a)] };
    let o2 = OpTyV { pre: seq![TyV::Poly(b)], post: seq![] };
    assert(handed_over(o1, o2) == 1);
    let x = o1.post.subrange(0, 1);
    let y = o2.pre.subrange(0, 1);
    assert(x =~= seq![TyV::Poly(a)]);
    assert(y =~= seq![TyV::Poly(b)]);
    let e = Seq::<(VarV, TyV)>::empty();
    lemma_apply_empty(TyV::Poly(a));
    lemma_apply_empty(TyV::Poly(b));
    assert(vars(TyV::Poly(b)) =~= set![b]);
    let s = seq![(a, TyV::Poly(b))];
    assert(unify(TyV::Poly(a), TyV::Poly(b), (DEPTH - 1) as nat) == Ok::<SubstV, UnifyErr>(s));
    assert(composition(e, s) =~= s);
    assert(unify_seq_from(x, y, 1, s, DEPTH as nat) == Ok::<SubstV, UnifyErr>(s));
    assert(unify_seq_from(x, y, 0, e, DEPTH as nat) == Ok::<SubstV, UnifyErr>(s));
    assert(unify_seq(x, y, DEPTH as nat) == Ok::<SubstV, UnifyErr>(s));
    let sh = chain_shape(o1, o2);
    assert(sh.pre =~= seq![TyV::Poly(a)]);
    assert(sh.post =~= seq![TyV::Poly(a)]);
    lemma_lookup_push(Seq::empty(), (a, TyV::Poly(b)), a);
    lemma_lookup_push(Seq::empty(), (a, TyV::Poly(b)), b);
    assert(seq![(a, TyV::Poly(b))] == Seq::<(VarV, TyV)>::empty().push((a, TyV::Poly(b))));
    assert(apply(TyV::Poly(a), s) == TyV::Poly(b));
    lemma_apply_seq_index(sh.pre, s);
    lemma_apply_seq_index(sh.post, s);
    assert(apply_seq(sh.pre, s) =~= seq![TyV::Poly(b)]);
    assert(apply_seq(sh.post, s) =~= seq![TyV::Poly(b)]);
}

} // verus!

verus! {

/// An inference error over the models: where, and which.
pub enum IErr {
    Unify(UnifyErr),
    UnknownOp(Seq<char>),
    UnknownConstructor(Seq<char>),
    NotCovered,
    Conflict(OpTyV, OpTyV),
}

pub struct ErrV {
    pub span: Span,
    pub kind: IErr,
}

/// `e` is the error `x`, span and payload included.
pub open spec fn err_matches(e: InferenceError, x: ErrV) -> bool {
    &&& e.span == x.span
    &&& match x.kind {
        IErr::Unify(u) => err_is(e.error, u),
        IErr::UnknownOp(n) => e.error matches InferenceErrorMessage::UnknownOp { name } && name@ == n,
        IErr::UnknownConstructor(n) => e.error matches InferenceErrorMessage::UnknownConstructor {
            name,
        } && name@ == n,
        IErr::NotCovered => e.error is NotAllConstructorsCovered,
        IErr::Conflict(p, a) => e.error matches InferenceErrorMessage::AnnInfConflict { inf, ann }
            && inf@ == p && ann@ == a,
    }
}

/// `r`, with the counter at `n` afterwards, is the outcome `x`; on success
/// the counter is the one `x` gives.
pub open spec fn outcome(r: Result<OpType, InferenceError>, n: u64, x: (Result<OpTyV, ErrV>, u64)) -> bool {
    match x.0 {
        Ok(o) => r matches Ok(v) && v@ == o && n == x.1,
        Err(ev) => r matches Err(e) && err_matches(e, ev),
    }
}

/// The renaming that instantiation builds: walking `vs` from position `i`,
/// each variable not yet bound gets the next name drawn from `c`.
pub open spec fn fresh_from(vs: Seq<VarV>, i: nat, s: SubstV, c: u64) -> SubstV
    decreases vs.len() - i,
{
    if i >= vs.len() {
        s
    } else if lookup(s, vs[i as int]) is Some {
        fresh_from(vs, i + 1, s, c)
    } else {
        fresh_from(vs, i + 1, s.push((vs[i as int], nth_gen(c, s.len()))), c)
    }
}

pub open spec fn inst_subst(o: OpTyV, c: u64) -> SubstV {
    fresh_from(ftv_op(o), 0, s0_empty(), c)
}

/// Instantiating `o` with the counter at `c`: the renamed signature and the
/// counter afterwards.
pub open spec fn inst_spec(o: OpTyV, c: u64) -> (OpTyV, u64) {
    (apply_op(o, inst_subst(o, c)), advanced(c, inst_subst(o, c).len()))
}

pub open spec fn s0_empty() -> SubstV {
    Seq::empty()
}

/// An error in a prefix of a body is the error of the whole body.
pub proof fn lemma_infer_seq_err(cx: Ctx, ops: Seq<Op>, j: nat, c: u64)
    requires
        0 < j <= ops.len(),
        cx.infer_seq(ops.subrange(0, j as int), c).0 is Err,
    ensures
        cx.infer_seq(ops, c).0 == cx.infer_seq(ops.subrange(0, j as int), c).0,
    decreases ops.len() - j,
{
    if j == ops.len() {
        assert(ops.subrange(0, j as int) =~= ops);
    } else {
        let p = ops.subrange(0, ops.len() - 1);
        assert(p.subrange(0, j as int) =~= ops.subrange(0, j as int));
        lemma_infer_seq_err(cx, p, j, c);
    }
}

/// The position of the first arm that names no constructor.
pub open spec fn first_unknown(m: Module, arms: Seq<CaseArm>) -> int {
    choose|i: int|
        0 <= i < arms.len() && !constr_known(m, arms[i].constr@) && forall|j: int|
            0 <= j < i ==> constr_known(m, #[trigger] arms[j].constr@)
}

/// The module and its constructor index, which inference reads.
pub struct Ctx {
    pub m: Module,
    pub idx: Seq<IndexEntry>,
}

impl Ctx {
    /// The signature that a name refers to: a built-in first, then the first
    /// constructor of that name, then the first user operation of that name.
    pub open spec fn resolve(self, n: Seq<char>) -> Option<OpTyV> {
        if prelude::prelude_sig(n) is Some {
            prelude::prelude_sig(n)
        } else if constr_known(self.m, n) {
            Some(self.idx[first_entry(self.idx, n)].1)
        } else if user_known(self.m, n) {
            Some(self.m.op_defs@[first_user(self.m, n)].1.ann@)
        } else {
            None
        }
    }

    pub open spec fn owner(self, n: Seq<char>) -> DataDef {
        self.m.data_defs@[self.idx[first_entry(self.idx, n)].2 as int].1
    }

    /// The signature of a body, with the counter at `c`: the left fold of
    /// chaining over its operations, from the empty signature.
    pub open spec fn infer_seq(self, ops: Seq<Op>, c: u64) -> (Result<OpTyV, ErrV>, u64)
        decreases ops, 0int,
    {
        if ops.len() == 0 {
            (Ok(empty_sig()), c)
        } else {
            let last = ops[ops.len() - 1];
            let (acc, c1) = self.infer_seq(ops.subrange(0, ops.len() - 1), c);
            match acc {
                Err(e) => (Err(e), c1),
                Ok(a) => {
                    let (t, c2) = self.infer_op_spec(last, c1);
                    match t {
                        Err(e) => (Err(e), c2),
                        Ok(t) => match chain_spec(a, t) {
                            Ok(o) => (Ok(o), c2),
                            Err(u) => (Err(ErrV { span: last.span(), kind: IErr::Unify(u) }), c2),
                        },
                    }
                },
            }
        }
    }

    /// The signature of one operation, with the counter at `c`.
    pub open spec fn infer_op_spec(self, op: Op, c: u64) -> (Result<OpTyV, ErrV>, u64)
        decreases op, 0int,
    {
        match op {
            Op::Literal { value, .. } => (Ok(literal_sig(value)), c),
            Op::Name { value, span } => match self.resolve(value@) {
                Some(sig) => (Ok(inst_spec(sig, c).0), inst_spec(sig, c).1),
                None => (Err(ErrV { span, kind: IErr::UnknownOp(value@) }), c),
            },
            Op::Quote { value, .. } => {
                let (q, c1) = self.infer_seq(value@, c);
                match q {
                    Ok(q) => (Ok(OpTyV { pre: seq![], post: seq![TyV::Op(q.pre, q.post)] }), c1),
                    Err(e) => (Err(e), c1),
                }
            },
            Op::Case { head_arm, arms, span } => {
                if !constr_known(self.m, head_arm.constr@) {
                    (Err(ErrV { span, kind: IErr::UnknownConstructor(head_arm.constr@) }), c)
                } else if exists|i: int|
                    0 <= i < arms@.len() && !constr_known(self.m, #[trigger] arms@[i].constr@) {
                    let i = first_unknown(self.m, arms@);
                    (
                        Err(
                            ErrV {
                                span: arms@[i].span,
                                kind: IErr::UnknownConstructor(arms@[i].constr@),
                            },
                        ),
                        c,
                    )
                } else if arm_names(*head_arm, arms@).to_set() != constr_names(
                    self.owner(head_arm.constr@),
                ) {
                    (Err(ErrV { span, kind: IErr::NotCovered }), c)
                } else {
                    let (h, c1) = self.arm_spec(*head_arm, c);
                    match h {
                        Err(e) => (Err(e), c1),
                        Ok(h) => self.case_fold(arms@, 0, h, c1, span),
                    }
                }
            },
        }
    }

    /// One arm: the destructor of its constructor, instantiated after the
    /// body is inferred, chained with the body's signature.
    pub open spec fn arm_spec(self, arm: CaseArm, c: u64) -> (Result<OpTyV, ErrV>, u64)
        decreases arm, 0int,
    {
        if !constr_known(self.m, arm.constr@) {
            (Err(ErrV { span: arm.span, kind: IErr::UnknownConstructor(arm.constr@) }), c)
        } else {
            let (b, c1) = self.infer_seq(arm.body@, c);
            match b {
                Err(e) => (Err(e), c1),
                Ok(b) => {
                    let k = self.idx[first_entry(self.idx, arm.constr@)].1;
                    let (d, c2) = inst_spec(OpTyV { pre: k.post, post: k.pre }, c1);
                    match chain_spec(d, b) {
                        Ok(o) => (Ok(o), c2),
                        Err(u) => (Err(ErrV { span: arm.span, kind: IErr::Unify(u) }), c2),
                    }
                },
            }
        }
    }

    /// The arms from position `i` on, each padded against the signature
    /// accumulated so far and unified with it.
    pub open spec fn case_fold(self, arms: Seq<CaseArm>, i: nat, acc: OpTyV, c: u64, span: Span) -> (
        Result<OpTyV, ErrV>,
        u64,
    )
        decreases arms, arms.len() - i,
    {
        if i >= arms.len() {
            (Ok(acc), c)
        } else {
            let (a, c1) = self.arm_spec(arms[i as int], c);
            match a {
                Err(e) => (Err(e), c1),
                Ok(a) => {
                    let h = pad_spec(acc, a, c1);
                    let c2 = advanced(c1, pad_count(acc, a));
                    let a2 = pad_spec(a, h, c2);
                    let c3 = advanced(c2, pad_count(a, h));
                    match unify_op(h, a2, DEPTH as nat) {
                        Ok(s) => self.case_fold(arms, i + 1, apply_op(h, s), c3, span),
                        Err(u) => (Err(ErrV { span, kind: IErr::Unify(u) }), c3),
                    }
                },
            }
        }
    }

    /// Checking the definitions from position `i` on, with the counter at `c`:
    /// each non-foreign body must infer, and its signature, padded toward the
    /// instantiated annotation, must unify with it and keep it general.
    pub open spec fn check_from(self, defs: Seq<(String, OpDef)>, i: nat, c: u64) -> Result<(), ErrV>
        decreases defs.len() - i,
    {
        if i >= defs.len() {
            Ok(())
        } else if defs[i as int].1.foreign {
            self.check_from(defs, i + 1, c)
        } else {
            let d = defs[i as int].1;
            let (b, c1) = self.infer_seq(d.body@, c);
            match b {
                Err(e) => Err(e),
                Ok(inf) => {
                    let (a, c2) = inst_spec(d.ann@, c1);
                    let p = pad_spec(inf, a, c2);
                    let c3 = advanced(c2, pad_count(inf, a));
                    match unify_op(p, a, DEPTH as nat) {
                        Err(u) => Err(ErrV { span: d.span, kind: IErr::Unify(u) }),
                        Ok(s) => if keeps_general(a, s) {
                            self.check_from(defs, i + 1, c3)
                        } else {
                            Err(ErrV { span: d.span, kind: IErr::Conflict(p, a) })
                        },
                    }
                },
            }
        }
    }
}

} // verus!

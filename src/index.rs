use vstd::prelude::*;
use crate::ast::{ConstrDef, DataDef, Module};
use crate::subst::lemma_tys_view_index;
use crate::types::{copy_types, tys_view, OpTyV, OpType, TyV, Type, Var, VarV};

verus! {

/// The type that a data type's constructors build: the data type applied to
/// each of its parameters as a variable, left to right.
pub open spec fn constructed(name: Seq<char>, params: Seq<String>) -> TyV
    decreases params.len(),
{
    if params.len() == 0 {
        TyV::Mono(name)
    } else {
        TyV::App(
            Box::new(constructed(name, params.drop_last())),
            Box::new(TyV::Poly(VarV::Named(params.last()@))),
        )
    }
}

/// The signature of a constructor: its fields in, the constructed value out.
pub open spec fn constr_sig(name: Seq<char>, d: DataDef, c: ConstrDef) -> OpTyV {
    OpTyV { pre: tys_view(c.params@), post: seq![constructed(name, d.params@)] }
}

pub type IndexEntry = (Seq<char>, OpTyV, nat);

/// The index entries of one data type, the `i`-th of the module.
pub open spec fn def_entries(name: Seq<char>, d: DataDef, i: nat) -> Seq<IndexEntry> {
    d.constrs@.map_values(|c: (String, ConstrDef)| (c.0@, constr_sig(name, d, c.1), i))
}

/// The index entries of a module's data types, in declaration order.
pub open spec fn index_entries(defs: Seq<(String, DataDef)>) -> Seq<IndexEntry>
    decreases defs.len(),
{
    if defs.len() == 0 {
        Seq::empty()
    } else {
        index_entries(defs.drop_last()) + def_entries(
            defs.last().0@,
            defs.last().1,
            (defs.len() - 1) as nat,
        )
    }
}

/// Each constructor of a module, with its signature and the position of the
/// data type that declares it.
#[derive(Debug)]
pub struct ModuleConstrOpTypeMap {
    pub constr_to_optype_map: Vec<(String, OpType, usize)>,
}

impl View for ModuleConstrOpTypeMap {
    type V = Seq<IndexEntry>;

    open spec fn view(&self) -> Seq<IndexEntry> {
        self.constr_to_optype_map@.map_values(
            |e: (String, OpType, usize)| (e.0@, e.1@, e.2 as nat),
        )
    }
}

fn constructed_type(name: &String, params: &Vec<String>) -> (r: Type)
    ensures
        r@ == constructed(name@, params@),
{
    let mut t = Type::Mono(name.clone());
    let mut k: usize = 0;
    assert(params@.subrange(0, 0) =~= Seq::<String>::empty());
    while k < params.len()
        invariant
            k <= params@.len(),
            t@ == constructed(name@, params@.subrange(0, k as int)),
        decreases params@.len() - k,
    {
        let ghost old_t = t@;
        let p = params[k].clone();
        let v = Type::Poly(Var::Named(p));
        assert(v@ == TyV::Poly(VarV::Named(params@[k as int]@)));
        t = Type::App(Box::new(t), Box::new(v));
        assert(t@ == TyV::App(Box::new(old_t), Box::new(v@)));
        assert(params@.subrange(0, k + 1).drop_last() =~= params@.subrange(0, k as int));
        assert(params@.subrange(0, k + 1).last() == params@[k as int]);
        k += 1;
    }
    assert(params@.subrange(0, params@.len() as int) =~= params@);
    t
}

impl ModuleConstrOpTypeMap {
    /// Indexes every constructor of `module`.
    pub fn new(module: &Module) -> (r: Self)
        ensures
            r@ == index_entries(module.data_defs@),
    {
        let defs = &module.data_defs;
        let mut map: Vec<(String, OpType, usize)> = Vec::new();
        let mut i: usize = 0;
        while i < defs.len()
            invariant
                i <= defs@.len(),
                (ModuleConstrOpTypeMap { constr_to_optype_map: map })@ == index_entries(
                    defs@.subrange(0, i as int),
                ),
            decreases defs@.len() - i,
        {
            let ghost before = (ModuleConstrOpTypeMap { constr_to_optype_map: map })@;
            let data_name = &defs[i].0;
            let data_def = &defs[i].1;
            let post_type = constructed_type(data_name, &data_def.params);
            let mut j: usize = 0;
            while j < data_def.constrs.len()
                invariant
                    i < defs@.len(),
                    data_name == defs@[i as int].0,
                    data_def == defs@[i as int].1,
                    post_type@ == constructed(data_name@, data_def.params@),
                    j <= data_def.constrs@.len(),
                    (ModuleConstrOpTypeMap { constr_to_optype_map: map })@ == before + def_entries(
                        data_name@,
                        *data_def,
                        i as nat,
                    ).subrange(0, j as int),
                decreases data_def.constrs@.len() - j,
            {
                let ghost prev = (ModuleConstrOpTypeMap { constr_to_optype_map: map })@;
                let constr_name = &data_def.constrs[j].0;
                let constr_def = &data_def.constrs[j].1;
                let optype = OpType { pre: copy_types(&constr_def.params), post: vec![post_type.copy()] };
                proof {
                    lemma_tys_view_index(optype.post@);
                    assert(optype@.post =~= seq![constructed(data_name@, data_def.params@)]);
                }
                let ghost d_e = def_entries(data_name@, *data_def, i as nat);
                assert(d_e[j as int] == (constr_name@, optype@, i as nat));
                let ghost ov = optype@;
                map.push((constr_name.clone(), optype, i));
                assert((ModuleConstrOpTypeMap { constr_to_optype_map: map })@ =~= prev.push(
                    (constr_name@, ov, i as nat),
                ));
                assert(d_e.subrange(0, j + 1) =~= d_e.subrange(0, j as int).push(d_e[j as int]));
                assert((ModuleConstrOpTypeMap { constr_to_optype_map: map })@ =~= before
                    + def_entries(data_name@, *data_def, i as nat).subrange(0, j + 1));
                j += 1;
            }
            assert(def_entries(data_name@, *data_def, i as nat).subrange(0, j as int)
                =~= def_entries(data_name@, *data_def, i as nat));
            assert(defs@.subrange(0, i + 1).drop_last() =~= defs@.subrange(0, i as int));
            i += 1;
        }
        assert(defs@.subrange(0, defs@.len() as int) =~= defs@);
        ModuleConstrOpTypeMap { constr_to_optype_map: map }
    }

    /// The position of the first entry for constructor `name`.
    pub fn find(&self, name: &String) -> (r: Option<usize>)
        ensures
            match r {
                Some(k) => k < self@.len() && self@[k as int].0 == name@ && forall|j: int|
                    0 <= j < k ==> self@[j].0 != name@,
                None => forall|j: int| 0 <= j < self@.len() ==> self@[j].0 != name@,
            },
    {
        let mut k: usize = 0;
        while k < self.constr_to_optype_map.len()
            invariant
                k <= self@.len(),
                self@.len() == self.constr_to_optype_map@.len(),
                forall|j: int| 0 <= j < k ==> self@[j].0 != name@,
            decreases self@.len() - k,
        {
            if self.constr_to_optype_map[k].0 == *name {
                return Some(k);
            }
            k += 1;
        }
        None
    }
}

/// `n` names a constructor of some data type of the module.
pub open spec fn constr_known(m: Module, n: Seq<char>) -> bool {
    exists|i: int, j: int|
        0 <= i < m.data_defs@.len() && 0 <= j < m.data_defs@[i].1.constrs@.len()
            && #[trigger] m.data_defs@[i].1.constrs@[j].0@ == n
}

/// Two entries of the index name the same constructor.
pub open spec fn has_duplicate(idx: Seq<IndexEntry>) -> bool {
    exists|j: int, k: int| 0 <= j < k < idx.len() && #[trigger] idx[j].0 == #[trigger] idx[k].0
}

/// Each entry of `index_entries(defs)` names a constructor of the data type
/// whose position it holds.
pub proof fn lemma_index_entries_sound(defs: Seq<(String, DataDef)>)
    ensures
        forall|k: int| 0 <= k < index_entries(defs).len() ==> {
            let e = #[trigger] index_entries(defs)[k];
            e.2 < defs.len() && exists|j: int| 0 <= j < defs[e.2 as int].1.constrs@.len()
                && defs[e.2 as int].1.constrs@[j].0@ == e.0
        },
    decreases defs.len(),
{
    if defs.len() > 0 {
        let p = defs.drop_last();
        lemma_index_entries_sound(p);
        let n = (defs.len() - 1) as int;
        let a = index_entries(p);
        let b = def_entries(defs.last().0@, defs.last().1, n as nat);
        assert(index_entries(defs) == a + b);
        assert forall|k: int| 0 <= k < index_entries(defs).len() implies {
            let e = #[trigger] index_entries(defs)[k];
            e.2 < defs.len() && exists|j: int| 0 <= j < defs[e.2 as int].1.constrs@.len()
                && defs[e.2 as int].1.constrs@[j].0@ == e.0
        } by {
            if k < a.len() {
                let e = a[k];
                assert(p[e.2 as int] == defs[e.2 as int]);
            } else {
                let j = k - a.len();
                assert(defs[n].1.constrs@[j].0@ == b[j].0);
            }
        }
    }
}

/// Each constructor of each data type has an entry in `index_entries(defs)`.
pub proof fn lemma_index_entries_complete(defs: Seq<(String, DataDef)>, i: int, j: int)
    requires
        0 <= i < defs.len(),
        0 <= j < defs[i].1.constrs@.len(),
    ensures
        exists|k: int| 0 <= k < index_entries(defs).len() && #[trigger] index_entries(defs)[k].0
            == defs[i].1.constrs@[j].0@,
    decreases defs.len(),
{
    let p = defs.drop_last();
    let n = (defs.len() - 1) as int;
    let a = index_entries(p);
    let b = def_entries(defs.last().0@, defs.last().1, n as nat);
    assert(index_entries(defs) == a + b);
    if i < n {
        assert(p[i] == defs[i]);
        lemma_index_entries_complete(p, i, j);
        let k = choose|k: int| 0 <= k < a.len() && #[trigger] a[k].0 == p[i].1.constrs@[j].0@;
        assert(index_entries(defs)[k] == a[k]);
    } else {
        assert(defs.last() == defs[i]);
        assert(b[j].0 == defs[i].1.constrs@[j].0@);
        assert(index_entries(defs)[a.len() + j] == b[j]);
    }
}

} // verus!

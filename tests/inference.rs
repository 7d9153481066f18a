use stack_infer::ast::{CaseArm, ConstrDef, DataDef, Literal, Module, Op, OpDef, Span};
use stack_infer::error::InferenceErrorMessage;
use stack_infer::inference::Inference;
use stack_infer::subst::{compose, Subst};
use stack_infer::types::{OpType, Type, Var};
use stack_infer::unify::mgu_types;

fn sp() -> Span {
    Span { start: 0, end: 0 }
}

fn mono(n: &str) -> Type {
    Type::Mono(n.to_string())
}

fn poly(n: &str) -> Type {
    Type::Poly(Var::Named(n.to_string()))
}

fn app(l: Type, r: Type) -> Type {
    Type::App(Box::new(l), Box::new(r))
}

fn same_var(a: &Var, b: &Var) -> bool {
    match (a, b) {
        (Var::Named(x), Var::Named(y)) => x == y,
        (Var::Gen(x), Var::Gen(y)) => x == y,
        _ => false,
    }
}

fn same_type(a: &Type, b: &Type) -> bool {
    match (a, b) {
        (Type::Mono(x), Type::Mono(y)) => x == y,
        (Type::Poly(x), Type::Poly(y)) => same_var(x, y),
        (Type::Op(x), Type::Op(y)) => same_op(x, y),
        (Type::App(l1, r1), Type::App(l2, r2)) => same_type(l1, l2) && same_type(r1, r2),
        _ => false,
    }
}

fn same_types(a: &[Type], b: &[Type]) -> bool {
    a.len() == b.len() && a.iter().zip(b.iter()).all(|(x, y)| same_type(x, y))
}

fn same_op(a: &OpType, b: &OpType) -> bool {
    same_types(&a.pre, &b.pre) && same_types(&a.post, &b.post)
}

fn name(n: &str) -> Op {
    Op::Name { value: n.to_string(), span: sp() }
}

fn lit(n: i64) -> Op {
    Op::Literal { value: Literal::Int(n), span: sp() }
}

fn arm(c: &str, body: Vec<Op>) -> CaseArm {
    CaseArm { constr: c.to_string(), body, span: sp() }
}

fn case(head: CaseArm, arms: Vec<CaseArm>) -> Op {
    Op::Case { head_arm: Box::new(head), arms, span: sp() }
}

fn bool_module(op_defs: Vec<(String, OpDef)>) -> Module {
    let constrs = vec![
        ("True".to_string(), ConstrDef { params: vec![] }),
        ("False".to_string(), ConstrDef { params: vec![] }),
    ];
    Module {
        data_defs: vec![(
            "Bool".to_string(),
            DataDef { name: "Bool".to_string(), params: vec![], constrs },
        )],
        op_defs,
    }
}

fn op_def(pre: Vec<Type>, post: Vec<Type>, body: Vec<Op>) -> OpDef {
    OpDef { foreign: false, ann: OpType { pre, post }, body, span: Span { start: 3, end: 9 } }
}

#[test]
fn occurs_check_fails() {
    let r = Type::mgu(&poly("a"), &app(poly("a"), mono("Int")));
    match r {
        Err(InferenceErrorMessage::OccursCheck { name }) => {
            assert!(same_var(&name, &Var::Named("a".to_string())))
        },
        _ => panic!("expected an occurs-check failure"),
    }
}

#[test]
fn sequence_length_mismatch() {
    let r = mgu_types(&vec![mono("Int"), poly("a")], &vec![mono("Int"), poly("a"), poly("b")]);
    assert!(matches!(r, Err(InferenceErrorMessage::ListMGULengthDifferent)));
}

#[test]
fn mono_mismatch_is_unification_error() {
    let r = Type::mgu(&mono("Int"), &mono("Bool"));
    assert!(matches!(r, Err(InferenceErrorMessage::UnificationError { .. })));
    let r = Type::mgu(&mono("Int"), &app(mono("List"), mono("Int")));
    assert!(matches!(r, Err(InferenceErrorMessage::UnificationError { .. })));
}

#[test]
fn unifier_makes_both_sides_equal() {
    let t1 = app(app(mono("Pair"), poly("a")), mono("Int"));
    let t2 = app(app(mono("Pair"), mono("Bool")), poly("b"));
    let s = Type::mgu(&t1, &t2).unwrap();
    let u1 = t1.apply(&s);
    let u2 = t2.apply(&s);
    assert!(same_type(&u1, &u2));
    assert!(same_type(&u1, &app(app(mono("Pair"), mono("Bool")), mono("Int"))));
    assert!(same_type(&u1.apply(&s), &u1));
}

#[test]
fn unifier_threads_earlier_bindings() {
    let ts1 = vec![poly("a"), poly("a")];
    let ts2 = vec![mono("Int"), poly("b")];
    let s = mgu_types(&ts1, &ts2).unwrap();
    assert!(same_type(&poly("b").apply(&s), &mono("Int")));
    assert!(same_type(&poly("a").apply(&s), &mono("Int")));
}

#[test]
fn quoted_signatures_unify() {
    let o1 = OpType { pre: vec![poly("a")], post: vec![poly("a")] };
    let o2 = OpType { pre: vec![mono("Int")], post: vec![poly("c")] };
    let s = Type::mgu(&Type::Op(o1), &Type::Op(o2)).unwrap();
    assert!(same_type(&poly("c").apply(&s), &mono("Int")));
}

#[test]
fn composition_later_bindings_win() {
    let s1 = Subst { entries: vec![(Var::Named("a".to_string()), poly("b"))] };
    let s2 = Subst { entries: vec![(Var::Named("b".to_string()), mono("Int"))] };
    let s = compose(s1, s2);
    assert!(same_type(&poly("a").apply(&s), &mono("Int")));
    assert!(same_type(&poly("b").apply(&s), &mono("Int")));
    assert!(same_type(&poly("c").apply(&s), &poly("c")));
}

#[test]
fn composition_associative_on_values() {
    let mk = || {
        (
            Subst { entries: vec![(Var::Named("a".to_string()), app(mono("List"), poly("b")))] },
            Subst { entries: vec![(Var::Named("b".to_string()), poly("c"))] },
            Subst { entries: vec![(Var::Named("c".to_string()), mono("Int"))] },
        )
    };
    let (s1, s2, s3) = mk();
    let left = compose(compose(s1, s2), s3);
    let (s1, s2, s3) = mk();
    let right = compose(s1, compose(s2, s3));
    for t in [poly("a"), poly("b"), poly("c"), app(poly("a"), poly("d"))] {
        assert!(same_type(&t.apply(&left), &t.apply(&right)));
    }
    assert!(same_type(&poly("a").apply(&left), &app(mono("List"), mono("Int"))));
}

#[test]
fn literal_typing() {
    let m = bool_module(vec![]);
    let mut inf = Inference::new(&m);
    let o = inf.infer(&vec![lit(5)]).unwrap();
    assert!(same_op(&o, &OpType { pre: vec![], post: vec![mono("Int")] }));
}

#[test]
fn empty_body_has_empty_signature() {
    let m = bool_module(vec![]);
    let mut inf = Inference::new(&m);
    let o = inf.infer(&vec![]).unwrap();
    assert!(o.pre.is_empty() && o.post.is_empty());
}

#[test]
fn dup_then_drop_is_identity() {
    let m = bool_module(vec![]);
    let mut inf = Inference::new(&m);
    let o = inf.infer(&vec![name("dup"), name("drop")]).unwrap();
    assert_eq!(o.pre.len(), 1);
    assert_eq!(o.post.len(), 1);
    assert!(matches!(o.pre[0], Type::Poly(_)));
    assert!(same_type(&o.pre[0], &o.post[0]));
}

#[test]
fn literal_under_deeper_operation() {
    let m = bool_module(vec![]);
    let mut inf = Inference::new(&m);
    let o = inf.infer(&vec![lit(1), name("add")]).unwrap();
    assert!(same_op(&o, &OpType { pre: vec![mono("Int")], post: vec![mono("Int")] }));
}

#[test]
fn quote_pushes_operation_value() {
    let m = bool_module(vec![]);
    let mut inf = Inference::new(&m);
    let o = inf.infer(&vec![Op::Quote { value: vec![lit(2)], span: sp() }]).unwrap();
    assert!(same_op(
        &o,
        &OpType {
            pre: vec![],
            post: vec![Type::Op(OpType { pre: vec![], post: vec![mono("Int")] })],
        },
    ));
}

#[test]
fn unknown_operation() {
    let m = bool_module(vec![]);
    let mut inf = Inference::new(&m);
    match inf.infer(&vec![name("frobnicate")]) {
        Err(e) => assert!(matches!(e.error, InferenceErrorMessage::UnknownOp { .. })),
        Ok(_) => panic!("expected an unknown operation"),
    }
}

#[test]
fn exhaustive_case_succeeds() {
    let m = bool_module(vec![]);
    let mut inf = Inference::new(&m);
    let c = case(arm("True", vec![lit(1)]), vec![arm("False", vec![lit(0)])]);
    let o = inf.infer(&vec![c]).unwrap();
    assert!(same_op(&o, &OpType { pre: vec![mono("Bool")], post: vec![mono("Int")] }));
}

#[test]
fn case_missing_constructor() {
    let m = bool_module(vec![]);
    let mut inf = Inference::new(&m);
    let c = case(arm("True", vec![]), vec![]);
    match inf.infer(&vec![c]) {
        Err(e) => assert!(matches!(e.error, InferenceErrorMessage::NotAllConstructorsCovered)),
        Ok(_) => panic!("expected a coverage failure"),
    }
}

#[test]
fn case_unknown_constructor() {
    let m = bool_module(vec![]);
    let mut inf = Inference::new(&m);
    let c = case(arm("True", vec![]), vec![arm("False", vec![]), arm("Extra", vec![])]);
    match inf.infer(&vec![c]) {
        Err(e) => match e.error {
            InferenceErrorMessage::UnknownConstructor { name } => assert_eq!(name, "Extra"),
            _ => panic!("expected an unknown constructor"),
        },
        Ok(_) => panic!("expected an unknown constructor"),
    }
    let c = case(arm("Maybe", vec![]), vec![]);
    match inf.infer(&vec![c]) {
        Err(e) => assert!(matches!(e.error, InferenceErrorMessage::UnknownConstructor { .. })),
        Ok(_) => panic!("expected an unknown constructor"),
    }
}

#[test]
fn case_arms_must_agree() {
    let m = bool_module(vec![]);
    let mut inf = Inference::new(&m);
    let c = case(arm("True", vec![lit(1)]), vec![arm("False", vec![name("True")])]);
    match inf.infer(&vec![c]) {
        Err(e) => assert!(matches!(e.error, InferenceErrorMessage::UnificationError { .. })),
        Ok(_) => panic!("expected arms that disagree"),
    }
}

#[test]
fn constructor_signature_of_parameterised_type() {
    let m = Module {
        data_defs: vec![(
            "Box".to_string(),
            DataDef {
                name: "Box".to_string(),
                params: vec!["t".to_string()],
                constrs: vec![("MkBox".to_string(), ConstrDef { params: vec![poly("t")] })],
            },
        )],
        op_defs: vec![],
    };
    let mut inf = Inference::new(&m);
    let o = inf.infer(&vec![lit(3), name("MkBox")]).unwrap();
    assert!(same_op(&o, &OpType { pre: vec![], post: vec![app(mono("Box"), mono("Int"))] }));
}

#[test]
fn identity_annotation_checks() {
    let m = bool_module(vec![("id".to_string(), op_def(vec![poly("a")], vec![poly("a")], vec![]))]);
    let mut inf = Inference::new(&m);
    assert!(inf.typecheck().is_ok());
}

#[test]
fn annotation_more_general_than_body() {
    let body = vec![lit(1), name("add")];
    let m = bool_module(vec![("inc".to_string(), op_def(vec![poly("a")], vec![poly("a")], body))]);
    let mut inf = Inference::new(&m);
    match inf.typecheck() {
        Err(e) => {
            assert!(matches!(e.error, InferenceErrorMessage::AnnInfConflict { .. }));
            assert_eq!(e.span, Span { start: 3, end: 9 });
        },
        Ok(()) => panic!("expected an annotation conflict"),
    }
}

#[test]
fn concrete_annotation_checks() {
    let body = vec![lit(1), name("add")];
    let m = bool_module(vec![("inc".to_string(), op_def(vec![mono("Int")], vec![mono("Int")], body))]);
    let mut inf = Inference::new(&m);
    assert!(inf.typecheck().is_ok());
}

#[test]
fn foreign_operations_are_not_checked() {
    let mut d = op_def(vec![], vec![mono("Int")], vec![name("nothing_here")]);
    d.foreign = true;
    let m = bool_module(vec![("native".to_string(), d)]);
    let mut inf = Inference::new(&m);
    assert!(inf.typecheck().is_ok());
}

#[test]
fn user_operation_is_referenced_by_annotation() {
    let two = op_def(vec![], vec![mono("Int")], vec![lit(2)]);
    let four = op_def(vec![], vec![mono("Int")], vec![name("two"), name("two"), name("add")]);
    let m = bool_module(vec![("two".to_string(), two), ("four".to_string(), four)]);
    let mut inf = Inference::new(&m);
    assert!(inf.typecheck().is_ok());
}

#[test]
fn duplicate_constructor_is_rejected() {
    let mut m = bool_module(vec![]);
    m.data_defs.push((
        "Answer".to_string(),
        DataDef {
            name: "Answer".to_string(),
            params: vec![],
            constrs: vec![("True".to_string(), ConstrDef { params: vec![] })],
        },
    ));
    let mut inf = Inference::new(&m);
    match inf.typecheck() {
        Err(e) => match e.error {
            InferenceErrorMessage::DuplicateConstructor { name } => assert_eq!(name, "True"),
            _ => panic!("expected a duplicate constructor"),
        },
        Ok(()) => panic!("expected a duplicate constructor"),
    }
}

#[test]
fn body_type_error_is_located() {
    let body = vec![lit(1), name("True"), name("add")];
    let m = bool_module(vec![("bad".to_string(), op_def(vec![], vec![mono("Int")], body))]);
    let mut inf = Inference::new(&m);
    match inf.typecheck() {
        Err(e) => assert!(matches!(e.error, InferenceErrorMessage::UnificationError { .. })),
        Ok(()) => panic!("expected a unification error"),
    }
}

#[test]
fn threaded_sequence_error_names_both_types() {
    let r = mgu_types(&vec![poly("a"), poly("a")], &vec![mono("Int"), mono("Bool")]);
    match r {
        Err(InferenceErrorMessage::UnificationError { t1, t2 }) => {
            assert!(same_type(&t1, &mono("Int")));
            assert!(same_type(&t2, &mono("Bool")));
        },
        _ => panic!("expected a unification error"),
    }
}

#[test]
fn signature_post_compared_under_pre_bindings() {
    let o1 = OpType { pre: vec![poly("a")], post: vec![poly("a")] };
    let o2 = OpType { pre: vec![mono("Int")], post: vec![mono("Bool")] };
    match OpType::mgu(&o1, &o2) {
        Err(InferenceErrorMessage::UnificationError { t1, t2 }) => {
            assert!(same_type(&t1, &mono("Int")));
            assert!(same_type(&t2, &mono("Bool")));
        },
        _ => panic!("expected a unification error"),
    }
}

#[test]
fn mismatch_error_carries_inputs() {
    let a = mono("Int");
    let b = app(mono("List"), mono("Int"));
    match Type::mgu(&a, &b) {
        Err(InferenceErrorMessage::UnificationError { t1, t2 }) => {
            assert!(same_type(&t1, &a));
            assert!(same_type(&t2, &b));
        },
        _ => panic!("expected a unification error"),
    }
}

#[test]
fn unknown_operation_name_and_span() {
    let m = bool_module(vec![]);
    let mut inf = Inference::new(&m);
    let op = Op::Name { value: "frob".to_string(), span: Span { start: 4, end: 8 } };
    match inf.infer(&vec![op]) {
        Err(e) => {
            match e.error {
                InferenceErrorMessage::UnknownOp { name } => assert_eq!(name, "frob"),
                _ => panic!("expected an unknown operation"),
            }
            assert_eq!(e.span, Span { start: 4, end: 8 });
        },
        Ok(_) => panic!("expected an unknown operation"),
    }
}

#[test]
fn unknown_head_constructor_name_and_span() {
    let m = bool_module(vec![]);
    let mut inf = Inference::new(&m);
    let c = Op::Case {
        head_arm: Box::new(arm("Maybe", vec![])),
        arms: vec![],
        span: Span { start: 10, end: 20 },
    };
    match inf.infer(&vec![c]) {
        Err(e) => {
            match e.error {
                InferenceErrorMessage::UnknownConstructor { name } => assert_eq!(name, "Maybe"),
                _ => panic!("expected an unknown constructor"),
            }
            assert_eq!(e.span, Span { start: 10, end: 20 });
        },
        Ok(_) => panic!("expected an unknown constructor"),
    }
}

#[test]
fn first_fresh_names_are_numbered_from_zero() {
    let m = bool_module(vec![]);
    let mut inf = Inference::new(&m);
    let o = inf.infer(&vec![name("dup")]).unwrap();
    let g0 = Type::Poly(Var::Gen(0));
    assert!(same_op(&o, &OpType { pre: vec![Type::Poly(Var::Gen(0))], post: vec![g0, Type::Poly(Var::Gen(0))] }));
    assert_eq!(inf.counter, 1);
}

#[test]
fn swap_gets_two_distinct_fresh_names() {
    let m = bool_module(vec![]);
    let mut inf = Inference::new(&m);
    let o = inf.infer(&vec![name("swap")]).unwrap();
    assert!(!same_type(&o.pre[0], &o.pre[1]));
    assert!(same_type(&o.pre[0], &o.post[1]));
    assert!(same_type(&o.pre[1], &o.post[0]));
}

#[test]
fn duplicate_operation_names_are_detected() {
    let a = op_def(vec![], vec![], vec![]);
    let b = op_def(vec![], vec![], vec![]);
    let m = bool_module(vec![("same".to_string(), a), ("same".to_string(), b)]);
    assert!(!m.has_unique_op_names());
    let m = bool_module(vec![("one".to_string(), op_def(vec![], vec![], vec![]))]);
    assert!(m.has_unique_op_names());
}

#[test]
fn two_literals_stack_up() {
    let m = bool_module(vec![]);
    let mut inf = Inference::new(&m);
    let o = inf.infer(&vec![lit(5), lit(6)]).unwrap();
    assert!(same_op(&o, &OpType { pre: vec![], post: vec![mono("Int"), mono("Int")] }));
}

#[test]
fn case_with_empty_arms() {
    let m = bool_module(vec![]);
    let mut inf = Inference::new(&m);
    let c = case(arm("True", vec![]), vec![arm("False", vec![])]);
    let o = inf.infer(&vec![c]).unwrap();
    assert!(same_op(&o, &OpType { pre: vec![mono("Bool")], post: vec![] }));
}

#[test]
fn case_arms_of_different_depth() {
    let m = bool_module(vec![]);
    let mut inf = Inference::new(&m);
    let c = Op::Case {
        head_arm: Box::new(arm("True", vec![lit(1)])),
        arms: vec![arm("False", vec![])],
        span: Span { start: 7, end: 30 },
    };
    match inf.infer(&vec![c]) {
        Err(e) => {
            assert!(matches!(e.error, InferenceErrorMessage::ListMGULengthDifferent));
            assert_eq!(e.span, Span { start: 7, end: 30 });
        },
        Ok(_) => panic!("expected arms that disagree"),
    }
}

#[test]
fn chain_error_carries_the_operation_span() {
    let m = bool_module(vec![]);
    let mut inf = Inference::new(&m);
    let bad = Op::Name { value: "add".to_string(), span: Span { start: 11, end: 14 } };
    match inf.infer(&vec![name("True"), lit(1), bad]) {
        Err(e) => {
            assert!(matches!(e.error, InferenceErrorMessage::UnificationError { .. }));
            assert_eq!(e.span, Span { start: 11, end: 14 });
        },
        Ok(_) => panic!("expected a unification error"),
    }
}

#[test]
fn foreign_skipped_but_others_checked() {
    let mut native = op_def(vec![], vec![mono("Int")], vec![name("missing")]);
    native.foreign = true;
    let bad = op_def(vec![poly("a")], vec![poly("a")], vec![lit(1), name("add")]);
    let m = bool_module(vec![("native".to_string(), native), ("bad".to_string(), bad)]);
    let mut inf = Inference::new(&m);
    match inf.typecheck() {
        Err(e) => assert!(matches!(e.error, InferenceErrorMessage::AnnInfConflict { .. })),
        Ok(()) => panic!("expected an annotation conflict"),
    }
}

use riddle::env::{BoolExpr, ObjectId, Slot, TypeId, Var, push_inverted, to_cnf};
use riddle::execution::{CommonCore, class_instances, evaluate, execute, new_instance};
use riddle::language::{Disjunction, Expr, Statement};
use riddle::runtime::{CallHistory, Core, arith_class, get_type_by_path, get_var_by_path, is_assignable_from};
use riddle::scope::{Constructor, Function, Predicate};
use riddle::RiddleError;

struct Solver {
    next: u64,
    asserted: Vec<BoolExpr>,
}

impl Solver {
    fn new() -> Self {
        Solver { next: 0, asserted: Vec::new() }
    }

    fn fresh(&mut self) -> u64 {
        self.next += 1;
        self.next
    }
}

impl Core for Solver {
    fn calls(&self) -> CallHistory {
        unreachable!("a solver\'s history is a value of the specification only")
    }

    fn new_int(&mut self, _value: i64) -> u64 {
        self.fresh()
    }

    fn new_real(&mut self, _num: i64, _den: i64) -> u64 {
        self.fresh()
    }

    fn new_string(&mut self, _value: &str) -> u64 {
        self.fresh()
    }

    fn sum(&mut self, _terms: &Vec<Slot>) -> Result<Slot, RiddleError> {
        Err(RiddleError::RuntimeError("Arithmetic is not supported".to_string()))
    }

    fn opposite(&mut self, _term: Slot) -> Result<Slot, RiddleError> {
        Err(RiddleError::RuntimeError("Arithmetic is not supported".to_string()))
    }

    fn mul(&mut self, _factors: &Vec<Slot>) -> Result<Slot, RiddleError> {
        Err(RiddleError::RuntimeError("Arithmetic is not supported".to_string()))
    }

    fn div(&mut self, _left: Slot, _right: Slot) -> Result<Slot, RiddleError> {
        Err(RiddleError::RuntimeError("Arithmetic is not supported".to_string()))
    }

    fn new_disjunction(&mut self, _disjunction: Disjunction) {}

    fn new_bool(&mut self, _value: bool) -> u64 {
        self.fresh()
    }

    fn new_bool_var(&mut self) -> u64 {
        self.fresh()
    }

    fn new_int_var(&mut self) -> u64 {
        self.fresh()
    }

    fn new_real_var(&mut self) -> u64 {
        self.fresh()
    }

    fn new_string_var(&mut self) -> u64 {
        self.fresh()
    }

    fn assert_formula(&mut self, term: &BoolExpr) -> bool {
        self.asserted.push(term.copy());
        true
    }

    fn new_var(&mut self, _class: TypeId, instances: &Vec<ObjectId>) -> Result<u64, RiddleError> {
        if instances.is_empty() {
            return Err(RiddleError::InconsistencyError("Cannot create variable with no instances".to_string()));
        }
        Ok(self.fresh())
    }
}

fn s(x: &str) -> String {
    x.to_string()
}

fn path(xs: &[&str]) -> Vec<String> {
    xs.iter().map(|x| x.to_string()).collect()
}

/// The truth of a formula when each term with handle `h` has the truth of bit
/// `h` of `bits` and each compared value with handle `h` is `h % 3`.
fn eval(e: &BoolExpr, bits: u32) -> bool {
    fn handle(s: &Slot) -> u64 {
        match s {
            Slot::Primitive(Var::Value { handle, .. }) => *handle,
            Slot::Primitive(Var::Formula(k)) => *k as u64,
            Slot::ObjectRef(o) => o.0 as u64,
            Slot::AtomRef(a) => a.0 as u64,
        }
    }
    match e {
        BoolExpr::Term { term } => (bits >> handle(term)) & 1 == 1,
        BoolExpr::Not { term } => !eval(term, bits),
        BoolExpr::Eq { left, right } => handle(left) % 3 == handle(right) % 3,
        BoolExpr::Lt { left, right } => handle(left) % 3 < handle(right) % 3,
        BoolExpr::Leq { left, right } => handle(left) % 3 <= handle(right) % 3,
        BoolExpr::Or { terms } => terms.iter().any(|t| eval(t, bits)),
        BoolExpr::And { terms } => terms.iter().all(|t| eval(t, bits)),
    }
}

fn is_literal(e: &BoolExpr) -> bool {
    match e {
        BoolExpr::Term { .. } | BoolExpr::Eq { .. } | BoolExpr::Lt { .. } | BoolExpr::Leq { .. } => true,
        BoolExpr::Not { term } => matches!(**term, BoolExpr::Term { .. } | BoolExpr::Eq { .. }),
        _ => false,
    }
}

fn is_clause(e: &BoolExpr) -> bool {
    match e {
        BoolExpr::Or { terms } => terms.iter().all(is_clause),
        _ => is_literal(e),
    }
}

fn is_cnf(e: &BoolExpr) -> bool {
    match e {
        BoolExpr::And { terms } => terms.iter().all(is_clause),
        _ => is_clause(e),
    }
}

fn t(h: u64) -> BoolExpr {
    BoolExpr::Term { term: Slot::Primitive(Var::Value { var_type: TypeId(0), handle: h }) }
}

fn v(h: u64) -> Slot {
    Slot::Primitive(Var::Value { var_type: TypeId(1), handle: h })
}

fn sample_formulas() -> Vec<BoolExpr> {
    vec![
        BoolExpr::Not { term: Box::new(BoolExpr::Or { terms: vec![t(0), BoolExpr::And { terms: vec![t(1), t(2)] }] }) },
        BoolExpr::Or {
            terms: vec![
                BoolExpr::And { terms: vec![t(0), t(1)] },
                BoolExpr::And { terms: vec![t(2), BoolExpr::Not { term: Box::new(t(3)) }] },
                BoolExpr::Leq { left: v(4), right: v(5) },
            ],
        },
        BoolExpr::Not {
            term: Box::new(BoolExpr::And {
                terms: vec![
                    BoolExpr::Not { term: Box::new(BoolExpr::Lt { left: v(1), right: v(2) }) },
                    BoolExpr::Or { terms: vec![BoolExpr::Eq { left: v(3), right: v(6) }, t(0)] },
                ],
            }),
        },
        BoolExpr::Or { terms: vec![] },
        BoolExpr::And { terms: vec![] },
        BoolExpr::Or { terms: vec![t(1), BoolExpr::And { terms: vec![] }] },
        BoolExpr::Or {
            terms: vec![BoolExpr::Or { terms: vec![t(0), BoolExpr::And { terms: vec![t(1), t(2)] }] }, BoolExpr::Not { term: Box::new(BoolExpr::Not { term: Box::new(t(3)) }) }],
        },
    ]
}

#[test]
fn cnf_keeps_meaning_on_every_assignment() {
    for f in sample_formulas() {
        let cnf = to_cnf(f.copy());
        for bits in 0..16u32 {
            assert_eq!(eval(&cnf, bits), eval(&f, bits));
        }
    }
}

#[test]
fn cnf_is_in_conjunctive_normal_form() {
    for f in sample_formulas() {
        assert!(is_cnf(&to_cnf(f)));
    }
}

#[test]
fn inverted_is_the_negation() {
    for f in sample_formulas() {
        let inv = push_inverted(f.copy());
        for bits in 0..16u32 {
            assert_eq!(eval(&inv, bits), !eval(&f, bits));
        }
    }
}

#[test]
fn negated_comparisons_flip() {
    let inv = push_inverted(BoolExpr::Leq { left: v(1), right: v(2) });
    match inv {
        BoolExpr::Lt { left, right } => {
            assert_eq!(left, v(2));
            assert_eq!(right, v(1));
        },
        _ => panic!("Expected a strict comparison"),
    }
    let inv = push_inverted(BoolExpr::Lt { left: v(1), right: v(2) });
    assert!(matches!(inv, BoolExpr::Leq { .. }));
    let inv = push_inverted(t(0));
    assert!(matches!(inv, BoolExpr::Not { .. }));
}

#[test]
fn distribution_gives_exact_clauses() {
    // (a | (b & c)) -> (a | b) & (a | c)
    let cnf = to_cnf(BoolExpr::Or { terms: vec![t(0), BoolExpr::And { terms: vec![t(1), t(2)] }] });
    match &cnf {
        BoolExpr::And { terms } => {
            assert_eq!(terms.len(), 2);
            match (&terms[0], &terms[1]) {
                (BoolExpr::Or { terms: c0 }, BoolExpr::Or { terms: c1 }) => {
                    assert_eq!(c0.len(), 2);
                    assert_eq!(c1.len(), 2);
                    assert!(matches!(&c0[1], BoolExpr::Term { term } if *term == Slot::Primitive(Var::Value { var_type: TypeId(0), handle: 1 })));
                    assert!(matches!(&c1[1], BoolExpr::Term { term } if *term == Slot::Primitive(Var::Value { var_type: TypeId(0), handle: 2 })));
                },
                _ => panic!("Expected two clauses"),
            }
        },
        _ => panic!("Expected a conjunction"),
    }
    // A disjunction without conjunctions stays one clause.
    let cnf = to_cnf(BoolExpr::Or { terms: vec![t(0), t(1)] });
    assert!(matches!(cnf, BoolExpr::Or { ref terms } if terms.len() == 2));
}

#[test]
fn set_then_get_gives_the_value() {
    let mut core = CommonCore::new(Solver::new());
    let x = Slot::ObjectRef(ObjectId(7));
    core.set(s("x"), x);
    assert_eq!(core.get(&s("x")), Some(x));
    let y = v(3);
    core.set(s("x"), y);
    assert_eq!(core.get(&s("x")), Some(y));
    assert_eq!(core.get(&s("y")), None);
}

#[test]
fn reading_declares_and_asserts() {
    let mut core = CommonCore::new(Solver::new());
    core.read("bool a, b, c; (a & b) | c; !a;").expect("Failed to read problem");
    assert!(core.get(&s("a")).is_some());
    assert!(core.get(&s("b")).is_some());
    assert!(core.get(&s("c")).is_some());
    assert_eq!(core.state.solver.asserted.len(), 2);
    // (a & b) | c has the clauses (a | c) & (b | c).
    assert!(matches!(&core.state.solver.asserted[0], BoolExpr::And { terms } if terms.len() == 2));
    // !a is a single negated term.
    assert!(matches!(&core.state.solver.asserted[1], BoolExpr::Not { .. }));
}

#[test]
fn assignment_binds_the_value() {
    let mut core = CommonCore::new(Solver::new());
    core.read("bool a, b; a = b; c = a & b;").expect("Failed to read problem");
    assert_eq!(core.get(&s("a")), core.get(&s("b")));
    assert!(matches!(core.get(&s("c")), Some(Slot::Primitive(Var::Formula(_)))));
}

#[test]
fn reading_errors() {
    let mut core = CommonCore::new(Solver::new());
    // A syntax error.
    assert!(matches!(core.read("bool a"), Err(RiddleError::RuntimeError(_))));
    // A value that is not a formula.
    assert!(matches!(core.read("real x; x;"), Err(RiddleError::RuntimeError(_))));
    // A literal is a value of the solver, not a formula.
    assert!(matches!(core.read("true;"), Err(RiddleError::RuntimeError(_))));
    // A name that is not declared.
    assert!(matches!(core.read("zz;"), Err(RiddleError::NotFound(_))));
    // A statement that is not executed.
    assert!(matches!(core.read("for (A a) { }"), Err(RiddleError::RuntimeError(_))));
    // An unknown type.
    assert!(matches!(core.read("Missing m;"), Err(RiddleError::NotFound(_))));
    // A class without instances.
    assert!(matches!(core.read("class A { } A a;"), Err(RiddleError::RuntimeError(_))));
    // A default value of the wrong type.
    assert!(matches!(core.read("bool flag; int n = flag;"), Err(RiddleError::TypeError(_))));
    // A path through a primitive value.
    assert!(matches!(core.read("bool p; p.q = p;"), Err(RiddleError::NotAnEnvironment(_))));
    // A path through a predicate, which is no type.
    assert!(matches!(core.read("predicate P() { } P.x y;"), Err(RiddleError::NotFound(_))));
}

#[test]
fn classes_are_registered() {
    let mut core = CommonCore::new(Solver::new());
    core.read("class A { int x; class Inner { } } class B : A { }").expect("Failed to read classes");
    let a = core.get_type(&s("A")).expect("A should be registered");
    let b = core.get_type(&s("B")).expect("B should be registered");
    let inner = get_type_by_path(&core.program, 0, &path(&["A", "Inner"])).expect("A.Inner should be found");
    assert!(is_assignable_from(&core.program, a, b));
    assert!(is_assignable_from(&core.program, b, a));
    assert!(is_assignable_from(&core.program, a, a));
    assert!(!is_assignable_from(&core.program, a, inner));
    assert!(!is_assignable_from(&core.program, TypeId(1), TypeId(2)));
    assert!(matches!(get_type_by_path(&core.program, 0, &path(&["A", "Nope"])), Err(RiddleError::NotFound(_))));
    assert!(matches!(get_type_by_path(&core.program, 0, &path(&["int", "x"])), Err(RiddleError::NotAClass(_))));
    assert!(matches!(get_type_by_path(&core.program, 0, &path(&[])), Err(RiddleError::RuntimeError(_))));
}

#[test]
fn arithmetic_types() {
    let core = CommonCore::new(Solver::new());
    let int = Slot::Primitive(Var::Value { var_type: TypeId(1), handle: 1 });
    let real = Slot::Primitive(Var::Value { var_type: TypeId(2), handle: 2 });
    let boolean = Slot::Primitive(Var::Formula(0));
    assert_eq!(arith_class(&core.program, &vec![int, int]).unwrap(), TypeId(1));
    assert_eq!(arith_class(&core.program, &vec![int, real]).unwrap(), TypeId(2));
    assert_eq!(arith_class(&core.program, &vec![]).unwrap(), TypeId(1));
    assert!(matches!(arith_class(&core.program, &vec![int, boolean]), Err(RiddleError::TypeError(_))));
    assert!(matches!(arith_class(&core.program, &vec![Slot::ObjectRef(ObjectId(0))]), Err(RiddleError::TypeError(_))));
}

#[test]
fn paths_through_objects() {
    let mut core = CommonCore::new(Solver::new());
    core.read("class P { int x; }").expect("Failed to read class");
    let p = core.get_type(&s("P")).unwrap();
    let o = core.new_object(p);
    assert_eq!(o, ObjectId(0));
    assert_eq!(core.get_objects().len(), 1);
    assert_eq!(core.get_object(o).unwrap().class(), p);
    assert!(core.get_object(ObjectId(5)).is_none());
    core.set(s("obj"), Slot::ObjectRef(o));
    // Nothing is bound in the object yet.
    assert!(matches!(get_var_by_path(&core.state, 0, &path(&["obj", "x"])), Err(RiddleError::NotFound(_))));
    // The constructor gives the field its value.
    Constructor::call(&core.program, &mut core.state, p, 0, o, vec![], 10).expect("Failed to construct");
    let x = get_var_by_path(&core.state, 0, &path(&["obj", "x"])).expect("x should be bound");
    assert!(matches!(x, Slot::Primitive(Var::Value { var_type: TypeId(1), .. })));
    // Assigning through the path.
    core.read("bool b; obj.x = b;").expect("Failed to assign");
    assert_eq!(get_var_by_path(&core.state, 0, &path(&["obj", "x"])).unwrap(), core.get(&s("b")).unwrap());
    assert!(matches!(get_var_by_path(&core.state, 0, &path(&[])), Err(RiddleError::RuntimeError(_))));
}

#[test]
fn constructor_arguments_and_errors() {
    let mut core = CommonCore::new(Solver::new());
    core.read("class Q { int y; Q(int v) { } }").expect("Failed to read class");
    let q = core.get_type(&s("Q")).unwrap();
    let o = core.new_object(q);
    let arg = Slot::Primitive(Var::Value { var_type: TypeId(1), handle: 99 });
    assert!(matches!(Constructor::call(&core.program, &mut core.state, q, 0, o, vec![], 10), Err(RiddleError::RuntimeError(_))));
    assert!(matches!(Constructor::call(&core.program, &mut core.state, q, 1, o, vec![arg], 10), Err(RiddleError::NotFound(_))));
    let wrong = Slot::Primitive(Var::Value { var_type: TypeId(3), handle: 1 });
    assert!(matches!(Constructor::call(&core.program, &mut core.state, q, 0, o, vec![wrong], 10), Err(RiddleError::TypeError(_))));
    assert!(matches!(Constructor::call(&core.program, &mut core.state, TypeId(1), 0, o, vec![arg], 10), Err(RiddleError::NotAClass(_))));
    Constructor::call(&core.program, &mut core.state, q, 0, o, vec![arg], 10).expect("Failed to construct");
}

#[test]
fn functions_and_predicates() {
    let mut core = CommonCore::new(Solver::new());
    core.read("class R { } void f(bool a) { a; } R g() { } predicate Even(int x) { }").expect("Failed to read declarations");
    let scope = &core.program.scopes[0];
    assert_eq!(scope.functions.len(), 2);
    assert_eq!(scope.functions[0].name(), "f");
    let b = Slot::Primitive(Var::Formula(0));
    core.read("bool z;").unwrap();
    assert_eq!(Function::call(&core.program, &mut core.state, 0, 0, 0, vec![b]).unwrap(), None);
    assert!(matches!(Function::call(&core.program, &mut core.state, 0, 0, 0, vec![]), Err(RiddleError::RuntimeError(_))));
    // The body cannot set a return value.
    assert!(matches!(Function::call(&core.program, &mut core.state, 0, 1, 0, vec![]), Err(RiddleError::RuntimeError(_))));
    let even = core.program.get_predicate(0, &s("Even")).expect("Even should be registered");
    let atom = core.new_atom(even, true, vec![(s("x"), v(4))]);
    assert!(core.get_atom(atom).unwrap().is_fact());
    assert_eq!(core.get_atoms().len(), 1);
    Predicate::call(&core.program, &mut core.state, even, atom).expect("Failed to run predicate");
    assert!(matches!(Predicate::call(&core.program, &mut core.state, TypeId(0), atom), Err(RiddleError::NotAPredicate(_))));
}

#[test]
fn evaluating_expressions() {
    let mut core = CommonCore::new(Solver::new());
    let r = evaluate(&mut core.state, 0, &Expr::Bool(true)).unwrap();
    assert!(matches!(r, Slot::Primitive(Var::Value { var_type: TypeId(0), .. })));
    assert!(matches!(evaluate(&mut core.state, 0, &Expr::Int(s("1"))), Err(RiddleError::RuntimeError(_))));
    let stmt = Statement::Return { value: Expr::Bool(true) };
    assert!(matches!(execute(&core.program, &mut core.state, 0, 0, &stmt), Err(RiddleError::RuntimeError(_))));
}

#[test]
fn local_fields_get_values_of_their_type() {
    let mut core = CommonCore::new(Solver::new());
    core.read("bool a; int n; real r; string t; int m; bool m;").expect("Failed to read fields");
    assert!(matches!(get_var_by_path(&core.state, 0, &path(&["a"])).unwrap(), Slot::Primitive(Var::Formula(_))));
    assert!(matches!(get_var_by_path(&core.state, 0, &path(&["n"])).unwrap(), Slot::Primitive(Var::Value { var_type: TypeId(1), .. })));
    assert!(matches!(get_var_by_path(&core.state, 0, &path(&["r"])).unwrap(), Slot::Primitive(Var::Value { var_type: TypeId(2), .. })));
    assert!(matches!(get_var_by_path(&core.state, 0, &path(&["t"])).unwrap(), Slot::Primitive(Var::Value { var_type: TypeId(3), .. })));
    // The later declaration of a name is the one that counts.
    assert!(matches!(get_var_by_path(&core.state, 0, &path(&["m"])).unwrap(), Slot::Primitive(Var::Formula(_))));
    // A default value of an assignable type.
    core.read("bool b = a;").expect("Failed to read field with default");
    assert_eq!(get_var_by_path(&core.state, 0, &path(&["b"])).unwrap(), get_var_by_path(&core.state, 0, &path(&["a"])).unwrap());
}

#[test]
fn class_instances_include_those_of_parents() {
    let mut core = CommonCore::new(Solver::new());
    core.read("class A { } class B : A { }").expect("Failed to read classes");
    let a = core.get_type(&s("A")).unwrap();
    let b = core.get_type(&s("B")).unwrap();
    assert!(class_instances(&core.program, &core.state, a).is_empty());
    let first = new_instance(&core.program, &mut core.state, b).expect("Failed to make an instance of B");
    assert_eq!(first, Slot::ObjectRef(ObjectId(0)));
    assert_eq!(core.get_objects().len(), 1);
    assert_eq!(core.state.instances, vec![(b, ObjectId(0)), (a, ObjectId(0))]);
    assert_eq!(class_instances(&core.program, &core.state, a), vec![ObjectId(0)]);
    // The instances of B, then those of its parent A, which B's instance is one of.
    assert_eq!(class_instances(&core.program, &core.state, b), vec![ObjectId(0), ObjectId(0)]);
    let second = new_instance(&core.program, &mut core.state, a).expect("Failed to make an instance of A");
    assert_eq!(second, Slot::ObjectRef(ObjectId(1)));
    assert_eq!(class_instances(&core.program, &core.state, a), vec![ObjectId(0), ObjectId(1)]);
    assert_eq!(class_instances(&core.program, &core.state, b), vec![ObjectId(0), ObjectId(0), ObjectId(1)]);
    // A field of a class with several instances is a variable of the solver.
    core.read("A x;").expect("Failed to declare a field");
    assert!(matches!(get_var_by_path(&core.state, 0, &path(&["x"])).unwrap(), Slot::Primitive(Var::Value { var_type, .. }) if var_type == a));
}

#[test]
fn single_instance_is_the_field_value() {
    let mut core = CommonCore::new(Solver::new());
    core.read("class C { }").expect("Failed to read class");
    let c = core.get_type(&s("C")).unwrap();
    let o = new_instance(&core.program, &mut core.state, c).unwrap();
    core.read("C only;").expect("Failed to declare a field");
    assert_eq!(get_var_by_path(&core.state, 0, &path(&["only"])).unwrap(), o);
    // Primitive types give fresh values; a predicate has no instance.
    assert!(matches!(new_instance(&core.program, &mut core.state, TypeId(1)).unwrap(), Slot::Primitive(Var::Value { var_type: TypeId(1), .. })));
    core.read("predicate P() { }").unwrap();
    let p = core.program.get_predicate(0, &s("P")).unwrap();
    assert!(matches!(new_instance(&core.program, &mut core.state, p), Err(RiddleError::TypeError(_))));
}

#[test]
fn functions_are_found_by_argument_types() {
    let mut core = CommonCore::new(Solver::new());
    core.read("void f(bool a) { } void f(int n) { } class K { void g() { } }").expect("Failed to read functions");
    assert_eq!(core.get_function(&s("f"), &vec![TypeId(0)]), Some(0));
    assert_eq!(core.get_function(&s("f"), &vec![TypeId(1)]), Some(1));
    assert_eq!(core.get_function(&s("f"), &vec![TypeId(2)]), None);
    assert_eq!(core.get_function(&s("f"), &vec![]), None);
    assert_eq!(core.get_function(&s("h"), &vec![]), None);
    // From the scope of a class, the functions around it are found too.
    let k = core.get_type(&s("K")).unwrap();
    let ks = core.program.class_scope(k).unwrap();
    assert_eq!(core.program.get_function(ks, &s("g"), &vec![]), Some((ks, 0)));
    assert_eq!(core.program.get_function(ks, &s("f"), &vec![TypeId(1)]), Some((0, 1)));
}

#[test]
fn expression_statements_name_what_they_got() {
    let mut core = CommonCore::new(Solver::new());
    match core.read("real x; x;") {
        Err(RiddleError::RuntimeError(m)) => assert_eq!(m, "Expected boolean expression, got real"),
        _ => panic!("Expected a runtime error"),
    }
    match core.read("true;") {
        Err(RiddleError::RuntimeError(m)) => assert_eq!(m, "Expected boolean expression, got bool"),
        _ => panic!("Expected a runtime error"),
    }
}

#[test]
fn a_text_that_does_not_parse_changes_nothing() {
    let mut core = CommonCore::new(Solver::new());
    core.read("bool a; class A { }").unwrap();
    let types = core.program.types.len();
    let scopes = core.program.scopes.len();
    let envs = core.state.envs.len();
    assert!(core.read("bool b").is_err());
    assert_eq!(core.program.types.len(), types);
    assert_eq!(core.program.scopes.len(), scopes);
    assert_eq!(core.state.envs.len(), envs);
    assert!(core.get(&s("b")).is_none());
}

#[test]
fn a_constructor_without_parents_or_body_succeeds() {
    let mut core = CommonCore::new(Solver::new());
    core.read("class P { int x; bool y; }").unwrap();
    let p = core.get_type(&s("P")).unwrap();
    let o = core.new_object(p);
    Constructor::call(&core.program, &mut core.state, p, 0, o, vec![], 4).expect("The default constructor should succeed");
    let e = core.get_object(o).unwrap().env;
    assert!(matches!(core.state.get(e, &s("x")), Some(Slot::Primitive(Var::Value { var_type: TypeId(1), .. }))));
    assert!(matches!(core.state.get(e, &s("y")), Some(Slot::Primitive(Var::Formula(_)))));
}

#[test]
fn call_errors_name_counts_and_types() {
    let mut core = CommonCore::new(Solver::new());
    core.read("void f(bool a) { }").unwrap();
    match Function::call(&core.program, &mut core.state, 0, 0, 0, vec![]) {
        Err(RiddleError::RuntimeError(m)) => assert_eq!(m, "Expected 1 arguments, got 0"),
        _ => panic!("Expected a runtime error"),
    }
    let n = Slot::Primitive(Var::Value { var_type: TypeId(1), handle: 7 });
    match Function::call(&core.program, &mut core.state, 0, 0, 0, vec![n]) {
        Err(RiddleError::TypeError(m)) => assert_eq!(m, "Argument 'a' expected to be of type 'bool', got 'int'"),
        _ => panic!("Expected a type error"),
    }
}

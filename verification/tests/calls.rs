use riddle::env::{BoolExpr, ObjectId, Slot, TypeId, Var};
use riddle::execution::{CommonCore, execute, new_instance};
use riddle::language::{Disjunction, Expr, Statement};
use riddle::lexer::{LexerError, Location, Token};
use riddle::runtime::{CallHistory, Core, arith_class, get_type_by_path};
use riddle::scope::{Constructor, Function, Type};
use riddle::RiddleError;

struct Counter {
    next: u64,
}

impl Core for Counter {
    fn calls(&self) -> CallHistory {
        unreachable!("a solver\'s history is a value of the specification only")
    }

    fn new_bool(&mut self, _value: bool) -> u64 {
        self.fresh()
    }

    fn new_bool_var(&mut self) -> u64 {
        self.fresh()
    }

    fn new_int(&mut self, _value: i64) -> u64 {
        self.fresh()
    }

    fn new_int_var(&mut self) -> u64 {
        self.fresh()
    }

    fn new_real(&mut self, _num: i64, _den: i64) -> u64 {
        self.fresh()
    }

    fn new_real_var(&mut self) -> u64 {
        self.fresh()
    }

    fn new_string(&mut self, _value: &str) -> u64 {
        self.fresh()
    }

    fn new_string_var(&mut self) -> u64 {
        self.fresh()
    }

    fn sum(&mut self, _terms: &Vec<Slot>) -> Result<Slot, RiddleError> {
        Err(RiddleError::RuntimeError("Arithmetic is not supported".to_string()))
    }

    fn opposite(&mut self, _term: Slot) -> Result<Slot, RiddleError> {
        Err(RiddleError::RuntimeError("Arithmetic is not supported".to_string()))
    }

    fn mul(&mut self, _factors: &Vec<Slot>) -> Result<Slot, RiddleError> {
        Err(RiddleError::RuntimeError("Arithmetic is not supported".to_string()))
    }

    fn div(&mut self, _left: Slot, _right: Slot) -> Result<Slot, RiddleError> {
        Err(RiddleError::RuntimeError("Arithmetic is not supported".to_string()))
    }

    fn assert_formula(&mut self, _term: &BoolExpr) -> bool {
        true
    }

    fn new_var(&mut self, _class: TypeId, _instances: &Vec<ObjectId>) -> Result<u64, RiddleError> {
        Ok(self.fresh())
    }

    fn new_disjunction(&mut self, _disjunction: Disjunction) {}
}

impl Counter {
    fn fresh(&mut self) -> u64 {
        self.next += 1;
        self.next
    }
}

fn fresh_core() -> CommonCore<Counter> {
    CommonCore::new(Counter { next: 0 })
}

fn s(x: &str) -> String {
    x.to_string()
}

fn class_scope(core: &CommonCore<Counter>, name: &str) -> usize {
    let t = core.get_type(&s(name)).expect("The class should be registered");
    match &core.program.types[t.0] {
        Type::Class(c) => c.scope,
        _ => panic!("Expected a class"),
    }
}

#[test]
fn repeated_argument_names_give_one_field() {
    let mut core = fresh_core();
    core.read("void f(bool x, int y, int x) { }").unwrap();
    let f = &core.program.scopes[0].functions[0];
    let fields = &core.program.scopes[f.scope].fields;
    assert_eq!(fields.len(), 2);
    assert_eq!(fields[0].name, "x");
    assert_eq!(fields[0].field_type, vec![s("int")]);
    assert_eq!(fields[1].name, "y");
}

#[test]
fn repeated_field_names_keep_the_last() {
    let mut core = fresh_core();
    core.read("class A { int a; bool b; bool a; }").unwrap();
    let fields = &core.program.scopes[class_scope(&core, "A")].fields;
    assert_eq!(fields.len(), 2);
    assert_eq!(fields[0].name, "a");
    assert_eq!(fields[0].field_type, vec![s("bool")]);
    assert_eq!(fields[1].name, "b");
}

#[test]
fn tokens_read_as_rust_writes_them() {
    let tokens = vec![
        Token::Identifier(s("x")),
        Token::IntLiteral(s("42")),
        Token::RealLiteral(s("1.5")),
        Token::StringLiteral(s("a \"b\"")),
        Token::BoolLiteral(true),
        Token::BoolLiteral(false),
        Token::Semicolon,
        Token::GreaterEqual,
        Token::Eof,
    ];
    for t in &tokens {
        assert_eq!(t.debug_text(), format!("{:?}", t));
    }
    assert_eq!(Token::Identifier(s("x")).debug_text(), "Identifier(\"x\")");
    assert_eq!(Token::Semicolon.debug_text(), "Semicolon");
    assert_eq!(Token::BoolLiteral(true).debug_text(), "BoolLiteral(true)");
}

#[test]
fn lexer_errors_read_as_rust_writes_them() {
    let at = Location { line: 3, column: 14 };
    let bad = LexerError::InvalidCharacter('$', at);
    assert_eq!(bad.debug_text(), "InvalidCharacter('$', Location { line: 3, column: 14 })");
    assert_eq!(bad.debug_text(), format!("{:?}", bad));
    let open = LexerError::UnterminatedString(at);
    assert_eq!(open.debug_text(), "UnterminatedString(Location { line: 3, column: 14 })");
    assert_eq!(open.debug_text(), format!("{:?}", open));
}

#[test]
fn parent_constructors_run_before_the_fields() {
    let mut core = fresh_core();
    core.read("class A { bool f; } class B : A { int g; }").unwrap();
    let b = core.get_type(&s("B")).unwrap();
    let o = core.new_object(b);
    Constructor::call(&core.program, &mut core.state, b, 0, o, vec![], 4).expect("The constructors should succeed");
    let e = core.get_object(o).unwrap().env;
    assert!(matches!(core.state.get(e, &s("f")), Some(Slot::Primitive(Var::Formula(_)))));
    assert!(matches!(core.state.get(e, &s("g")), Some(Slot::Primitive(Var::Value { var_type: TypeId(1), .. }))));
    // The parent constructor bound the parent's fields first: A's field comes
    // before B's in the object's environment.
    let names: Vec<String> = core.state.envs[e].variables.iter().map(|(n, _)| n.clone()).collect();
    assert_eq!(names, vec![s("f"), s("g")]);
}

#[test]
fn parent_constructors_take_their_initialiser_values() {
    let mut core = fresh_core();
    core.read(
        "class A { bool f; A(bool v) { } } class B : A { B(bool w) : A(w) { } } class C : A { C(int n) : A(n) { } } class D : A { } bool z; int k;",
    )
    .unwrap();
    let b = core.get_type(&s("B")).unwrap();
    let o = core.new_object(b);
    let z = core.get(&s("z")).unwrap();
    Constructor::call(&core.program, &mut core.state, b, 0, o, vec![z], 4).expect("The constructors should succeed");
    let e = core.get_object(o).unwrap().env;
    assert!(core.state.get(e, &s("f")).is_some());
    // The initialiser's values choose the parent's constructor.
    let c = core.get_type(&s("C")).unwrap();
    let oc = core.new_object(c);
    let n = core.get(&s("k")).unwrap();
    match Constructor::call(&core.program, &mut core.state, c, 0, oc, vec![n], 4) {
        Err(RiddleError::NotFound(m)) => assert_eq!(m, "Constructor for parent class 'A' with specified argument types"),
        _ => panic!("Expected a missing constructor"),
    }
    // Without an initialiser, the parent's constructor without arguments.
    let d = core.get_type(&s("D")).unwrap();
    let od = core.new_object(d);
    match Constructor::call(&core.program, &mut core.state, d, 0, od, vec![], 4) {
        Err(RiddleError::NotFound(m)) => assert_eq!(m, "No-arg constructor for parent class 'A'"),
        _ => panic!("Expected a missing constructor"),
    }
    // Without a deep enough bound the parent's constructor does not run.
    let other = core.new_object(b);
    assert!(matches!(
        Constructor::call(&core.program, &mut core.state, b, 0, other, vec![z], 0),
        Err(RiddleError::RuntimeError(_))
    ));
}

#[test]
fn constructor_early_errors_are_exact() {
    let mut core = fresh_core();
    core.read("class Q { Q(bool v) { } }").unwrap();
    let q = core.get_type(&s("Q")).unwrap();
    let o = core.new_object(q);
    match Constructor::call(&core.program, &mut core.state, q, 0, o, vec![], 4) {
        Err(RiddleError::RuntimeError(m)) => assert_eq!(m, "Expected 1 arguments, got 0"),
        _ => panic!("Expected a runtime error"),
    }
    let n = Slot::Primitive(Var::Value { var_type: TypeId(1), handle: 5 });
    match Constructor::call(&core.program, &mut core.state, q, 0, ObjectId(9), vec![n], 4) {
        Err(RiddleError::NotFound(m)) => assert_eq!(m, "Object with ID 9 not found"),
        _ => panic!("Expected a missing object"),
    }
    let before = core.state.envs[core.get_object(o).unwrap().env].variables.len();
    match Constructor::call(&core.program, &mut core.state, q, 0, o, vec![n], 4) {
        Err(RiddleError::TypeError(m)) => assert_eq!(m, "Argument 'v' expected to be of type 'bool', got 'int'"),
        _ => panic!("Expected a type error"),
    }
    assert_eq!(core.state.envs[core.get_object(o).unwrap().env].variables.len(), before);
}

#[test]
fn return_values_are_checked() {
    let mut core = fresh_core();
    core.read("class R { } R g() { } R h(bool b) { __return = b; } R k(R r) { __return = r; } bool z;").unwrap();
    match Function::call(&core.program, &mut core.state, 0, 0, 0, vec![]) {
        Err(RiddleError::RuntimeError(m)) => assert_eq!(m, "Function did not set return value"),
        _ => panic!("Expected a runtime error"),
    }
    let z = core.get(&s("z")).unwrap();
    match Function::call(&core.program, &mut core.state, 0, 1, 0, vec![z]) {
        Err(RiddleError::TypeError(m)) => assert_eq!(m, "Return value expected to be of type 'R', got 'bool'"),
        _ => panic!("Expected a type error"),
    }
    let r = core.get_type(&s("R")).unwrap();
    let o = Slot::ObjectRef(core.new_object(r));
    assert_eq!(Function::call(&core.program, &mut core.state, 0, 2, 0, vec![o]).unwrap(), Some(o));
    // The caller's environment gets no binding of the arguments.
    assert!(core.get(&s("r")).is_none());
    assert!(core.get(&s("b")).is_none());
}

#[test]
fn assignments_evaluate_before_checking_the_path() {
    let mut core = fresh_core();
    let empty = Statement::Assign { name: vec![], value: Expr::Bool(true) };
    match execute(&core.program, &mut core.state, 0, 0, &empty) {
        Err(RiddleError::RuntimeError(m)) => assert_eq!(m, "Empty assignment path"),
        _ => panic!("Expected a runtime error"),
    }
    let failing = Statement::Assign { name: vec![], value: Expr::QualifiedId { ids: vec![s("nowhere")] } };
    assert!(matches!(execute(&core.program, &mut core.state, 0, 0, &failing), Err(RiddleError::NotFound(_))));
    core.read("bool a, b; a = b;").unwrap();
    assert_eq!(core.get(&s("a")), core.get(&s("b")));
    assert!(core.get(&s("c")).is_none());
    match core.read("a.x = b;") {
        Err(RiddleError::NotAnEnvironment(m)) => {
            assert_eq!(m, "Variable 'a' in assignment path is a primitive variable, cannot assign to 'x'")
        },
        _ => panic!("Expected an error for a path through a primitive value"),
    }
}

#[test]
fn type_paths_name_what_is_missing() {
    let mut core = fresh_core();
    core.read("class A { class B { } }").unwrap();
    match get_type_by_path(&core.program, 0, &vec![]) {
        Err(RiddleError::RuntimeError(m)) => assert_eq!(m, "Empty type path"),
        _ => panic!("Expected a runtime error"),
    }
    match get_type_by_path(&core.program, 0, &vec![s("Zz")]) {
        Err(RiddleError::NotFound(m)) => assert_eq!(m, "Zz"),
        _ => panic!("Expected a missing type"),
    }
    match get_type_by_path(&core.program, 0, &vec![s("bool"), s("x")]) {
        Err(RiddleError::NotAClass(m)) => assert_eq!(m, "bool"),
        _ => panic!("Expected a type that is not a class"),
    }
    match get_type_by_path(&core.program, 0, &vec![s("A"), s("Q")]) {
        Err(RiddleError::NotFound(m)) => assert_eq!(m, "Class 'Q' in path"),
        _ => panic!("Expected a missing class"),
    }
    assert!(get_type_by_path(&core.program, 0, &vec![s("A"), s("B")]).is_ok());
}

#[test]
fn arithmetic_over_references_names_them() {
    let core = fresh_core();
    match arith_class(&core.program, &vec![Slot::ObjectRef(ObjectId(3))]) {
        Err(RiddleError::TypeError(m)) => assert_eq!(m, "Expected numeric type, got object reference to object with ID 3"),
        _ => panic!("Expected a type error"),
    }
    match arith_class(&core.program, &vec![Slot::AtomRef(riddle::env::AtomId(2))]) {
        Err(RiddleError::TypeError(m)) => assert_eq!(m, "Expected numeric type, got atom reference to atom with ID 2"),
        _ => panic!("Expected a type error"),
    }
}

#[test]
fn nested_classes_resolve_through_their_class() {
    let mut core = fresh_core();
    core.read("class Outer { class Inner { } predicate Holds() { } }").unwrap();
    let outer = class_scope(&core, "Outer");
    let inner = core.program.get_type(outer, &s("Inner")).expect("Inner should resolve through Outer");
    assert!(matches!(core.program.types[inner.0], Type::Class(_)));
    assert!(core.program.get_type(0, &s("Inner")).is_none());
    match &core.program.types[inner.0] {
        Type::Class(c) => assert_eq!(core.program.scopes[c.scope].parent, Some(outer)),
        _ => panic!("Expected a class"),
    }
}

#[test]
fn path_lookups_name_what_failed() {
    let mut core = fresh_core();
    core.read("class A { bool f; }").unwrap();
    let a = core.get_type(&s("A")).unwrap();
    new_instance(&core.program, &mut core.state, a).unwrap();
    core.read("A a; bool b;").unwrap();
    match core.read("a.g = b;") {
        Ok(()) => {},
        Err(e) => panic!("Assigning a new name in an object should succeed: {:?}", e),
    }
    match core.read("a.h.k = b;") {
        Err(RiddleError::NotFound(m)) => assert_eq!(m, "Variable 'h' in path not found in object obj-0"),
        other => panic!("Expected a missing name, got {:?}", other),
    }
    match core.read("b.h.k = b;") {
        Err(RiddleError::NotAnEnvironment(m)) => assert_eq!(m, "Variable 'b' in path does not have an environment"),
        other => panic!("Expected a path through a primitive value, got {:?}", other),
    }
}

#[test]
fn failed_evaluations_give_their_own_errors() {
    let mut core = fresh_core();
    core.read("bool a; real r;").unwrap();
    match core.read("zz;") {
        Err(RiddleError::NotFound(m)) => assert_eq!(m, "zz"),
        other => panic!("Expected a missing name, got {:?}", other),
    }
    match core.read("a & zz;") {
        Err(RiddleError::NotFound(m)) => assert_eq!(m, "zz"),
        other => panic!("Expected a missing name, got {:?}", other),
    }
    match core.read("!r;") {
        Err(RiddleError::TypeError(m)) => assert_eq!(m, "Expected a boolean expression"),
        other => panic!("Expected a type error, got {:?}", other),
    }
    match core.read("a = zz;") {
        Err(RiddleError::NotFound(m)) => assert_eq!(m, "zz"),
        other => panic!("Expected a missing name, got {:?}", other),
    }
}

#[test]
fn local_fields_take_their_evaluated_defaults() {
    let mut core = fresh_core();
    core.read("bool a; bool b = a;").unwrap();
    assert_eq!(core.get(&s("b")), core.get(&s("a")));
    match core.read("bool flag; int n = flag;") {
        Err(RiddleError::TypeError(m)) => assert_eq!(m, "Default value for field 'n' is not assignable to the field type"),
        other => panic!("Expected a type error, got {:?}", other),
    }
    match core.read("bool c = nowhere;") {
        Err(RiddleError::NotFound(m)) => assert_eq!(m, "nowhere"),
        other => panic!("Expected a missing name, got {:?}", other),
    }
}

#[test]
fn class_fields_take_their_evaluated_defaults() {
    let mut core = fresh_core();
    core.read("class P { bool x; bool y = x; } class W { int n; bool y = n; } class Q { Q() { zz; } }").unwrap();
    let p = core.get_type(&s("P")).unwrap();
    let o = core.new_object(p);
    Constructor::call(&core.program, &mut core.state, p, 0, o, vec![], 4).expect("The constructor should succeed");
    let e = core.get_object(o).unwrap().env;
    assert!(core.state.get(e, &s("x")).is_some());
    assert_eq!(core.state.get(e, &s("y")), core.state.get(e, &s("x")));
    let w = core.get_type(&s("W")).unwrap();
    let ow = core.new_object(w);
    match Constructor::call(&core.program, &mut core.state, w, 0, ow, vec![], 4) {
        Err(RiddleError::TypeError(m)) => assert_eq!(m, "Field 'y' has the wrong type"),
        other => panic!("Expected a type error, got {:?}", other),
    }
    let q = core.get_type(&s("Q")).unwrap();
    let oq = core.new_object(q);
    match Constructor::call(&core.program, &mut core.state, q, 0, oq, vec![], 4) {
        Err(RiddleError::NotFound(m)) => assert_eq!(m, "zz"),
        other => panic!("Expected the body's error, got {:?}", other),
    }
}

#[test]
fn type_paths_name_the_first_missing_part() {
    let mut core = fresh_core();
    core.read("class A { class B { } }").unwrap();
    match get_type_by_path(&core.program, 0, &vec![s("A"), s("B"), s("C"), s("D")]) {
        Err(RiddleError::NotFound(m)) => assert_eq!(m, "Class 'C' in path"),
        other => panic!("Expected a missing class, got {:?}", other),
    }
}

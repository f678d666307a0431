use riddle::env::{AtomId, BoolExpr, ObjectId, Slot, TypeId, Var};
use riddle::execution::CommonCore;
use riddle::language::{Disjunction, Expr, Statement};
use riddle::runtime::{CallHistory, Core, get_type_by_path};
use riddle::scope::{Constructor, Type};
use riddle::RiddleError;

struct Solver {
    next: u64,
}

impl Core for Solver {
    fn calls(&self) -> CallHistory {
        unreachable!("a solver\'s history is a value of the specification only")
    }

    fn new_int(&mut self, _value: i64) -> u64 {
        self.next += 1;
        self.next
    }

    fn new_real(&mut self, _num: i64, _den: i64) -> u64 {
        self.next += 1;
        self.next
    }

    fn new_string(&mut self, _value: &str) -> u64 {
        self.next += 1;
        self.next
    }

    fn sum(&mut self, _terms: &Vec<Slot>) -> Result<Slot, RiddleError> {
        Err(RiddleError::RuntimeError("Arithmetic is not supported".to_string()))
    }

    fn opposite(&mut self, _term: Slot) -> Result<Slot, RiddleError> {
        Err(RiddleError::RuntimeError("Arithmetic is not supported".to_string()))
    }

    fn mul(&mut self, _factors: &Vec<Slot>) -> Result<Slot, RiddleError> {
        Err(RiddleError::RuntimeError("Arithmetic is not supported".to_string()))
    }

    fn div(&mut self, _left: Slot, _right: Slot) -> Result<Slot, RiddleError> {
        Err(RiddleError::RuntimeError("Arithmetic is not supported".to_string()))
    }

    fn new_disjunction(&mut self, _disjunction: Disjunction) {}

    fn new_bool(&mut self, _value: bool) -> u64 {
        self.next += 1;
        self.next
    }

    fn new_bool_var(&mut self) -> u64 {
        self.next += 1;
        self.next
    }

    fn new_int_var(&mut self) -> u64 {
        self.next += 1;
        self.next
    }

    fn new_real_var(&mut self) -> u64 {
        self.next += 1;
        self.next
    }

    fn new_string_var(&mut self) -> u64 {
        self.next += 1;
        self.next
    }

    fn assert_formula(&mut self, _term: &BoolExpr) -> bool {
        true
    }

    fn new_var(&mut self, _class: TypeId, _instances: &Vec<ObjectId>) -> Result<u64, RiddleError> {
        self.next += 1;
        Ok(self.next)
    }
}

fn s(x: &str) -> String {
    x.to_owned()
}

fn id(x: &str) -> Expr {
    Expr::QualifiedId { ids: vec![s(x)] }
}

fn num(x: &str) -> Expr {
    Expr::Int(s(x))
}

fn bx(e: Expr) -> Box<Expr> {
    Box::new(e)
}

#[test]
fn literals_as_text() {
    assert_eq!(Expr::Bool(true).to_string(), "true");
    assert_eq!(Expr::Bool(false).to_string(), "false");
    assert_eq!(num("42").to_string(), "42");
    assert_eq!(Expr::Real(s("12"), s("34")).to_string(), "12/34");
    assert_eq!(Expr::String(s("hi")).to_string(), "\"hi\"");
    assert_eq!(Expr::QualifiedId { ids: vec![s("a"), s("b")] }.to_string(), "a.b");
}

#[test]
fn operations_as_text() {
    let sum = Expr::Sum { terms: vec![num("1"), Expr::Opposite { term: bx(num("2")) }] };
    assert_eq!(sum.to_string(), "(1 + -(2))");
    assert_eq!(Expr::Not { term: bx(Expr::Bool(false)) }.to_string(), "!(false)");
    assert_eq!(Expr::Mul { factors: vec![id("a"), id("b")] }.to_string(), "(a * b)");
    assert_eq!(Expr::Div { left: bx(id("a")), right: bx(id("b")) }.to_string(), "(a / b)");
    let call = Expr::Function { name: vec![s("Math"), s("max")], args: vec![num("1"), num("2")] };
    assert_eq!(call.to_string(), "Math.max(1, 2)");
    assert_eq!(Expr::Function { name: vec![s("f")], args: vec![] }.to_string(), "f()");
    assert_eq!(Expr::Eq { left: bx(id("a")), right: bx(id("b")) }.to_string(), "(a == b)");
    assert_eq!(Expr::Neq { left: bx(id("a")), right: bx(id("b")) }.to_string(), "(a != b)");
    assert_eq!(Expr::Lt { left: bx(id("a")), right: bx(id("b")) }.to_string(), "(a < b)");
    assert_eq!(Expr::Leq { left: bx(id("a")), right: bx(id("b")) }.to_string(), "(a <= b)");
    assert_eq!(Expr::Gt { left: bx(id("a")), right: bx(id("b")) }.to_string(), "(a > b)");
    assert_eq!(Expr::Geq { left: bx(id("a")), right: bx(id("b")) }.to_string(), "(a >= b)");
    assert_eq!(Expr::Or { terms: vec![id("a"), id("b"), id("c")] }.to_string(), "(a || b || c)");
    assert_eq!(Expr::And { terms: vec![id("a"), id("b")] }.to_string(), "(a && b)");
    assert_eq!(Expr::NewObject { class_name: vec![s("P")], args: vec![] }.to_string(), "new P()");
    let nested = Expr::And {
        terms: vec![
            Expr::Geq { left: bx(Expr::Sum { terms: vec![id("x"), num("3")] }), right: bx(num("10")) },
            Expr::Not { term: bx(id("y")) },
        ],
    };
    assert_eq!(nested.to_string(), "(((x + 3) >= 10) && !(y))");
}

#[test]
fn statements_as_text() {
    assert_eq!(Statement::Expr(id("a")).to_string(), "a;");
    let fields = Statement::LocalField { field_type: vec![s("int")], fields: vec![(s("x"), None), (s("y"), Some(num("1")))] };
    assert_eq!(fields.to_string(), "int x, y = 1;");
    let assign = Statement::Assign { name: vec![s("p"), s("x")], value: num("3") };
    assert_eq!(assign.to_string(), "p.x = 3;");
    let for_all = Statement::ForAll {
        var_type: vec![s("Point")],
        var_name: s("i"),
        statements: vec![Statement::Expr(Expr::Eq { left: bx(id("x")), right: bx(id("i")) })],
    };
    assert_eq!(for_all.to_string(), "for Point i {\n    (x == i);\n}");
    let disjunction = Statement::Disjunction {
        disjuncts: vec![(vec![Statement::Expr(id("a"))], num("1")), (vec![Statement::Expr(id("b"))], num("2"))],
    };
    assert_eq!(disjunction.to_string(), "{\n    {\n        a;\n    }: 1 or     {\n        b;\n    }: 2\n}");
    let fact = Statement::Formula {
        is_fact: true,
        name: s("isEven"),
        tau: vec![],
        predicate_name: s("Even"),
        args: vec![(s("x"), num("2"))],
    };
    assert_eq!(fact.to_string(), "fact isEven = new Even(x: 2);");
    let goal = Statement::Formula {
        is_fact: false,
        name: s("f"),
        tau: vec![s("a"), s("b")],
        predicate_name: s("P"),
        args: vec![],
    };
    assert_eq!(goal.to_string(), "formula f = new a.b.P();");
    assert_eq!(Statement::Return { value: num("1") }.to_string(), "return 1;");
}

#[test]
fn errors_as_text() {
    assert_eq!(RiddleError::NotAnEnvironment(s("x")).to_string(), "Variable 'x' is not an environment");
    assert_eq!(RiddleError::NotAClass(s("T")).to_string(), "Type 'T' is not a class");
    assert_eq!(RiddleError::NotAPredicate(s("P")).to_string(), "Predicate 'P' not found");
    assert_eq!(RiddleError::TypeError(s("bad")).to_string(), "Type error: bad");
    assert_eq!(RiddleError::NotFound(s("n")).to_string(), "'n' not found");
    assert_eq!(RiddleError::InconsistencyError(s("no")).to_string(), "Inconsistency error: no");
    assert_eq!(RiddleError::RuntimeError(s("oops")).to_string(), "Runtime error: oops");
}

#[test]
fn ids_as_text() {
    assert_eq!(ObjectId(0).to_string(), "obj-0");
    assert_eq!(ObjectId(1234).to_string(), "obj-1234");
    assert_eq!(AtomId(7).to_string(), "atm-7");
    assert_eq!(AtomId(90).to_string(), "atm-90");
}

#[test]
fn slots_as_text() {
    let core = CommonCore::new(Solver { next: 0 });
    assert_eq!(Slot::Primitive(Var::Formula(0)).to_string(&core.program), "bool");
    assert_eq!(Slot::Primitive(Var::Value { var_type: TypeId(1), handle: 5 }).to_string(&core.program), "int");
    assert_eq!(Slot::Primitive(Var::Value { var_type: TypeId(3), handle: 5 }).to_string(&core.program), "string");
    assert_eq!(Slot::ObjectRef(ObjectId(3)).to_string(&core.program), "Object(obj-3)");
    assert_eq!(Slot::AtomRef(AtomId(10)).to_string(&core.program), "Atom(atm-10)");
}

#[test]
fn constructors_as_text() {
    let mut core = CommonCore::new(Solver { next: 0 });
    core.read("class Point { int x; Point(int a, real b) { } }").expect("Failed to read class");
    let t = core.get_type(&s("Point")).expect("Point should be registered");
    let text = match &core.program.types[t.0] {
        Type::Class(c) => c.constructors[0].to_string(&core.program),
        _ => panic!("Point should be a class"),
    };
    assert_eq!(text, "Point(int a, real b)");
    core.read("class Outer { class Inner { Inner(int x) { } } }").expect("Failed to read nested classes");
    let inner = get_type_by_path(&core.program, 0, &vec![s("Outer"), s("Inner")]).expect("Inner should be found");
    let text = match &core.program.types[inner.0] {
        Type::Class(c) => c.constructors[0].to_string(&core.program),
        _ => panic!("Inner should be a class"),
    };
    assert_eq!(text, "Outer.Inner(int x)");
    let loose = Constructor { scope: 999, args: vec![(vec![s("A"), s("B")], s("a"))], init: vec![], statements: vec![] };
    assert_eq!(loose.to_string(&core.program), "<unknown class>(A.B a)");
}

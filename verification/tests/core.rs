use riddle::env::{BoolExpr, ObjectId, Slot, TypeId, Var, to_cnf};
use riddle::execution::CommonCore;
use riddle::language::Disjunction;
use riddle::runtime::{CallHistory, Core};
use riddle::RiddleError;

/// A solver that hands out fresh handles and accepts every constraint.
struct TestSolver {
    next: u64,
    asserted: Vec<usize>,
}

impl TestSolver {
    fn new() -> Self {
        TestSolver { next: 0, asserted: Vec::new() }
    }

    fn fresh(&mut self) -> u64 {
        self.next += 1;
        self.next
    }
}

fn clause_count(e: &BoolExpr) -> usize {
    match e {
        BoolExpr::And { terms } => terms.len(),
        _ => 1,
    }
}

impl Core for TestSolver {
    fn calls(&self) -> CallHistory {
        unreachable!("a solver\'s history is a value of the specification only")
    }

    fn new_int(&mut self, _value: i64) -> u64 {
        self.fresh()
    }

    fn new_real(&mut self, _num: i64, _den: i64) -> u64 {
        self.fresh()
    }

    fn new_string(&mut self, _value: &str) -> u64 {
        self.fresh()
    }

    fn sum(&mut self, _terms: &Vec<Slot>) -> Result<Slot, RiddleError> {
        Err(RiddleError::RuntimeError("Arithmetic is not supported".to_string()))
    }

    fn opposite(&mut self, _term: Slot) -> Result<Slot, RiddleError> {
        Err(RiddleError::RuntimeError("Arithmetic is not supported".to_string()))
    }

    fn mul(&mut self, _factors: &Vec<Slot>) -> Result<Slot, RiddleError> {
        Err(RiddleError::RuntimeError("Arithmetic is not supported".to_string()))
    }

    fn div(&mut self, _left: Slot, _right: Slot) -> Result<Slot, RiddleError> {
        Err(RiddleError::RuntimeError("Arithmetic is not supported".to_string()))
    }

    fn new_disjunction(&mut self, _disjunction: Disjunction) {}

    fn new_bool(&mut self, _value: bool) -> u64 {
        self.fresh()
    }

    fn new_bool_var(&mut self) -> u64 {
        self.fresh()
    }

    fn new_int_var(&mut self) -> u64 {
        self.fresh()
    }

    fn new_real_var(&mut self) -> u64 {
        self.fresh()
    }

    fn new_string_var(&mut self) -> u64 {
        self.fresh()
    }

    fn assert_formula(&mut self, term: &BoolExpr) -> bool {
        self.asserted.push(clause_count(term));
        true
    }

    fn new_var(&mut self, _class: TypeId, instances: &Vec<ObjectId>) -> Result<u64, RiddleError> {
        if instances.is_empty() {
            return Err(RiddleError::InconsistencyError("Cannot create variable with no instances".to_string()));
        }
        Ok(self.fresh())
    }
}

fn term(solver: &mut TestSolver) -> BoolExpr {
    BoolExpr::Term { term: Slot::Primitive(Var::Value { var_type: TypeId(0), handle: solver.new_bool_var() }) }
}

#[test]
fn create_core() {
    let core = CommonCore::new(TestSolver::new());
    assert!(core.get_type(&"bool".to_string()).is_some());
    assert!(core.get_type(&"int".to_string()).is_some());
    assert!(core.get_type(&"real".to_string()).is_some());
    assert!(core.get_type(&"string".to_string()).is_some());
}

#[test]
fn read_problem() {
    let mut core = CommonCore::new(TestSolver::new());
    core.read("bool a, b, c; (a & b) | c;").expect("Failed to read problem with boolean variables and expression");
}

#[test]
fn test_cnf_distribution() {
    let mut solver = TestSolver::new();
    let v1 = term(&mut solver);
    let v2 = term(&mut solver);
    let v3 = term(&mut solver);

    // v2_and_v3 = (v2 AND v3)
    let v2_and_v3 = BoolExpr::And { terms: vec![v2, v3] };

    // expr = v1 OR (v2 AND v3)
    let expr = BoolExpr::Or { terms: vec![v1, v2_and_v3] };

    // The CNF of (v1 OR (v2 AND v3)) should be ((v1 OR v2) AND (v1 OR v3))
    let cnf = to_cnf(expr);

    if let BoolExpr::And { terms } = &cnf {
        assert_eq!(terms.len(), 2, "CNF should have two clauses");

        for clause in terms {
            assert!(matches!(clause, BoolExpr::Or { .. }), "Each clause in CNF should be an OR expression");
        }
    } else {
        panic!("CNF should be an AND expression");
    }
}

#[test]
fn test_cnf_with_negation() {
    let mut solver = TestSolver::new();
    let v1 = term(&mut solver);
    let v2 = term(&mut solver);
    let v3 = term(&mut solver);

    // (v2 OR v3)
    let v2_or_v3 = BoolExpr::Or { terms: vec![v2, v3] };
    // (v1 AND (v2 OR v3))
    let inner_and = BoolExpr::And { terms: vec![v1, v2_or_v3] };
    // NOT (v1 AND (v2 OR v3))
    let expr = BoolExpr::Not { term: Box::new(inner_and) };

    // The CNF of NOT (v1 AND (v2 OR v3)) should be (NOT v1 OR NOT v2) AND (NOT v1 OR NOT v3)
    let cnf = to_cnf(expr);

    assert!(matches!(cnf, BoolExpr::And { .. }));
    if let BoolExpr::And { terms } = &cnf {
        assert_eq!(terms.len(), 2);
        for clause in terms {
            assert!(matches!(clause, BoolExpr::Or { .. }));
        }
    }
}

#[test]
fn test_cnf_flattening() {
    let mut solver = TestSolver::new();
    let v1 = term(&mut solver);
    let v2 = term(&mut solver);
    let v3 = term(&mut solver);

    // nested = (v2 AND v3)
    let nested = BoolExpr::And { terms: vec![v2, v3] };
    // expr = v1 AND (v2 AND v3)
    let expr = BoolExpr::And { terms: vec![v1, nested] };

    // The CNF of (v1 AND (v2 AND v3)) should be (v1 AND v2 AND v3) after flattening
    let cnf = to_cnf(expr);

    if let BoolExpr::And { terms } = &cnf {
        assert_eq!(terms.len(), 3, "CNF should have three clauses after flattening");
    } else {
        panic!("CNF should be an AND expression");
    }
}

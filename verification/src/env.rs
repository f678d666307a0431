//! Values and environments of a running problem, and boolean formulas with
//! their conversion to conjunctive normal form.
use crate::language::Name;
use crate::scope::{bound, find_bound};
use vstd::prelude::*;

verus! {

/// The index of an object in the core.
#[derive(Clone, Copy, PartialEq, Eq, Structural, Debug)]
pub struct ObjectId(pub usize);

/// The index of an atom in the core.
#[derive(Clone, Copy, PartialEq, Eq, Structural, Debug)]
pub struct AtomId(pub usize);

/// The index of a type in the core.
#[derive(Clone, Copy, PartialEq, Eq, Structural, Debug)]
pub struct TypeId(pub usize);

/// A primitive value: a boolean formula that the core keeps (by its index), or
/// a value that the solver made, of the given type.
#[derive(Clone, Copy, PartialEq, Eq, Structural, Debug)]
pub enum Var {
    Formula(usize),
    Value { var_type: TypeId, handle: u64 },
}

/// What a name stands for: a primitive value, an object or an atom.
#[derive(Clone, Copy, PartialEq, Eq, Structural, Debug)]
pub enum Slot {
    Primitive(Var),
    ObjectRef(ObjectId),
    AtomRef(AtomId),
}

/// A boolean expression over slots.
#[derive(Debug)]
pub enum BoolExpr {
    Term { term: Slot },
    Not { term: Box<BoolExpr> },
    Eq { left: Slot, right: Slot },
    Lt { left: Slot, right: Slot },
    Leq { left: Slot, right: Slot },
    Or { terms: Vec<BoolExpr> },
    And { terms: Vec<BoolExpr> },
}

/// The mathematical model of a boolean expression.
pub enum Formula {
    Term(Slot),
    Not(Box<Formula>),
    Eq(Slot, Slot),
    Lt(Slot, Slot),
    Leq(Slot, Slot),
    Or(Seq<Formula>),
    And(Seq<Formula>),
}

pub open spec fn bool_view(e: BoolExpr) -> Formula
    decreases e,
{
    match e {
        BoolExpr::Term { term } => Formula::Term(term),
        BoolExpr::Not { term } => Formula::Not(Box::new(bool_view(*term))),
        BoolExpr::Eq { left, right } => Formula::Eq(left, right),
        BoolExpr::Lt { left, right } => Formula::Lt(left, right),
        BoolExpr::Leq { left, right } => Formula::Leq(left, right),
        BoolExpr::Or { terms } => Formula::Or(bools_view(terms@)),
        BoolExpr::And { terms } => Formula::And(bools_view(terms@)),
    }
}

pub open spec fn bools_view(s: Seq<BoolExpr>) -> Seq<Formula>
    decreases s,
{
    Seq::new(
        s.len(),
        |i: int|
            if 0 <= i < s.len() {
                bool_view(s[i])
            } else {
                Formula::Or(seq![])
            },
    )
}

impl View for BoolExpr {
    type V = Formula;

    open spec fn view(&self) -> Formula {
        bool_view(*self)
    }
}

// ---------------------------------------------------------------------------
// Meaning of a formula.
// ---------------------------------------------------------------------------

/// An interpretation of the atoms of formulas: a truth value for each term,
/// and a number for each slot that a comparison compares.
pub struct Interpretation {
    pub truth: spec_fn(Slot) -> bool,
    pub value: spec_fn(Slot) -> int,
}

pub open spec fn holds(f: Formula, i: Interpretation) -> bool
    decreases f,
{
    match f {
        Formula::Term(t) => (i.truth)(t),
        Formula::Not(g) => !holds(*g, i),
        Formula::Eq(l, r) => (i.value)(l) == (i.value)(r),
        Formula::Lt(l, r) => (i.value)(l) < (i.value)(r),
        Formula::Leq(l, r) => (i.value)(l) <= (i.value)(r),
        Formula::Or(ts) => some_hold(ts, i),
        Formula::And(ts) => every_hold(ts, i),
    }
}

/// Whether one of the formulas holds.
pub open spec fn some_hold(s: Seq<Formula>, i: Interpretation) -> bool
    decreases s,
{
    if s.len() == 0 {
        false
    } else {
        some_hold(s.subrange(0, s.len() - 1), i) || holds(s[s.len() - 1], i)
    }
}

/// Whether all the formulas hold.
pub open spec fn every_hold(s: Seq<Formula>, i: Interpretation) -> bool
    decreases s,
{
    if s.len() == 0 {
        true
    } else {
        every_hold(s.subrange(0, s.len() - 1), i) && holds(s[s.len() - 1], i)
    }
}

pub open spec fn any_holds(s: Seq<Formula>, i: Interpretation) -> bool {
    exists|k: int| 0 <= k < s.len() && #[trigger] holds(s[k], i)
}

pub open spec fn all_hold(s: Seq<Formula>, i: Interpretation) -> bool {
    forall|k: int| 0 <= k < s.len() ==> #[trigger] holds(s[k], i)
}

proof fn lemma_some_every(s: Seq<Formula>, i: Interpretation)
    ensures
        some_hold(s, i) == any_holds(s, i),
        every_hold(s, i) == all_hold(s, i),
    decreases s.len(),
{
    if s.len() > 0 {
        let init = s.subrange(0, s.len() - 1);
        lemma_some_every(init, i);
        assert(some_hold(s, i) == (some_hold(init, i) || holds(s[s.len() - 1], i)));
        assert(every_hold(s, i) == (every_hold(init, i) && holds(s[s.len() - 1], i)));
        if holds(s[s.len() - 1], i) {
            assert(any_holds(s, i));
        }
        if any_holds(s, i) && !holds(s[s.len() - 1], i) {
            let k = choose|k: int| 0 <= k < s.len() && #[trigger] holds(s[k], i);
            assert(holds(init[k], i));
        }
        if any_holds(init, i) {
            let k = choose|k: int| 0 <= k < init.len() && #[trigger] holds(init[k], i);
            assert(holds(s[k], i));
        }
        if all_hold(init, i) && holds(s[s.len() - 1], i) {
            assert forall|k: int| 0 <= k < s.len() implies #[trigger] holds(s[k], i) by {
                if k < s.len() - 1 {
                    assert(holds(init[k], i));
                }
            }
        }
        if all_hold(s, i) {
            assert forall|k: int| 0 <= k < init.len() implies #[trigger] holds(init[k], i) by {
                assert(holds(s[k], i));
            }
        }
    }
}

/// A disjunction holds when one of its terms holds.
pub proof fn lemma_holds_or(ts: Seq<Formula>, i: Interpretation)
    ensures
        holds(Formula::Or(ts), i) == any_holds(ts, i),
{
    lemma_some_every(ts, i);
}

/// A conjunction holds when all its terms hold.
pub proof fn lemma_holds_and(ts: Seq<Formula>, i: Interpretation)
    ensures
        holds(Formula::And(ts), i) == all_hold(ts, i),
{
    lemma_some_every(ts, i);
}

// ---------------------------------------------------------------------------
// Shapes.
// ---------------------------------------------------------------------------

/// A comparison, a term, or the negation of a term or of an equality.
pub open spec fn is_literal(f: Formula) -> bool {
    match f {
        Formula::Term(_) | Formula::Eq(_, _) | Formula::Lt(_, _) | Formula::Leq(_, _) => true,
        Formula::Not(g) => (*g is Term) || (*g is Eq),
        _ => false,
    }
}

/// Negation normal form: negations stand only on terms and equalities.
pub open spec fn is_nnf(f: Formula) -> bool
    decreases f,
{
    match f {
        Formula::Not(g) => (*g is Term) || (*g is Eq),
        Formula::Or(ts) => all_nnf(ts),
        Formula::And(ts) => all_nnf(ts),
        _ => true,
    }
}

pub open spec fn all_nnf(s: Seq<Formula>) -> bool
    decreases s,
{
    if s.len() == 0 {
        true
    } else {
        all_nnf(s.subrange(0, s.len() - 1)) && is_nnf(s[s.len() - 1])
    }
}

/// A clause: a literal, or a disjunction of clauses.
pub open spec fn is_clause(f: Formula) -> bool
    decreases f,
{
    match f {
        Formula::Or(ts) => all_clauses(ts),
        _ => is_literal(f),
    }
}

pub open spec fn all_clauses(s: Seq<Formula>) -> bool
    decreases s,
{
    if s.len() == 0 {
        true
    } else {
        all_clauses(s.subrange(0, s.len() - 1)) && is_clause(s[s.len() - 1])
    }
}

/// Conjunctive normal form: a clause, or a conjunction of clauses.
pub open spec fn is_cnf(f: Formula) -> bool {
    match f {
        Formula::And(ts) => all_clauses(ts),
        _ => is_clause(f),
    }
}

proof fn lemma_all_shapes(s: Seq<Formula>)
    ensures
        all_nnf(s) == (forall|k: int| 0 <= k < s.len() ==> #[trigger] is_nnf(s[k])),
        all_clauses(s) == (forall|k: int| 0 <= k < s.len() ==> #[trigger] is_clause(s[k])),
    decreases s.len(),
{
    if s.len() > 0 {
        let init = s.subrange(0, s.len() - 1);
        lemma_all_shapes(init);
        assert(all_nnf(s) == (all_nnf(init) && is_nnf(s[s.len() - 1])));
        assert(all_clauses(s) == (all_clauses(init) && is_clause(s[s.len() - 1])));
        if forall|k: int| 0 <= k < s.len() ==> #[trigger] is_nnf(s[k]) {
            assert forall|k: int| 0 <= k < init.len() implies #[trigger] is_nnf(init[k]) by {
                assert(is_nnf(s[k]));
            }
        }
        if all_nnf(init) && is_nnf(s[s.len() - 1]) {
            assert forall|k: int| 0 <= k < s.len() implies #[trigger] is_nnf(s[k]) by {
                if k < s.len() - 1 {
                    assert(is_nnf(init[k]));
                }
            }
        }
        if forall|k: int| 0 <= k < s.len() ==> #[trigger] is_clause(s[k]) {
            assert forall|k: int| 0 <= k < init.len() implies #[trigger] is_clause(init[k]) by {
                assert(is_clause(s[k]));
            }
        }
        if all_clauses(init) && is_clause(s[s.len() - 1]) {
            assert forall|k: int| 0 <= k < s.len() implies #[trigger] is_clause(s[k]) by {
                if k < s.len() - 1 {
                    assert(is_clause(init[k]));
                }
            }
        }
    }
}

// ---------------------------------------------------------------------------
// The conversion.
// ---------------------------------------------------------------------------

/// The formula with its negations pushed down to the terms and equalities.
pub open spec fn negations_pushed(f: Formula) -> Formula
    decreases f,
{
    match f {
        Formula::Not(g) => inverted(*g),
        Formula::And(ts) => Formula::And(
            Seq::new(
                ts.len(),
                |k: int|
                    if 0 <= k < ts.len() {
                        negations_pushed(ts[k])
                    } else {
                        Formula::Or(seq![])
                    },
            ),
        ),
        Formula::Or(ts) => Formula::Or(
            Seq::new(
                ts.len(),
                |k: int|
                    if 0 <= k < ts.len() {
                        negations_pushed(ts[k])
                    } else {
                        Formula::Or(seq![])
                    },
            ),
        ),
        _ => f,
    }
}

/// The negation of the formula, with negations pushed down (De Morgan's laws,
/// double negation, and `!(a <= b)` as `b < a`, `!(a < b)` as `b <= a`).
pub open spec fn inverted(f: Formula) -> Formula
    decreases f,
{
    match f {
        Formula::Not(g) => negations_pushed(*g),
        Formula::And(ts) => Formula::Or(
            Seq::new(
                ts.len(),
                |k: int|
                    if 0 <= k < ts.len() {
                        inverted(ts[k])
                    } else {
                        Formula::Or(seq![])
                    },
            ),
        ),
        Formula::Or(ts) => Formula::And(
            Seq::new(
                ts.len(),
                |k: int|
                    if 0 <= k < ts.len() {
                        inverted(ts[k])
                    } else {
                        Formula::Or(seq![])
                    },
            ),
        ),
        Formula::Leq(l, r) => Formula::Lt(r, l),
        Formula::Lt(l, r) => Formula::Leq(r, l),
        _ => Formula::Not(Box::new(f)),
    }
}

/// The terms that a formula contributes to a disjunction that contains it.
pub open spec fn or_parts(f: Formula) -> Seq<Formula> {
    match f {
        Formula::Or(ts) => ts,
        _ => seq![f],
    }
}

/// The terms that a formula contributes to a conjunction that contains it.
pub open spec fn and_parts(f: Formula) -> Seq<Formula> {
    match f {
        Formula::And(ts) => ts,
        _ => seq![f],
    }
}

/// The formulas, with the terms of each disjunction among them spliced in.
pub open spec fn or_terms(ds: Seq<Formula>) -> Seq<Formula>
    decreases ds.len(),
{
    if ds.len() == 0 {
        seq![]
    } else {
        or_terms(ds.drop_last()) + or_parts(ds.last())
    }
}

/// The formulas, with the terms of each conjunction among them spliced in.
pub open spec fn and_terms(ds: Seq<Formula>) -> Seq<Formula>
    decreases ds.len(),
{
    if ds.len() == 0 {
        seq![]
    } else {
        and_terms(ds.drop_last()) + and_parts(ds.last())
    }
}

/// The clause `c` extended by each of `ats` in turn.
pub open spec fn extend_each(c: Seq<Formula>, ats: Seq<Formula>) -> Seq<Seq<Formula>> {
    Seq::new(ats.len(), |m: int| c.push(ats[m]))
}

/// Each clause of `prev` extended by `t`.
pub open spec fn extend_all(prev: Seq<Seq<Formula>>, t: Formula) -> Seq<Seq<Formula>> {
    prev.map_values(|c: Seq<Formula>| c.push(t))
}

/// Each clause of `prev` extended by each of `ats`, clause by clause.
pub open spec fn product(prev: Seq<Seq<Formula>>, ats: Seq<Formula>) -> Seq<Seq<Formula>>
    decreases prev.len(),
{
    if prev.len() == 0 {
        seq![]
    } else {
        product(prev.drop_last(), ats) + extend_each(prev.last(), ats)
    }
}

/// The clauses of the distribution of a disjunction of `flat` over the
/// conjunctions among them: one term of each conjunction, and each other term.
pub open spec fn combos(flat: Seq<Formula>) -> Seq<Seq<Formula>>
    decreases flat.len(),
{
    if flat.len() == 0 {
        seq![seq![]]
    } else {
        let prev = combos(flat.drop_last());
        let t = flat.last();
        match t {
            Formula::And(ats) => product(prev, ats),
            _ => extend_all(prev, t),
        }
    }
}

pub open spec fn clauses_of(cs: Seq<Seq<Formula>>) -> Seq<Formula> {
    cs.map_values(|c: Seq<Formula>| Formula::Or(c))
}

/// The formula with disjunctions distributed over conjunctions, and nested
/// disjunctions and conjunctions flattened.
pub open spec fn distributed(f: Formula) -> Formula
    decreases f,
{
    match f {
        Formula::Or(ts) => {
            let cls = clauses_of(combos(or_terms(distributed_terms(ts))));
            if cls.len() == 1 {
                cls[0]
            } else {
                Formula::And(cls)
            }
        },
        Formula::And(ts) => Formula::And(and_terms(distributed_terms(ts))),
        _ => f,
    }
}

/// Each of the formulas, distributed.
pub open spec fn distributed_terms(ts: Seq<Formula>) -> Seq<Formula>
    decreases ts,
{
    Seq::new(
        ts.len(),
        |k: int|
            if 0 <= k < ts.len() {
                distributed(ts[k])
            } else {
                Formula::Or(seq![])
            },
    )
}

/// The conjunctive normal form of a formula.
pub open spec fn cnf(f: Formula) -> Formula {
    distributed(negations_pushed(f))
}


// ---------------------------------------------------------------------------
// What the conversion keeps.
// ---------------------------------------------------------------------------

proof fn lemma_pushed_rec(f: Formula, i: Interpretation)
    ensures
        holds(negations_pushed(f), i) == holds(f, i),
        holds(inverted(f), i) == !holds(f, i),
        is_nnf(negations_pushed(f)),
        is_nnf(inverted(f)),
    decreases f,
{
    match f {
        Formula::Not(g) => {
            lemma_pushed_rec(*g, i);
        },
        Formula::And(ts) => {
            assert forall|k: int| 0 <= k < ts.len() implies holds(negations_pushed(ts[k]), i) == holds(ts[k], i)
                && holds(inverted(ts[k]), i) == !holds(ts[k], i) && is_nnf(negations_pushed(ts[k]))
                && is_nnf(inverted(ts[k])) by {
                lemma_pushed_rec(ts[k], i);
            }
            let p = negations_pushed(f)->And_0;
            let q = inverted(f)->Or_0;
            assert(p.len() == ts.len() && q.len() == ts.len());
            assert forall|k: int| 0 <= k < ts.len() implies #[trigger] p[k] == negations_pushed(ts[k]) && q[k]
                == inverted(ts[k]) by {}
            lemma_holds_and(ts, i);
            lemma_holds_and(p, i);
            lemma_holds_or(q, i);
            assert(holds(Formula::And(p), i) == holds(f, i)) by {
                if holds(f, i) {
                    assert forall|k: int| 0 <= k < p.len() implies #[trigger] holds(p[k], i) by {
                        assert(holds(ts[k], i));
                    }
                } else {
                    let k = choose|k: int| 0 <= k < ts.len() && !#[trigger] holds(ts[k], i);
                    assert(!holds(p[k], i));
                }
            }
            assert(holds(Formula::Or(q), i) == !holds(f, i)) by {
                if holds(f, i) {
                    assert forall|k: int| 0 <= k < q.len() implies !#[trigger] holds(q[k], i) by {
                        assert(holds(ts[k], i));
                    }
                } else {
                    let k = choose|k: int| 0 <= k < ts.len() && !#[trigger] holds(ts[k], i);
                    assert(holds(q[k], i));
                }
            }
            assert forall|k: int| 0 <= k < p.len() implies #[trigger] is_nnf(p[k]) by {}
            assert forall|k: int| 0 <= k < q.len() implies #[trigger] is_nnf(q[k]) by {}
            lemma_all_shapes(p);
            lemma_all_shapes(q);
        },
        Formula::Or(ts) => {
            assert forall|k: int| 0 <= k < ts.len() implies holds(negations_pushed(ts[k]), i) == holds(ts[k], i)
                && holds(inverted(ts[k]), i) == !holds(ts[k], i) && is_nnf(negations_pushed(ts[k]))
                && is_nnf(inverted(ts[k])) by {
                lemma_pushed_rec(ts[k], i);
            }
            let p = negations_pushed(f)->Or_0;
            let q = inverted(f)->And_0;
            assert(p.len() == ts.len() && q.len() == ts.len());
            assert forall|k: int| 0 <= k < ts.len() implies #[trigger] p[k] == negations_pushed(ts[k]) && q[k]
                == inverted(ts[k]) by {}
            lemma_holds_or(ts, i);
            lemma_holds_or(p, i);
            lemma_holds_and(q, i);
            assert(holds(Formula::Or(p), i) == holds(f, i)) by {
                if holds(f, i) {
                    let k = choose|k: int| 0 <= k < ts.len() && #[trigger] holds(ts[k], i);
                    assert(holds(p[k], i));
                } else {
                    assert forall|k: int| 0 <= k < p.len() implies !#[trigger] holds(p[k], i) by {
                        assert(!holds(ts[k], i));
                    }
                }
            }
            assert(holds(Formula::And(q), i) == !holds(f, i)) by {
                if holds(f, i) {
                    let k = choose|k: int| 0 <= k < ts.len() && #[trigger] holds(ts[k], i);
                    assert(!holds(q[k], i));
                } else {
                    assert forall|k: int| 0 <= k < q.len() implies #[trigger] holds(q[k], i) by {
                        assert(!holds(ts[k], i));
                    }
                }
            }
            assert forall|k: int| 0 <= k < p.len() implies #[trigger] is_nnf(p[k]) by {}
            assert forall|k: int| 0 <= k < q.len() implies #[trigger] is_nnf(q[k]) by {}
            lemma_all_shapes(p);
            lemma_all_shapes(q);
        },
        _ => {},
    }
}

/// Pushing negations down keeps the meaning of a formula, under every
/// interpretation, and leaves negations only on terms and equalities.
pub proof fn law_negations_pushed(f: Formula, i: Interpretation)
    ensures
        holds(negations_pushed(f), i) == holds(f, i),
        is_nnf(negations_pushed(f)),
{
    lemma_pushed_rec(f, i);
}

/// Inverting a formula gives its negation, under every interpretation, in
/// negation normal form.
pub proof fn law_inverted(f: Formula, i: Interpretation)
    ensures
        holds(inverted(f), i) == !holds(f, i),
        is_nnf(inverted(f)),
{
    lemma_pushed_rec(f, i);
}

proof fn lemma_any_concat(a: Seq<Formula>, b: Seq<Formula>, i: Interpretation)
    ensures
        any_holds(a + b, i) == (any_holds(a, i) || any_holds(b, i)),
        all_hold(a + b, i) == (all_hold(a, i) && all_hold(b, i)),
{
    let c = a + b;
    if any_holds(c, i) {
        let k = choose|k: int| 0 <= k < c.len() && #[trigger] holds(c[k], i);
        if k < a.len() {
            assert(holds(a[k], i));
        } else {
            assert(holds(b[k - a.len()], i));
        }
    }
    if any_holds(a, i) {
        let k = choose|k: int| 0 <= k < a.len() && #[trigger] holds(a[k], i);
        assert(holds(c[k], i));
    }
    if any_holds(b, i) {
        let k = choose|k: int| 0 <= k < b.len() && #[trigger] holds(b[k], i);
        assert(holds(c[k + a.len()], i));
    }
    if all_hold(a, i) && all_hold(b, i) {
        assert forall|k: int| 0 <= k < c.len() implies #[trigger] holds(c[k], i) by {
            if k < a.len() {
                assert(holds(a[k], i));
            } else {
                assert(holds(b[k - a.len()], i));
            }
        }
    }
    if all_hold(c, i) {
        assert forall|k: int| 0 <= k < a.len() implies #[trigger] holds(a[k], i) by {
            assert(holds(c[k], i));
        }
        assert forall|k: int| 0 <= k < b.len() implies #[trigger] holds(b[k], i) by {
            assert(holds(c[k + a.len()], i));
        }
    }
}

proof fn lemma_or_terms(ds: Seq<Formula>, i: Interpretation)
    ensures
        any_holds(or_terms(ds), i) == any_holds(ds, i),
    decreases ds.len(),
{
    if ds.len() > 0 {
        let init = ds.drop_last();
        let d = ds.last();
        lemma_or_terms(init, i);
        lemma_any_concat(or_terms(init), or_parts(d), i);
        lemma_any_concat(init, seq![d], i);
        assert(ds == init + seq![d]);
        if !(d is Or) {
            assert(any_holds(seq![d], i) == holds(d, i)) by {
                if holds(d, i) {
                    assert(holds(seq![d][0], i));
                }
            }
        }
        assert(any_holds(or_parts(d), i) == any_holds(seq![d], i)) by {
            assert(seq![d][0] == d);
            if any_holds(seq![d], i) {
                let k = choose|k: int| 0 <= k < 1 && #[trigger] holds(seq![d][k], i);
                assert(holds(d, i));
            }
            if holds(d, i) {
                assert(holds(seq![d][0], i));
            }
            match d {
                Formula::Or(ts) => {
                    lemma_holds_or(ts, i);
                },
                _ => {},
            }
        }
    }
}

proof fn lemma_and_terms(ds: Seq<Formula>, i: Interpretation)
    ensures
        all_hold(and_terms(ds), i) == all_hold(ds, i),
    decreases ds.len(),
{
    if ds.len() > 0 {
        let init = ds.drop_last();
        let d = ds.last();
        lemma_and_terms(init, i);
        lemma_any_concat(and_terms(init), and_parts(d), i);
        lemma_any_concat(init, seq![d], i);
        assert(ds == init + seq![d]);
        assert(all_hold(and_parts(d), i) == all_hold(seq![d], i)) by {
            assert(seq![d][0] == d);
            if !holds(d, i) {
                assert(!holds(seq![d][0], i));
            }
            if holds(d, i) {
                assert forall|k: int| 0 <= k < 1 implies #[trigger] holds(seq![d][k], i) by {}
            }
            match d {
                Formula::And(ts) => {
                    lemma_holds_and(ts, i);
                },
                _ => {},
            }
        }
    }
}

/// Whether every clause of `cs` has a term that holds.
pub open spec fn clauses_hold(cs: Seq<Seq<Formula>>, i: Interpretation) -> bool {
    forall|k: int| 0 <= k < cs.len() ==> #[trigger] any_holds(cs[k], i)
}

proof fn lemma_clauses_concat(a: Seq<Seq<Formula>>, b: Seq<Seq<Formula>>, i: Interpretation)
    ensures
        clauses_hold(a + b, i) == (clauses_hold(a, i) && clauses_hold(b, i)),
{
    let c = a + b;
    if clauses_hold(a, i) && clauses_hold(b, i) {
        assert forall|k: int| 0 <= k < c.len() implies #[trigger] any_holds(c[k], i) by {
            if k < a.len() {
                assert(any_holds(a[k], i));
            } else {
                assert(any_holds(b[k - a.len()], i));
            }
        }
    }
    if clauses_hold(c, i) {
        assert forall|k: int| 0 <= k < a.len() implies #[trigger] any_holds(a[k], i) by {
            assert(any_holds(c[k], i));
        }
        assert forall|k: int| 0 <= k < b.len() implies #[trigger] any_holds(b[k], i) by {
            assert(any_holds(c[k + a.len()], i));
        }
    }
}

proof fn lemma_push_any(c: Seq<Formula>, t: Formula, i: Interpretation)
    ensures
        any_holds(c.push(t), i) == (any_holds(c, i) || holds(t, i)),
{
    lemma_any_concat(c, seq![t], i);
    assert(c.push(t) == c + seq![t]);
    if holds(t, i) {
        assert(holds(seq![t][0], i));
    }
}

proof fn lemma_product(prev: Seq<Seq<Formula>>, ats: Seq<Formula>, i: Interpretation)
    ensures
        clauses_hold(product(prev, ats), i) == (clauses_hold(prev, i) || all_hold(ats, i)),
    decreases prev.len(),
{
    if prev.len() > 0 {
        let init = prev.drop_last();
        let c = prev.last();
        let row = extend_each(c, ats);
        lemma_product(init, ats, i);
        lemma_clauses_concat(product(init, ats), row, i);
        assert(prev == init.push(c));
        lemma_clauses_concat(init, seq![c], i);
        assert(init.push(c) == init + seq![c]);
        assert(clauses_hold(seq![c], i) == any_holds(c, i)) by {
            if any_holds(c, i) {
                assert forall|k: int| 0 <= k < 1 implies #[trigger] any_holds(seq![c][k], i) by {
                    assert(seq![c][k] == c);
                }
            } else {
                assert(!any_holds(seq![c][0], i));
            }
        }
        assert(clauses_hold(row, i) == (any_holds(c, i) || all_hold(ats, i))) by {
            assert forall|m: int| 0 <= m < ats.len() implies #[trigger] any_holds(row[m], i) == (any_holds(
                c,
                i,
            ) || holds(ats[m], i)) by {
                lemma_push_any(c, ats[m], i);
            }
            if any_holds(c, i) || all_hold(ats, i) {
                assert forall|m: int| 0 <= m < row.len() implies #[trigger] any_holds(row[m], i) by {
                    lemma_push_any(c, ats[m], i);
                }
            } else {
                let m = choose|m: int| 0 <= m < ats.len() && !#[trigger] holds(ats[m], i);
                lemma_push_any(c, ats[m], i);
                assert(!any_holds(row[m], i));
            }
        }
    }
}

proof fn lemma_combos(flat: Seq<Formula>, i: Interpretation)
    ensures
        clauses_hold(combos(flat), i) == any_holds(flat, i),
    decreases flat.len(),
{
    if flat.len() == 0 {
        let cs = combos(flat);
        assert(cs == seq![Seq::<Formula>::empty()]);
        assert(!any_holds(cs[0], i));
    } else {
        let init = flat.drop_last();
        let t = flat.last();
        let prev = combos(init);
        lemma_combos(init, i);
        lemma_any_concat(init, seq![t], i);
        assert(flat == init + seq![t]);
        assert(any_holds(seq![t], i) == holds(t, i)) by {
            if holds(t, i) {
                assert(holds(seq![t][0], i));
            }
        }
        match t {
            Formula::And(ats) => {
                lemma_product(prev, ats, i);
                lemma_holds_and(ats, i);
            },
            _ => {
                let cs = extend_all(prev, t);
                assert(combos(flat) == cs);
                assert forall|k: int| 0 <= k < cs.len() implies #[trigger] any_holds(cs[k], i) == (any_holds(
                    prev[k],
                    i,
                ) || holds(t, i)) by {
                    lemma_push_any(prev[k], t, i);
                }
                if clauses_hold(prev, i) || holds(t, i) {
                    assert forall|k: int| 0 <= k < cs.len() implies #[trigger] any_holds(cs[k], i) by {
                        lemma_push_any(prev[k], t, i);
                    }
                } else {
                    let k = choose|k: int| 0 <= k < prev.len() && !#[trigger] any_holds(prev[k], i);
                    lemma_push_any(prev[k], t, i);
                    assert(!any_holds(cs[k], i));
                }
            },
        }
    }
}

proof fn lemma_clauses_of(cs: Seq<Seq<Formula>>, i: Interpretation)
    ensures
        all_hold(clauses_of(cs), i) == clauses_hold(cs, i),
{
    let cl = clauses_of(cs);
    assert forall|k: int| 0 <= k < cs.len() implies #[trigger] holds(cl[k], i) == any_holds(cs[k], i) by {
        assert(cl[k] == Formula::Or(cs[k]));
        lemma_holds_or(cs[k], i);
    }
    if !clauses_hold(cs, i) {
        let k = choose|k: int| 0 <= k < cs.len() && !#[trigger] any_holds(cs[k], i);
        assert(!holds(cl[k], i));
    }
    if !all_hold(cl, i) {
        let k = choose|k: int| 0 <= k < cl.len() && !#[trigger] holds(cl[k], i);
        assert(!any_holds(cs[k], i));
    }
}

proof fn lemma_distributed_holds(f: Formula, i: Interpretation)
    ensures
        holds(distributed(f), i) == holds(f, i),
    decreases f,
{
    match f {
        Formula::Or(ts) => {
            let ds = distributed_terms(ts);
            assert forall|k: int| 0 <= k < ts.len() implies holds(#[trigger] ds[k], i) == holds(ts[k], i) by {
                lemma_distributed_holds(ts[k], i);
            }
            let flat = or_terms(ds);
            let cs = combos(flat);
            let cls = clauses_of(cs);
            lemma_or_terms(ds, i);
            lemma_combos(flat, i);
            lemma_clauses_of(cs, i);
            lemma_holds_or(ts, i);
            lemma_holds_and(cls, i);
            assert(any_holds(ds, i) == holds(f, i)) by {
                if any_holds(ds, i) {
                    let k = choose|k: int| 0 <= k < ds.len() && #[trigger] holds(ds[k], i);
                    assert(holds(ts[k], i));
                }
                if holds(f, i) {
                    let k = choose|k: int| 0 <= k < ts.len() && #[trigger] holds(ts[k], i);
                    assert(holds(ds[k], i));
                }
            }
            if cls.len() == 1 {
                assert(all_hold(cls, i) == holds(cls[0], i));
            }
        },
        Formula::And(ts) => {
            let ds = distributed_terms(ts);
            assert forall|k: int| 0 <= k < ts.len() implies holds(#[trigger] ds[k], i) == holds(ts[k], i) by {
                lemma_distributed_holds(ts[k], i);
            }
            lemma_and_terms(ds, i);
            lemma_holds_and(ts, i);
            lemma_holds_and(and_terms(ds), i);
            assert(all_hold(ds, i) == holds(f, i)) by {
                if !all_hold(ds, i) {
                    let k = choose|k: int| 0 <= k < ds.len() && !#[trigger] holds(ds[k], i);
                    assert(!holds(ts[k], i));
                }
                if !holds(f, i) {
                    let k = choose|k: int| 0 <= k < ts.len() && !#[trigger] holds(ts[k], i);
                    assert(!holds(ds[k], i));
                }
            }
        },
        _ => {},
    }
}

/// Distributing keeps the meaning of a formula, under every interpretation.
pub proof fn law_distributed(f: Formula, i: Interpretation)
    ensures
        holds(distributed(f), i) == holds(f, i),
{
    lemma_distributed_holds(f, i);
}

/// The conjunctive normal form of a formula holds exactly where the formula
/// holds, under every interpretation of its terms and compared values.
pub proof fn law_cnf_keeps_meaning(f: Formula, i: Interpretation)
    ensures
        holds(cnf(f), i) == holds(f, i),
{
    lemma_pushed_rec(f, i);
    lemma_distributed_holds(negations_pushed(f), i);
}

// ---------------------------------------------------------------------------
// The shape of the result.
// ---------------------------------------------------------------------------

proof fn lemma_clause_is_cnf(f: Formula)
    requires
        is_clause(f),
    ensures
        is_cnf(f),
        !(f is And),
{
}

proof fn lemma_or_terms_shape(ds: Seq<Formula>)
    requires
        forall|k: int| 0 <= k < ds.len() ==> #[trigger] is_cnf(ds[k]),
    ensures
        forall|k: int| 0 <= k < or_terms(ds).len() ==> #[trigger] is_cnf(or_terms(ds)[k]),
    decreases ds.len(),
{
    if ds.len() > 0 {
        let init = ds.drop_last();
        let d = ds.last();
        assert(is_cnf(ds[ds.len() - 1]));
        assert forall|k: int| 0 <= k < init.len() implies #[trigger] is_cnf(init[k]) by {
            assert(is_cnf(ds[k]));
        }
        lemma_or_terms_shape(init);
        let a = or_terms(init);
        let b = or_parts(d);
        match d {
            Formula::Or(ts) => {
                lemma_all_shapes(ts);
                assert forall|k: int| 0 <= k < ts.len() implies #[trigger] is_cnf(ts[k]) by {
                    assert(is_clause(ts[k]));
                    lemma_clause_is_cnf(ts[k]);
                }
            },
            _ => {},
        }
        assert forall|k: int| 0 <= k < (a + b).len() implies #[trigger] is_cnf((a + b)[k]) by {
            if k < a.len() {
                assert(is_cnf(a[k]));
            } else {
                assert(is_cnf(b[k - a.len()]));
            }
        }
    }
}

proof fn lemma_and_terms_shape(ds: Seq<Formula>)
    requires
        forall|k: int| 0 <= k < ds.len() ==> #[trigger] is_cnf(ds[k]),
    ensures
        forall|k: int| 0 <= k < and_terms(ds).len() ==> #[trigger] is_clause(and_terms(ds)[k]),
    decreases ds.len(),
{
    if ds.len() > 0 {
        let init = ds.drop_last();
        let d = ds.last();
        assert(is_cnf(ds[ds.len() - 1]));
        assert forall|k: int| 0 <= k < init.len() implies #[trigger] is_cnf(init[k]) by {
            assert(is_cnf(ds[k]));
        }
        lemma_and_terms_shape(init);
        let a = and_terms(init);
        let b = and_parts(d);
        match d {
            Formula::And(ts) => {
                lemma_all_shapes(ts);
            },
            _ => {},
        }
        assert forall|k: int| 0 <= k < (a + b).len() implies #[trigger] is_clause((a + b)[k]) by {
            if k < a.len() {
                assert(is_clause(a[k]));
            } else {
                assert(is_clause(b[k - a.len()]));
            }
        }
    }
}

/// Whether every term of every clause is a clause.
pub open spec fn clause_lists(cs: Seq<Seq<Formula>>) -> bool {
    forall|k: int, m: int| 0 <= k < cs.len() && 0 <= m < cs[k].len() ==> #[trigger] is_clause(cs[k][m])
}

proof fn lemma_product_shape(prev: Seq<Seq<Formula>>, ats: Seq<Formula>)
    requires
        clause_lists(prev),
        forall|m: int| 0 <= m < ats.len() ==> #[trigger] is_clause(ats[m]),
    ensures
        clause_lists(product(prev, ats)),
    decreases prev.len(),
{
    if prev.len() > 0 {
        let init = prev.drop_last();
        let c = prev.last();
        assert(clause_lists(init)) by {
            assert forall|k: int, m: int| 0 <= k < init.len() && 0 <= m < init[k].len() implies #[trigger] is_clause(
                init[k][m],
            ) by {
                assert(is_clause(prev[k][m]));
            }
        }
        lemma_product_shape(init, ats);
        let a = product(init, ats);
        let b = extend_each(c, ats);
        assert forall|k: int, m: int| 0 <= k < (a + b).len() && 0 <= m < (a + b)[k].len() implies #[trigger] is_clause(
            (a + b)[k][m],
        ) by {
            if k < a.len() {
                assert(is_clause(a[k][m]));
            } else {
                let j = k - a.len();
                assert(b[j] == c.push(ats[j]));
                if m < c.len() {
                    assert(is_clause(prev[prev.len() - 1][m]));
                } else {
                    assert(is_clause(ats[j]));
                }
            }
        }
    }
}

proof fn lemma_combos_shape(flat: Seq<Formula>)
    requires
        forall|k: int| 0 <= k < flat.len() ==> #[trigger] is_cnf(flat[k]),
    ensures
        clause_lists(combos(flat)),
    decreases flat.len(),
{
    if flat.len() == 0 {
        assert(combos(flat) == seq![Seq::<Formula>::empty()]);
    } else {
        let init = flat.drop_last();
        let t = flat.last();
        assert(is_cnf(flat[flat.len() - 1]));
        assert forall|k: int| 0 <= k < init.len() implies #[trigger] is_cnf(init[k]) by {
            assert(is_cnf(flat[k]));
        }
        lemma_combos_shape(init);
        let prev = combos(init);
        match t {
            Formula::And(ats) => {
                lemma_all_shapes(ats);
                lemma_product_shape(prev, ats);
            },
            _ => {
                let cs = extend_all(prev, t);
                assert forall|k: int, m: int| 0 <= k < cs.len() && 0 <= m < cs[k].len() implies #[trigger] is_clause(
                    cs[k][m],
                ) by {
                    assert(cs[k] == prev[k].push(t));
                    if m < prev[k].len() {
                        assert(is_clause(prev[k][m]));
                    }
                }
            },
        }
    }
}

proof fn lemma_distributed_shape(f: Formula)
    requires
        is_nnf(f),
    ensures
        is_cnf(distributed(f)),
    decreases f,
{
    match f {
        Formula::Or(ts) => {
            lemma_all_shapes(ts);
            let ds = distributed_terms(ts);
            assert forall|k: int| 0 <= k < ds.len() implies #[trigger] is_cnf(ds[k]) by {
                assert(is_nnf(ts[k]));
                lemma_distributed_shape(ts[k]);
            }
            let flat = or_terms(ds);
            lemma_or_terms_shape(ds);
            lemma_combos_shape(flat);
            let cs = combos(flat);
            let cls = clauses_of(cs);
            assert forall|k: int| 0 <= k < cls.len() implies #[trigger] is_clause(cls[k]) by {
                assert(cls[k] == Formula::Or(cs[k]));
                lemma_all_shapes(cs[k]);
                assert forall|m: int| 0 <= m < cs[k].len() implies #[trigger] is_clause(cs[k][m]) by {}
            }
            lemma_all_shapes(cls);
            if cls.len() == 1 {
                assert(is_clause(cls[0]));
            }
        },
        Formula::And(ts) => {
            lemma_all_shapes(ts);
            let ds = distributed_terms(ts);
            assert forall|k: int| 0 <= k < ds.len() implies #[trigger] is_cnf(ds[k]) by {
                assert(is_nnf(ts[k]));
                lemma_distributed_shape(ts[k]);
            }
            lemma_and_terms_shape(ds);
            lemma_all_shapes(and_terms(ds));
        },
        _ => {},
    }
}

/// The conjunctive normal form of any formula is a conjunction of clauses, or
/// a single clause, whose literals are terms, comparisons, and negated terms
/// or equalities.
pub proof fn law_cnf_shape(f: Formula)
    ensures
        is_cnf(cnf(f)),
{
    let i = Interpretation { truth: |s: Slot| true, value: |s: Slot| 0int };
    lemma_pushed_rec(f, i);
    lemma_distributed_shape(negations_pushed(f));
}

} // verus!

verus! {

/// The models of a list of clauses under construction.
pub open spec fn clause_views(v: Seq<Vec<BoolExpr>>) -> Seq<Seq<Formula>> {
    Seq::new(v.len(), |i: int| bools_view(v[i]@))
}

impl BoolExpr {
    /// A copy of the expression.
    pub fn copy(&self) -> (r: BoolExpr)
        ensures
            r@ == self@,
        decreases self@,
    {
        match self {
            BoolExpr::Term { term } => BoolExpr::Term { term: *term },
            BoolExpr::Not { term } => {
                proof {
                    let ghost sv = self@;
                    assert(sv->Not_0 == Box::new((**term)@));
                    assert(decreases_to!(sv => sv->Not_0));
                }
                let t = term.copy();
                BoolExpr::Not { term: Box::new(t) }
            },
            BoolExpr::Eq { left, right } => BoolExpr::Eq { left: *left, right: *right },
            BoolExpr::Lt { left, right } => BoolExpr::Lt { left: *left, right: *right },
            BoolExpr::Leq { left, right } => BoolExpr::Leq { left: *left, right: *right },
            BoolExpr::Or { terms } => {
                proof {
                    let ghost sv = self@;
                    assert(sv->Or_0 == bools_view(terms@));
                    assert(decreases_to!(sv => sv->Or_0));
                }
                BoolExpr::Or { terms: copy_exprs(terms) }
            },
            BoolExpr::And { terms } => {
                proof {
                    let ghost sv = self@;
                    assert(sv->And_0 == bools_view(terms@));
                    assert(decreases_to!(sv => sv->And_0));
                }
                BoolExpr::And { terms: copy_exprs(terms) }
            },
        }
    }
}

/// A copy of each of the expressions.
pub fn copy_exprs(v: &Vec<BoolExpr>) -> (r: Vec<BoolExpr>)
    ensures
        bools_view(r@) == bools_view(v@),
    decreases bools_view(v@),
{
    let mut r: Vec<BoolExpr> = Vec::new();
    let mut j: usize = 0;
    while j < v.len()
        invariant
            j <= v.len(),
            bools_view(r@) == bools_view(v@).subrange(0, j as int),
        decreases v.len() - j,
    {
        proof {
            assert(bools_view(v@)[j as int] == v@[j as int]@);
        }
        let c = v[j].copy();
        let ghost before = r@;
        r.push(c);
        proof {
            assert(bools_view(r@) =~= bools_view(before).push(c@));
            assert(bools_view(v@).subrange(0, j + 1) =~= bools_view(v@).subrange(0, j as int).push(c@));
        }
        j = j + 1;
    }
    proof {
        assert(bools_view(v@).subrange(0, v.len() as int) =~= bools_view(v@));
    }
    r
}

/// Appends the expressions of `more` to `v`.
fn append_exprs(v: &mut Vec<BoolExpr>, more: Vec<BoolExpr>)
    ensures
        bools_view(final(v)@) == bools_view(old(v)@) + bools_view(more@),
{
    let ghost mv = bools_view(more@);
    let mut more = more;
    let mut j: usize = 0;
    let ghost n = more.len();
    while more.len() > 0
        invariant
            bools_view(v@) == bools_view(old(v)@) + mv.subrange(0, n - more.len()),
            bools_view(more@) == mv.subrange(n - more.len(), n as int),
            more.len() <= n,
            mv.len() == n,
        decreases more.len(),
    {
        let ghost before = v@;
        let ghost mb = more@;
        let x = more.remove(0);
        proof {
            assert(bools_view(mb)[0] == x@);
            assert(bools_view(more@) =~= bools_view(mb).subrange(1, mb.len() as int));
        }
        v.push(x);
        proof {
            assert(bools_view(v@) =~= bools_view(before).push(x@));
            assert(mv.subrange(0, n - more.len()) =~= mv.subrange(0, n - mb.len()).push(x@));
        }
    }
    proof {
        assert(mv.subrange(0, n as int) =~= mv);
    }
}

/// Pushes the negations of an expression down to its terms and equalities.
pub fn push_negations(e: BoolExpr) -> (r: BoolExpr)
    ensures
        r@ == negations_pushed(e@),
    decreases e@, 0nat,
{
    let ghost ev = e@;
    match e {
        BoolExpr::Not { term } => push_inverted(*term),
        BoolExpr::And { terms } => {
            let out = map_push_negations(terms);
            proof {
                assert(bools_view(out@) =~= negations_pushed(ev)->And_0);
            }
            BoolExpr::And { terms: out }
        },
        BoolExpr::Or { terms } => {
            let out = map_push_negations(terms);
            proof {
                assert(bools_view(out@) =~= negations_pushed(ev)->Or_0);
            }
            BoolExpr::Or { terms: out }
        },
        other => other,
    }
}

fn map_push_negations(terms: Vec<BoolExpr>) -> (r: Vec<BoolExpr>)
    ensures
        r@.len() == terms@.len(),
        forall|k: int| 0 <= k < terms@.len() ==> #[trigger] bools_view(r@)[k] == negations_pushed(
            bools_view(terms@)[k],
        ),
    decreases bools_view(terms@), 1nat,
{
    let ghost tv = bools_view(terms@);
    let ghost n = terms.len();
    let mut rest = terms;
    let mut out: Vec<BoolExpr> = Vec::new();
    while rest.len() > 0
        invariant
            rest.len() <= n,
            tv.len() == n,
            tv == bools_view(terms@),
            bools_view(rest@) == tv.subrange(n - rest.len(), n as int),
            out.len() == n - rest.len(),
            forall|k: int| 0 <= k < out.len() ==> #[trigger] bools_view(out@)[k] == negations_pushed(tv[k]),
        decreases rest.len(),
    {
        let ghost rb = rest@;
        let ghost j = n - rest.len();
        let x = rest.remove(0);
        proof {
            assert(bools_view(rb)[0] == x@);
            assert(tv[j] == x@);
            assert(bools_view(rest@) =~= bools_view(rb).subrange(1, rb.len() as int));
            assert(decreases_to!(tv => tv[j]));
        }
        let y = push_negations(x);
        let ghost ob = out@;
        out.push(y);
        proof {
            assert(bools_view(out@) =~= bools_view(ob).push(y@));
        }
    }
    out
}

/// Handles an expression as if a negation stood on it: the negation of `e`,
/// with negations pushed down.
pub fn push_inverted(e: BoolExpr) -> (r: BoolExpr)
    ensures
        r@ == inverted(e@),
    decreases e@, 0nat,
{
    let ghost ev = e@;
    match e {
        BoolExpr::Not { term } => push_negations(*term),
        BoolExpr::And { terms } => {
            let out = map_push_inverted(terms);
            proof {
                assert(bools_view(out@) =~= inverted(ev)->Or_0);
            }
            BoolExpr::Or { terms: out }
        },
        BoolExpr::Or { terms } => {
            let out = map_push_inverted(terms);
            proof {
                assert(bools_view(out@) =~= inverted(ev)->And_0);
            }
            BoolExpr::And { terms: out }
        },
        BoolExpr::Leq { left, right } => BoolExpr::Lt { left: right, right: left },
        BoolExpr::Lt { left, right } => BoolExpr::Leq { left: right, right: left },
        other => BoolExpr::Not { term: Box::new(other) },
    }
}

fn map_push_inverted(terms: Vec<BoolExpr>) -> (r: Vec<BoolExpr>)
    ensures
        r@.len() == terms@.len(),
        forall|k: int| 0 <= k < terms@.len() ==> #[trigger] bools_view(r@)[k] == inverted(
            bools_view(terms@)[k],
        ),
    decreases bools_view(terms@), 1nat,
{
    let ghost tv = bools_view(terms@);
    let ghost n = terms.len();
    let mut rest = terms;
    let mut out: Vec<BoolExpr> = Vec::new();
    while rest.len() > 0
        invariant
            rest.len() <= n,
            tv.len() == n,
            tv == bools_view(terms@),
            bools_view(rest@) == tv.subrange(n - rest.len(), n as int),
            out.len() == n - rest.len(),
            forall|k: int| 0 <= k < out.len() ==> #[trigger] bools_view(out@)[k] == inverted(tv[k]),
        decreases rest.len(),
    {
        let ghost rb = rest@;
        let ghost j = n - rest.len();
        let x = rest.remove(0);
        proof {
            assert(bools_view(rb)[0] == x@);
            assert(tv[j] == x@);
            assert(bools_view(rest@) =~= bools_view(rb).subrange(1, rb.len() as int));
            assert(decreases_to!(tv => tv[j]));
        }
        let y = push_inverted(x);
        let ghost ob = out@;
        out.push(y);
        proof {
            assert(bools_view(out@) =~= bools_view(ob).push(y@));
        }
    }
    out
}


/// Distributes each of the expressions, and splices in the terms of the
/// disjunctions that come out.
fn distribute_each_or(terms: Vec<BoolExpr>) -> (flat: Vec<BoolExpr>)
    ensures
        bools_view(flat@) == or_terms(distributed_terms(bools_view(terms@))),
    decreases bools_view(terms@), 1nat,
{
    let ghost tv = bools_view(terms@);
    let ghost dt = distributed_terms(tv);
    let ghost n = terms.len();
    let mut rest = terms;
    let mut flat: Vec<BoolExpr> = Vec::new();
    proof {
        assert(dt.subrange(0, 0) =~= Seq::<Formula>::empty());
        assert(bools_view(flat@) =~= Seq::<Formula>::empty());
    }
    while rest.len() > 0
        invariant
            rest.len() <= n,
            tv.len() == n,
            dt.len() == n,
            tv == bools_view(terms@),
            dt == distributed_terms(tv),
            bools_view(rest@) == tv.subrange(n - rest.len(), n as int),
            bools_view(flat@) == or_terms(dt.subrange(0, n - rest.len())),
        decreases rest.len(),
    {
        let ghost rb = rest@;
        let ghost j = n - rest.len();
        let x = rest.remove(0);
        proof {
            assert(bools_view(rb)[0] == x@);
            assert(tv[j] == x@);
            assert(bools_view(rest@) =~= bools_view(rb).subrange(1, rb.len() as int));
            assert(decreases_to!(tv => tv[j]));
        }
        let d = distribute(x);
        let ghost fb = bools_view(flat@);
        let ghost dv = d@;
        match d {
            BoolExpr::Or { terms: inner } => {
                append_exprs(&mut flat, inner);
            },
            other => {
                flat.push(other);
                proof {
                    assert(bools_view(flat@) =~= fb.push(dv));
                }
            },
        }
        proof {
            assert(dt[j] == dv);
            assert(dt.subrange(0, j + 1).drop_last() =~= dt.subrange(0, j));
            assert(bools_view(flat@) =~= fb + or_parts(dv));
        }
    }
    proof {
        assert(dt.subrange(0, n as int) =~= dt);
    }
    flat
}

/// Distributes each of the expressions, and splices in the terms of the
/// conjunctions that come out.
fn distribute_each_and(terms: Vec<BoolExpr>) -> (flat: Vec<BoolExpr>)
    ensures
        bools_view(flat@) == and_terms(distributed_terms(bools_view(terms@))),
    decreases bools_view(terms@), 1nat,
{
    let ghost tv = bools_view(terms@);
    let ghost dt = distributed_terms(tv);
    let ghost n = terms.len();
    let mut rest = terms;
    let mut flat: Vec<BoolExpr> = Vec::new();
    proof {
        assert(dt.subrange(0, 0) =~= Seq::<Formula>::empty());
        assert(bools_view(flat@) =~= Seq::<Formula>::empty());
    }
    while rest.len() > 0
        invariant
            rest.len() <= n,
            tv.len() == n,
            dt.len() == n,
            tv == bools_view(terms@),
            dt == distributed_terms(tv),
            bools_view(rest@) == tv.subrange(n - rest.len(), n as int),
            bools_view(flat@) == and_terms(dt.subrange(0, n - rest.len())),
        decreases rest.len(),
    {
        let ghost rb = rest@;
        let ghost j = n - rest.len();
        let x = rest.remove(0);
        proof {
            assert(bools_view(rb)[0] == x@);
            assert(tv[j] == x@);
            assert(bools_view(rest@) =~= bools_view(rb).subrange(1, rb.len() as int));
            assert(decreases_to!(tv => tv[j]));
        }
        let d = distribute(x);
        let ghost fb = bools_view(flat@);
        let ghost dv = d@;
        match d {
            BoolExpr::And { terms: inner } => {
                append_exprs(&mut flat, inner);
            },
            other => {
                flat.push(other);
                proof {
                    assert(bools_view(flat@) =~= fb.push(dv));
                }
            },
        }
        proof {
            assert(dt[j] == dv);
            assert(dt.subrange(0, j + 1).drop_last() =~= dt.subrange(0, j));
            assert(bools_view(flat@) =~= fb + and_parts(dv));
        }
    }
    proof {
        assert(dt.subrange(0, n as int) =~= dt);
    }
    flat
}

/// Extends each clause by a copy of `t`.
fn extend_clauses(prev: Vec<Vec<BoolExpr>>, t: &BoolExpr) -> (next: Vec<Vec<BoolExpr>>)
    ensures
        clause_views(next@) == extend_all(clause_views(prev@), t@),
{
    let ghost pv = clause_views(prev@);
    let ghost n = prev.len();
    let ghost target = extend_all(pv, t@);
    let mut rest = prev;
    let mut next: Vec<Vec<BoolExpr>> = Vec::new();
    while rest.len() > 0
        invariant
            rest.len() <= n,
            pv.len() == n,
            target == extend_all(pv, t@),
            clause_views(rest@) == pv.subrange(n - rest.len(), n as int),
            clause_views(next@) == target.subrange(0, n - rest.len()),
        decreases rest.len(),
    {
        let ghost rb = rest@;
        let ghost i = n - rest.len();
        let mut c = rest.remove(0);
        proof {
            assert(clause_views(rb)[0] == bools_view(c@));
            assert(pv[i] == bools_view(c@));
            assert(clause_views(rest@) =~= clause_views(rb).subrange(1, rb.len() as int));
        }
        let ghost cb = bools_view(c@);
        let x = t.copy();
        c.push(x);
        proof {
            assert(bools_view(c@) =~= cb.push(t@));
        }
        let ghost nb = clause_views(next@);
        next.push(c);
        proof {
            assert(clause_views(next@) =~= nb.push(bools_view(c@)));
            assert(target[i] == pv[i].push(t@));
            assert(target.subrange(0, i + 1) =~= target.subrange(0, i).push(target[i]));
        }
    }
    proof {
        assert(target.subrange(0, n as int) =~= target);
    }
    next
}

/// Extends each clause by each of `ats`, clause by clause.
fn product_clauses(prev: Vec<Vec<BoolExpr>>, ats: &Vec<BoolExpr>) -> (next: Vec<Vec<BoolExpr>>)
    ensures
        clause_views(next@) == product(clause_views(prev@), bools_view(ats@)),
{
    let ghost pv = clause_views(prev@);
    let ghost av = bools_view(ats@);
    let ghost n = prev.len();
    let mut rest = prev;
    let mut next: Vec<Vec<BoolExpr>> = Vec::new();
    proof {
        assert(clause_views(next@) =~= Seq::<Seq<Formula>>::empty());
        assert(pv.subrange(0, 0) =~= Seq::<Seq<Formula>>::empty());
    }
    while rest.len() > 0
        invariant
            rest.len() <= n,
            pv.len() == n,
            av == bools_view(ats@),
            clause_views(rest@) == pv.subrange(n - rest.len(), n as int),
            clause_views(next@) == product(pv.subrange(0, n - rest.len()), av),
        decreases rest.len(),
    {
        let ghost rb = rest@;
        let ghost i = n - rest.len();
        let c = rest.remove(0);
        proof {
            assert(clause_views(rb)[0] == bools_view(c@));
            assert(pv[i] == bools_view(c@));
            assert(clause_views(rest@) =~= clause_views(rb).subrange(1, rb.len() as int));
        }
        let ghost base = clause_views(next@);
        let ghost row = extend_each(pv[i], av);
        let mut m: usize = 0;
        proof {
            assert(row.subrange(0, 0) =~= Seq::<Seq<Formula>>::empty());
            assert(base + row.subrange(0, 0) =~= base);
        }
        while m < ats.len()
            invariant
                m <= ats.len(),
                av == bools_view(ats@),
                row == extend_each(pv[i], av),
                pv[i] == bools_view(c@),
                clause_views(next@) == base + row.subrange(0, m as int),
            decreases ats.len() - m,
        {
            let mut c2 = copy_exprs(&c);
            let ghost cb = bools_view(c2@);
            let a = ats[m].copy();
            proof {
                assert(av[m as int] == a@);
            }
            c2.push(a);
            proof {
                assert(bools_view(c2@) =~= cb.push(a@));
                assert(row[m as int] == pv[i].push(av[m as int]));
            }
            let ghost nb = clause_views(next@);
            next.push(c2);
            proof {
                assert(clause_views(next@) =~= nb.push(bools_view(c2@)));
                assert(row.subrange(0, m + 1) =~= row.subrange(0, m as int).push(row[m as int]));
                assert(base + row.subrange(0, m + 1) =~= (base + row.subrange(0, m as int)).push(row[m as int]));
            }
            m = m + 1;
        }
        proof {
            assert(row.subrange(0, ats.len() as int) =~= row);
            let s1 = pv.subrange(0, i + 1);
            assert(s1.drop_last() =~= pv.subrange(0, i));
            assert(s1.last() == pv[i]);
        }
    }
    proof {
        assert(pv.subrange(0, n as int) =~= pv);
    }
    next
}

/// The clauses of the distribution of a disjunction of `flat`.
fn combine(flat: &Vec<BoolExpr>) -> (cs: Vec<Vec<BoolExpr>>)
    ensures
        clause_views(cs@) == combos(bools_view(flat@)),
{
    let ghost fv = bools_view(flat@);
    let mut cs: Vec<Vec<BoolExpr>> = Vec::new();
    cs.push(Vec::new());
    proof {
        assert(fv.subrange(0, 0) =~= Seq::<Formula>::empty());
        assert(bools_view(cs@[0]@) =~= Seq::<Formula>::empty());
        assert(clause_views(cs@) =~= seq![Seq::<Formula>::empty()]);
    }
    let mut j: usize = 0;
    while j < flat.len()
        invariant
            j <= flat.len(),
            fv == bools_view(flat@),
            clause_views(cs@) == combos(fv.subrange(0, j as int)),
        decreases flat.len() - j,
    {
        proof {
            let s1 = fv.subrange(0, j + 1);
            assert(s1.drop_last() =~= fv.subrange(0, j as int));
            assert(s1.last() == fv[j as int]);
            assert(fv[j as int] == flat@[j as int]@);
        }
        match &flat[j] {
            BoolExpr::And { terms: ats } => {
                cs = product_clauses(cs, ats);
            },
            t => {
                cs = extend_clauses(cs, t);
            },
        }
        j = j + 1;
    }
    proof {
        assert(fv.subrange(0, flat.len() as int) =~= fv);
    }
    cs
}

/// A disjunction of each list of terms.
fn disjunctions(cs: Vec<Vec<BoolExpr>>) -> (r: Vec<BoolExpr>)
    ensures
        bools_view(r@) == clauses_of(clause_views(cs@)),
{
    let ghost cv = clause_views(cs@);
    let ghost target = clauses_of(cv);
    let ghost n = cs.len();
    let mut rest = cs;
    let mut out: Vec<BoolExpr> = Vec::new();
    proof {
        assert(bools_view(out@) =~= target.subrange(0, 0));
    }
    while rest.len() > 0
        invariant
            rest.len() <= n,
            cv.len() == n,
            target == clauses_of(cv),
            clause_views(rest@) == cv.subrange(n - rest.len(), n as int),
            bools_view(out@) == target.subrange(0, n - rest.len()),
        decreases rest.len(),
    {
        let ghost rb = rest@;
        let ghost i = n - rest.len();
        let c = rest.remove(0);
        proof {
            assert(clause_views(rb)[0] == bools_view(c@));
            assert(cv[i] == bools_view(c@));
            assert(clause_views(rest@) =~= clause_views(rb).subrange(1, rb.len() as int));
        }
        let ghost ob = bools_view(out@);
        let d = BoolExpr::Or { terms: c };
        out.push(d);
        proof {
            assert(bools_view(out@) =~= ob.push(d@));
            assert(target[i] == Formula::Or(cv[i]));
            assert(target.subrange(0, i + 1) =~= target.subrange(0, i).push(target[i]));
        }
    }
    proof {
        assert(target.subrange(0, n as int) =~= target);
    }
    out
}

/// Distributes disjunctions over conjunctions, flattening nested disjunctions
/// and conjunctions.
pub fn distribute(e: BoolExpr) -> (r: BoolExpr)
    ensures
        r@ == distributed(e@),
    decreases e@, 0nat,
{
    let ghost ev = e@;
    match e {
        BoolExpr::Or { terms } => {
            proof {
                assert(ev->Or_0 == bools_view(terms@));
                assert(decreases_to!(ev => ev->Or_0));
            }
            let flat = distribute_each_or(terms);
            let cs = combine(&flat);
            let mut cls = disjunctions(cs);
            if cls.len() == 1 {
                cls.remove(0)
            } else {
                BoolExpr::And { terms: cls }
            }
        },
        BoolExpr::And { terms } => {
            proof {
                assert(ev->And_0 == bools_view(terms@));
                assert(decreases_to!(ev => ev->And_0));
            }
            BoolExpr::And { terms: distribute_each_and(terms) }
        },
        other => other,
    }
}

/// Converts an expression to conjunctive normal form: negations pushed down,
/// then disjunctions distributed over conjunctions. The result holds exactly
/// where the expression holds (`law_cnf_keeps_meaning`) and is in conjunctive
/// normal form (`law_cnf_shape`).
pub fn to_cnf(e: BoolExpr) -> (r: BoolExpr)
    ensures
        r@ == cnf(e@),
{
    distribute(push_negations(e))
}


// ---------------------------------------------------------------------------
// Environments, objects and atoms.
// ---------------------------------------------------------------------------

/// The variables of an environment, and the environment it falls back to
/// (by its index in the core) for names it does not bind.
pub struct CommonEnv {
    pub parent: Option<usize>,
    pub variables: Vec<(String, Slot)>,
}

impl CommonEnv {
    /// Creates an environment with no variables.
    pub fn new(parent: Option<usize>) -> (e: Self)
        ensures
            e.parent == parent,
            e.variables@.len() == 0,
    {
        CommonEnv { parent, variables: Vec::new() }
    }

    pub fn parent(&self) -> (r: Option<usize>)
        ensures
            r == self.parent,
    {
        self.parent
    }

    /// The value bound to `name` in this environment itself.
    pub fn get(&self, name: &String) -> (r: Option<Slot>)
        ensures
            r == bound(self.variables@, name@),
    {
        find_bound(&self.variables, name)
    }

    /// Binds `name` to `value`, shadowing an earlier binding.
    pub fn set(&mut self, name: String, value: Slot)
        ensures
            final(self).parent == old(self).parent,
            final(self).variables@ == old(self).variables@.push((name, value)),
            bound(final(self).variables@, name@) == Some(value),
            forall|n: Name| n != name@ ==> bound(#[trigger] final(self).variables@, n) == bound(
                old(self).variables@,
                n,
            ),
    {
        self.variables.push((name, value));
        proof {
            assert(self.variables@.drop_last() =~= old(self).variables@);
        }
    }
}

/// The value of `n` in environment `e` of the table `envs`: its binding there,
/// else in the environments it falls back to.
pub open spec fn env_lookup(envs: Seq<CommonEnv>, e: int, n: Name) -> Option<Slot>
    decreases e,
{
    if e < 0 || e >= envs.len() {
        None
    } else {
        match bound(envs[e].variables@, n) {
            Some(v) => Some(v),
            None => match envs[e].parent {
                Some(p) => if p < e {
                    env_lookup(envs, p as int, n)
                } else {
                    None
                },
                None => None,
            },
        }
    }
}

/// An object: its id, its class and its environment (by index in the core).
pub struct Object {
    pub id: ObjectId,
    pub class: TypeId,
    pub env: usize,
}

impl Object {
    pub fn new(id: ObjectId, class: TypeId, env: usize) -> (o: Self)
        ensures
            o.id == id,
            o.class == class,
            o.env == env,
    {
        Object { id, class, env }
    }

    pub fn id(&self) -> (r: ObjectId)
        ensures
            r == self.id,
    {
        self.id
    }

    pub fn class(&self) -> (r: TypeId)
        ensures
            r == self.class,
    {
        self.class
    }
}

/// An atom: its id, its predicate, whether it is a fact, and its environment.
pub struct Atom {
    pub id: AtomId,
    pub predicate: TypeId,
    pub fact: bool,
    pub env: usize,
}

impl Atom {
    pub fn new(id: AtomId, predicate: TypeId, fact: bool, env: usize) -> (a: Self)
        ensures
            a.id == id,
            a.predicate == predicate,
            a.fact == fact,
            a.env == env,
    {
        Atom { id, predicate, fact, env }
    }

    pub fn id(&self) -> (r: AtomId)
        ensures
            r == self.id,
    {
        self.id
    }

    pub fn predicate(&self) -> (r: TypeId)
        ensures
            r == self.predicate,
    {
        self.predicate
    }

    pub fn is_fact(&self) -> (r: bool)
        ensures
            r == self.fact,
    {
        self.fact
    }
}

} // verus!

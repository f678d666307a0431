//! Evaluating expressions and executing statements against a program and a
//! running state.
use crate::env::{
    AtomId, BoolExpr, Formula, cnf, ObjectId, Slot, TypeId, Var, bool_view, bools_view, env_lookup,
    to_cnf,
};
use crate::language::{Expr, Name, Path, SpecExpr, SpecStatement, Statement, exprs_view, inits_view, opt_expr_view, path_view};
use crate::runtime::{
    Core, Lookup, Program, SolverCall, State, TypeLookup, assignable, copy_path, envs_grow, get_type_by_path, lookup_error,
    get_var_by_path, is_assignable_from, lemma_envs_grow_refl, lemma_envs_grow_trans, quoted_message,
    scope_function, scope_predicate, scope_type, type_at_path, type_path_error, var_at_path,
};
use crate::scope::{CommonClass, Constructor, Field, Function, Predicate, Type, bound, name_of_type};
use crate::runtime::{lemma_bound_grows, same_path};
use crate::RiddleError;
use crate::env::{Atom, Object};
use crate::lexer::string_from_chars;
use crate::text::{decimal, path_text, push_decimal, push_path, push_str, slot_text};
use crate::grammar::{name_bool, name_int, name_real, name_string, problem_at};
use crate::language::{ProblemDef, SpecProblemDef, class_view, function_view, predicate_view, problem_view, stmts_view};
use crate::lexer::tokenize_spec;
use crate::runtime::tau_name;
use crate::scope::CommonScope;
use crate::parse_problem;
use vstd::prelude::*;

verus! {

/// The formula that a boolean expression stands for in environment `e`, when
/// the names it reads stand for formulas; none for other expressions.
pub open spec fn formula_of<C: Core>(st: State<C>, e: int, x: SpecExpr) -> Option<Formula>
    decreases x,
{
    match x {
        SpecExpr::QualifiedId { ids } => match var_at_path(st.envs@, st.objects@, st.atoms@, e, ids) {
            Lookup::Found(Slot::Primitive(Var::Formula(k))) => if k < st.formulas@.len() {
                Some(bool_view(st.formulas@[k as int]))
            } else {
                None
            },
            _ => None,
        },
        SpecExpr::Not { term } => match formula_of(st, e, *term) {
            Some(f) => Some(Formula::Not(Box::new(f))),
            None => None,
        },
        SpecExpr::And { terms } => match formulas_of(st, e, terms) {
            Some(fs) => Some(Formula::And(fs)),
            None => None,
        },
        SpecExpr::Or { terms } => match formulas_of(st, e, terms) {
            Some(fs) => Some(Formula::Or(fs)),
            None => None,
        },
        _ => None,
    }
}

/// The formulas of boolean expressions, when each stands for one.
pub open spec fn formulas_of<C: Core>(st: State<C>, e: int, xs: Seq<SpecExpr>) -> Option<Seq<Formula>>
    decreases xs,
{
    if xs.len() == 0 {
        Some(seq![])
    } else {
        match (formulas_of(st, e, xs.subrange(0, xs.len() - 1)), formula_of(st, e, xs[xs.len() - 1])) {
            (Some(fs), Some(f)) => Some(fs.push(f)),
            _ => None,
        }
    }
}

/// Whether `err` is the error for building the formula of `x` in
/// environment `e`: a name path's lookup error (see `lookup_error`); a name
/// that stands for a formula not made, not found; a name that stands for
/// another value, or an expression of another kind, a type error; a
/// negation's term's error; the first term's error among a conjunction's or
/// disjunction's (see `terms_error`).
pub open spec fn formula_error<C: Core>(st: State<C>, e: int, x: SpecExpr, err: RiddleError) -> bool
    decreases x,
{
    match x {
        SpecExpr::QualifiedId { ids } => match var_at_path(st.envs@, st.objects@, st.atoms@, e, ids) {
            Lookup::Found(Slot::Primitive(Var::Formula(k))) => k >= st.formulas@.len() && (err matches RiddleError::NotFound(
                m,
            ) && m@ == "Formula of "@ + "'"@ + ids[0] + "'"@ + " not found"@),
            Lookup::Found(_) => err matches RiddleError::TypeError(m) && m@ == "Expected a boolean expression"@,
            _ => lookup_error(st.envs@, st.objects@, st.atoms@, e, ids, err),
        },
        SpecExpr::Not { term } => formula_error(st, e, *term, err),
        SpecExpr::And { terms } => terms_error(st, e, terms, err),
        SpecExpr::Or { terms } => terms_error(st, e, terms, err),
        _ => err matches RiddleError::TypeError(m) && m@ == "Expected a boolean expression"@,
    }
}

/// Whether `err` is the error of the first of `xs` that stands for no
/// formula (see `formula_error`).
pub open spec fn terms_error<C: Core>(st: State<C>, e: int, xs: Seq<SpecExpr>, err: RiddleError) -> bool
    decreases xs,
{
    if xs.len() == 0 {
        false
    } else if formulas_of(st, e, xs.subrange(0, xs.len() - 1)) is None {
        terms_error(st, e, xs.subrange(0, xs.len() - 1), err)
    } else {
        formula_error(st, e, xs[xs.len() - 1], err)
    }
}

/// Whether `err` is the error for evaluating `x` in environment `e`: a name
/// path's lookup error, a formula's error (see `formula_error`), or a
/// runtime error for an expression of a kind that is not evaluated.
pub open spec fn eval_error<C: Core>(st: State<C>, e: int, x: SpecExpr, err: RiddleError) -> bool {
    match x {
        SpecExpr::Bool(_) => false,
        SpecExpr::QualifiedId { ids } => lookup_error(st.envs@, st.objects@, st.atoms@, e, ids, err),
        SpecExpr::Not { .. } | SpecExpr::And { .. } | SpecExpr::Or { .. } => formula_error(st, e, x, err),
        _ => err matches RiddleError::RuntimeError(m) && m@ == "Expression kind not supported by evaluation"@,
    }
}

/// The type of a value: `bool` for a formula, the solver value's type, the
/// class of an object or the predicate of an atom; none for an object or atom
/// that does not exist.
pub open spec fn slot_type<C: Core>(st: State<C>, s: Slot) -> Option<TypeId> {
    match s {
        Slot::Primitive(Var::Formula(_)) => Some(TypeId(0)),
        Slot::Primitive(Var::Value { var_type, .. }) => Some(var_type),
        Slot::ObjectRef(o) => if o.0 < st.objects@.len() {
            Some(st.objects@[o.0 as int].class)
        } else {
            None
        },
        Slot::AtomRef(a) => if a.0 < st.atoms@.len() {
            Some(st.atoms@[a.0 as int].predicate)
        } else {
            None
        },
    }
}

/// The formulas of `a` are the first ones of `b`.
pub open spec fn formulas_grow<C: Core>(a: State<C>, b: State<C>) -> bool {
    &&& a.formulas@.len() <= b.formulas@.len()
    &&& forall|k: int| 0 <= k < a.formulas@.len() ==> #[trigger] b.formulas@[k] == a.formulas@[k]
}

/// Whether fields of type `t` without default values can all be given one
/// without the solver deciding: a primitive type, or a class with exactly
/// one instance.
pub open spec fn defaults_owed<C: Core>(program: Program, st: State<C>, t: TypeId) -> bool {
    &&& default_possible(program, st, t)
    &&& (!class_scope_of(program, t) || all_instances(program, st.instances@, t, program.types@.len()).len() == 1)
}

/// Only formulas and the solver changed.
pub open spec fn same_places<C: Core>(a: State<C>, b: State<C>) -> bool {
    &&& a.envs == b.envs
    &&& a.objects == b.objects
    &&& a.atoms == b.atoms
    &&& a.instances == b.instances
}

/// The value `v` that evaluating `x` in environment `e` gives, from state `a`
/// to state `b`: a literal `true`/`false` is the value that one call of the
/// solver's `new_bool` gives; a name is the value it stands for; a negation,
/// conjunction or disjunction is a new formula, the one its names stand for.
pub open spec fn value_of<C: Core>(a: State<C>, b: State<C>, e: int, x: SpecExpr, v: Slot) -> bool {
    match x {
        SpecExpr::Bool(lit) => b.formulas == a.formulas && (v matches Slot::Primitive(Var::Value { var_type, handle })
            && var_type == TypeId(0) && b.solver.calls() == a.solver.calls().push(SolverCall::NewBool(lit, handle))),
        SpecExpr::QualifiedId { ids } => b.formulas == a.formulas && b.solver == a.solver && b.solver.calls() == a.solver.calls()
            && var_at_path(
            a.envs@,
            a.objects@,
            a.atoms@,
            e,
            ids,
        ) == Lookup::Found(v),
        SpecExpr::Not { .. } | SpecExpr::And { .. } | SpecExpr::Or { .. } => {
            &&& b.solver == a.solver
            &&& b.solver.calls() == a.solver.calls()
            &&& formula_of(a, e, x) is Some
            &&& v == Slot::Primitive(Var::Formula(a.formulas@.len() as usize))
            &&& b.formulas@.len() == a.formulas@.len() + 1
            &&& b.formulas@.subrange(0, a.formulas@.len() as int) == a.formulas@
            &&& bool_view(b.formulas@[a.formulas@.len() as int]) == formula_of(a, e, x)->0
        },
        _ => false,
    }
}

/// Evaluating `x` gives `v` and changes only formulas and the solver.
pub open spec fn evaluates_to<C: Core>(a: State<C>, b: State<C>, e: int, x: SpecExpr, v: Slot) -> bool {
    same_places(a, b) && value_of(a, b, e, x, v)
}

/// When evaluating `x` fails: a name path that does not lead to a value, a
/// negation, conjunction or disjunction of something other than formulas, or
/// an expression of a kind that is not evaluated (arithmetic, comparisons,
/// calls, strings, numbers, `new`).
pub open spec fn evaluation_fails<C: Core>(a: State<C>, e: int, x: SpecExpr) -> bool {
    match x {
        SpecExpr::Bool(_) => false,
        SpecExpr::QualifiedId { ids } => !(var_at_path(a.envs@, a.objects@, a.atoms@, e, ids) is Found),
        SpecExpr::Not { .. } | SpecExpr::And { .. } | SpecExpr::Or { .. } => formula_of(a, e, x) is None,
        _ => true,
    }
}

/// The formula of a boolean expression, built from copies of the formulas
/// its names stand for.
fn formula_tree<C: Core>(state: &State<C>, env: usize, expr: &Expr) -> (r: Result<BoolExpr, RiddleError>)
    ensures
        match r {
            Ok(f) => formula_of(*state, env as int, expr@) == Some(f@),
            Err(err) => formula_of(*state, env as int, expr@) is None && formula_error(*state, env as int, expr@, err),
        },
    decreases expr@,
{
    let ghost xv = expr@;
    match expr {
        Expr::QualifiedId { ids } => {
            let v = match get_var_by_path(state, env, ids) {
                Ok(v) => v,
                Err(e) => {
                    return Err(e);
                },
            };
            match v {
                Slot::Primitive(Var::Formula(k)) => {
                    if k < state.formulas.len() {
                        Ok(state.formulas[k].copy())
                    } else {
                        Err(RiddleError::NotFound(quoted_message("Formula of ", &ids[0], " not found")))
                    }
                },
                _ => Err(RiddleError::TypeError("Expected a boolean expression".to_owned())),
            }
        },
        Expr::Not { term } => {
            proof {
                assert(xv->Not_term == Box::new((**term)@));
                assert(decreases_to!(xv => xv->Not_term));
            }
            let t = formula_tree(state, env, term)?;
            Ok(BoolExpr::Not { term: Box::new(t) })
        },
        Expr::And { terms } => {
            proof {
                assert(xv->And_terms == crate::language::exprs_view(terms@));
                assert(decreases_to!(xv => xv->And_terms));
            }
            let out = formula_trees(state, env, terms)?;
            Ok(BoolExpr::And { terms: out })
        },
        Expr::Or { terms } => {
            proof {
                assert(xv->Or_terms == crate::language::exprs_view(terms@));
                assert(decreases_to!(xv => xv->Or_terms));
            }
            let out = formula_trees(state, env, terms)?;
            Ok(BoolExpr::Or { terms: out })
        },
        _ => Err(RiddleError::TypeError("Expected a boolean expression".to_owned())),
    }
}

fn formula_trees<C: Core>(state: &State<C>, env: usize, terms: &Vec<Expr>) -> (r: Result<Vec<BoolExpr>, RiddleError>)
    ensures
        match r {
            Ok(v) => formulas_of(*state, env as int, crate::language::exprs_view(terms@)) == Some(bools_view(v@)),
            Err(err) => formulas_of(*state, env as int, crate::language::exprs_view(terms@)) is None && terms_error(
                *state,
                env as int,
                crate::language::exprs_view(terms@),
                err,
            ),
        },
    decreases crate::language::exprs_view(terms@),
{
    let ghost tv = crate::language::exprs_view(terms@);
    let mut out: Vec<BoolExpr> = Vec::new();
    let mut j: usize = 0;
    proof {
        assert(tv.subrange(0, 0) =~= Seq::<SpecExpr>::empty());
        assert(bools_view(out@) =~= Seq::<Formula>::empty());
    }
    while j < terms.len()
        invariant
            j <= terms.len(),
            tv == crate::language::exprs_view(terms@),
            formulas_of(*state, env as int, tv.subrange(0, j as int)) == Some(bools_view(out@)),
        decreases terms.len() - j,
    {
        let ghost pre = tv.subrange(0, j + 1);
        proof {
            assert(pre.subrange(0, pre.len() - 1) =~= tv.subrange(0, j as int));
            assert(pre[pre.len() - 1] == tv[j as int]);
            assert(tv[j as int] == terms@[j as int]@);
            assert(decreases_to!(tv => tv[j as int]));
        }
        let f = match formula_tree(state, env, &terms[j]) {
            Ok(f) => f,
            Err(e) => {
                proof {
                    lemma_formulas_of_none(*state, env as int, tv, j as int);
                    lemma_terms_error(*state, env as int, tv, j as int, e);
                }
                return Err(e);
            },
        };
        let ghost ob = bools_view(out@);
        out.push(f);
        proof {
            assert(bools_view(out@) =~= ob.push(f@));
        }
        j = j + 1;
    }
    proof {
        assert(tv.subrange(0, terms.len() as int) =~= tv);
    }
    Ok(out)
}

/// The error of a list is that of its first term without a formula.
proof fn lemma_terms_error<C: Core>(st: State<C>, e: int, xs: Seq<SpecExpr>, j: int, err: RiddleError)
    requires
        0 <= j < xs.len(),
        formulas_of(st, e, xs.subrange(0, j)) is Some,
        formula_of(st, e, xs[j]) is None,
        formula_error(st, e, xs[j], err),
    ensures
        terms_error(st, e, xs, err),
    decreases xs.len(),
{
    let init = xs.subrange(0, xs.len() - 1);
    if j == xs.len() - 1 {
        assert(init =~= xs.subrange(0, j));
    } else {
        assert(init.subrange(0, j) =~= xs.subrange(0, j));
        assert(init[j] == xs[j]);
        lemma_formulas_of_none(st, e, init, j);
        lemma_terms_error(st, e, init, j, err);
    }
}

/// One expression that stands for no formula makes a list stand for none.
proof fn lemma_formulas_of_none<C: Core>(st: State<C>, e: int, xs: Seq<SpecExpr>, j: int)
    requires
        0 <= j < xs.len(),
        formula_of(st, e, xs[j]) is None,
    ensures
        formulas_of(st, e, xs) is None,
    decreases xs.len(),
{
    let init = xs.subrange(0, xs.len() - 1);
    if j < xs.len() - 1 {
        assert(init[j] == xs[j]);
        lemma_formulas_of_none(st, e, init, j);
    }
}

/// Evaluates an expression in environment `env`: a boolean literal, a name
/// path, or a negation, conjunction or disjunction of formulas.
pub fn evaluate<C: Core>(state: &mut State<C>, env: usize, expr: &Expr) -> (r: Result<Slot, RiddleError>)
    ensures
        match r {
            Ok(v) => evaluates_to(*old(state), *final(state), env as int, expr@, v),
            Err(err) => evaluation_fails(*old(state), env as int, expr@) && same_places(*old(state), *final(state))
                && final(state).formulas == old(state).formulas && final(state).solver.calls() == old(state).solver.calls()
                && eval_error(*old(state), env as int, expr@, err),
        },
        old(state).wf() ==> final(state).wf(),
        formulas_grow(*old(state), *final(state)),
{
    match expr {
        Expr::Bool(b) => {
            let h = state.solver.new_bool(*b);
            Ok(Slot::Primitive(Var::Value { var_type: TypeId(0), handle: h }))
        },
        Expr::QualifiedId { ids } => get_var_by_path(state, env, ids),
        Expr::Not { .. } | Expr::And { .. } | Expr::Or { .. } => {
            let f = formula_tree(state, env, expr)?;
            let k = state.formulas.len();
            state.formulas.push(f);
            proof {
                assert(state.formulas@.subrange(0, k as int) =~= old(state).formulas@);
            }
            Ok(Slot::Primitive(Var::Formula(k)))
        },
        _ => Err(RiddleError::RuntimeError("Expression kind not supported by evaluation".to_owned())),
    }
}


/// The type of a value (see `slot_type`); an object or atom that does not
/// exist is not found.
pub fn value_type<C: Core>(state: &State<C>, s: Slot) -> (r: Result<TypeId, RiddleError>)
    ensures
        match r {
            Ok(t) => slot_type(*state, s) == Some(t),
            Err(e) => slot_type(*state, s) is None && e is NotFound,
        },
{
    match s {
        Slot::Primitive(Var::Formula(_)) => Ok(TypeId(0)),
        Slot::Primitive(Var::Value { var_type, .. }) => Ok(var_type),
        Slot::ObjectRef(o) => match state.get_object(o) {
            Some(obj) => Ok(obj.class),
            None => Err(RiddleError::NotFound(numbered_message("Object with ID ", o.0, ""))),
        },
        Slot::AtomRef(a) => match state.get_atom(a) {
            Some(atom) => Ok(atom.predicate),
            None => Err(RiddleError::NotFound(numbered_message("Atom with ID ", a.0, ""))),
        },
    }
}

/// Whether evaluating `x` gives a formula: a name that stands for one, or a
/// negation, conjunction or disjunction of formulas.
pub open spec fn gives_formula<C: Core>(a: State<C>, e: int, x: SpecExpr) -> bool {
    match x {
        SpecExpr::QualifiedId { ids } => var_at_path(a.envs@, a.objects@, a.atoms@, e, ids) matches Lookup::Found(
            Slot::Primitive(Var::Formula(k)),
        ) && k < a.formulas@.len(),
        SpecExpr::Not { .. } | SpecExpr::And { .. } | SpecExpr::Or { .. } => formula_of(a, e, x) is Some,
        _ => false,
    }
}

/// Whether each parent path of class `t` names a class, from the scope of
/// the class's members.
pub open spec fn parents_resolve(program: Program, t: TypeId) -> bool {
    let c = program.types@[t.0 as int]->Class_0;
    forall|k: int|
        0 <= k < c.parents@.len() ==> (type_at_path(
            program.types@,
            program.scopes@,
            c.scope as int,
            path_view((#[trigger] c.parents@[k])@),
        ) matches TypeLookup::Found(pt) && class_scope_of(program, pt))
}

/// The instance records that a new object `o` of class `t` adds for the
/// parent classes of `t`, in the order of the parents.
pub open spec fn parent_records(program: Program, t: TypeId, o: ObjectId) -> Seq<(TypeId, ObjectId)> {
    let c = program.types@[t.0 as int]->Class_0;
    Seq::new(
        c.parents@.len(),
        |k: int|
            (type_at_path(program.types@, program.scopes@, c.scope as int, path_view(c.parents@[k]@))->Found_0, o),
    )
}

/// A new instance of a type: a new boolean term (a formula over a new
/// variable of the solver) for `bool`; a new variable of the solver for
/// `int`, `real` and `string`; for a class, a new object, recorded as an
/// instance of the class and of each of its parent classes. A predicate has
/// no instance.
pub fn new_instance<C: Core>(program: &Program, state: &mut State<C>, t: TypeId) -> (r: Result<Slot, RiddleError>)
    requires
        class_scope_of(*program, t) ==> parents_resolve(*program, t),
    ensures
        !class_scope_of(*program, t) ==> same_places(*old(state), *final(state)),
        old(state).wf() ==> final(state).wf(),
        formulas_grow(*old(state), *final(state)),
        match r {
            Ok(v) => t.0 < program.types@.len() && {
                let ty = program.types@[t.0 as int];
                if ty is Bool {
                    v == Slot::Primitive(Var::Formula(old(state).formulas@.len() as usize))
                        && final(state).formulas@.len() == old(state).formulas@.len() + 1
                        && final(state).formulas@.subrange(0, old(state).formulas@.len() as int)
                        == old(state).formulas@ && (final(state).formulas@[old(state).formulas@.len() as int]@ matches Formula::Term(
                        Slot::Primitive(Var::Value { var_type, handle }),
                    ) && var_type == TypeId(0) && final(state).solver.calls() == old(state).solver.calls().push(SolverCall::NewBoolVar(handle)))
                } else if ty is Class {
                    let o = ObjectId(old(state).objects@.len() as usize);
                    &&& v == Slot::ObjectRef(o)
                    &&& final(state).objects@ == old(state).objects@.push(
                        Object { id: o, class: t, env: old(state).envs@.len() as usize },
                    )
                    &&& final(state).instances@ == old(state).instances@.push((t, o)) + parent_records(*program, t, o)
                    &&& final(state).envs@.len() == old(state).envs@.len() + 1
                    &&& final(state).envs@.subrange(0, old(state).envs@.len() as int) == old(state).envs@
                    &&& final(state).atoms == old(state).atoms
                    &&& final(state).formulas == old(state).formulas
                    &&& final(state).solver.calls() == old(state).solver.calls()
                } else {
                    (ty is Int || ty is Real || ty is String) && final(state).formulas == old(state).formulas && (v matches Slot::Primitive(
                        Var::Value { var_type, handle },
                    ) && var_type == t && final(state).solver.calls() == old(state).solver.calls().push(
                        if ty is Int {
                            SolverCall::NewIntVar(handle)
                        } else if ty is Real {
                            SolverCall::NewRealVar(handle)
                        } else {
                            SolverCall::NewStringVar(handle)
                        },
                    ))
                }
            },
            Err(e) => e is TypeError && *final(state) == *old(state) && !(t.0 < program.types@.len()
                && (program.types@[t.0 as int] is Bool || program.types@[t.0 as int] is Int
                || program.types@[t.0 as int] is Real || program.types@[t.0 as int] is String
                || program.types@[t.0 as int] is Class)),
        },
{
    if t.0 >= program.types.len() {
        return Err(RiddleError::TypeError("Unknown type".to_owned()));
    }
    match &program.types[t.0] {
        Type::Bool(_) => {
            let h = state.solver.new_bool_var();
            let k = state.formulas.len();
            state.formulas.push(BoolExpr::Term { term: Slot::Primitive(Var::Value { var_type: TypeId(0), handle: h }) });
            proof {
                assert(state.formulas@.subrange(0, k as int) =~= old(state).formulas@);
            }
            Ok(Slot::Primitive(Var::Formula(k)))
        },
        Type::Int(_) => {
            let h = state.solver.new_int_var();
            Ok(Slot::Primitive(Var::Value { var_type: t, handle: h }))
        },
        Type::Real(_) => {
            let h = state.solver.new_real_var();
            Ok(Slot::Primitive(Var::Value { var_type: t, handle: h }))
        },
        Type::String(_) => {
            let h = state.solver.new_string_var();
            Ok(Slot::Primitive(Var::Value { var_type: t, handle: h }))
        },
        Type::Class(c) => {
            let ghost s0 = *state;
            let o = state.new_object(t);
            state.instances.push((t, o));
            let ghost base = state.instances@;
            proof {
                assert(base == s0.instances@.push((t, o)));
                assert(state.envs@.subrange(0, s0.envs@.len() as int) =~= s0.envs@);
            }
            let ghost recs = parent_records(*program, t, o);
            let mut k: usize = 0;
            while k < c.parents.len()
                invariant
                    program.types@[t.0 as int] == Type::Class(*c),
                    parents_resolve(*program, t),
                    recs == parent_records(*program, t, o),
                    k <= c.parents@.len(),
                    state.instances@ == base + recs.subrange(0, k as int),
                    state.objects@ == old(state).objects@.push(
                        Object { id: o, class: t, env: old(state).envs@.len() as usize },
                    ),
                    o == ObjectId(old(state).objects@.len() as usize),
                    state.envs@.len() == old(state).envs@.len() + 1,
                    state.envs@.subrange(0, old(state).envs@.len() as int) == old(state).envs@,
                    state.atoms == old(state).atoms,
                    state.formulas == old(state).formulas,
                    state.solver.calls() == old(state).solver.calls(),
                    old(state).wf() ==> state.wf(),
                decreases c.parents.len() - k,
            {
                let pt = match get_type_by_path(program, c.scope, &c.parents[k]) {
                    Ok(pt) => pt,
                    Err(_) => {
                        proof {
                            assert(type_at_path(
                                program.types@,
                                program.scopes@,
                                c.scope as int,
                                path_view(c.parents@[k as int]@),
                            ) is Found);
                        }
                        return Err(RiddleError::NotAClass("Parent class not found".to_owned()));
                    },
                };
                let ghost before = state.instances@;
                state.instances.push((pt, o));
                proof {
                    assert(recs[k as int] == (pt, o));
                    assert(recs.subrange(0, k + 1) =~= recs.subrange(0, k as int).push((pt, o)));
                }
                k = k + 1;
            }
            proof {
                assert(recs.subrange(0, recs.len() as int) =~= recs);
            }
            Ok(Slot::ObjectRef(o))
        },
        Type::Predicate(_) => Err(RiddleError::TypeError("A predicate has no instance".to_owned())),
    }
}

/// The instances recorded for class `t`.
pub open spec fn own_instances(inst: Seq<(TypeId, ObjectId)>, t: TypeId) -> Seq<ObjectId>
    decreases inst.len(),
{
    if inst.len() == 0 {
        seq![]
    } else {
        own_instances(inst.drop_last(), t) + if inst.last().0 == t {
            seq![inst.last().1]
        } else {
            seq![]
        }
    }
}

/// The instances recorded for class `t`.
fn recorded_instances<C: Core>(state: &State<C>, t: TypeId) -> (r: Vec<ObjectId>)
    ensures
        r@ == own_instances(state.instances@, t),
{
    let mut r: Vec<ObjectId> = Vec::new();
    let mut i: usize = 0;
    while i < state.instances.len()
        invariant
            i <= state.instances@.len(),
            r@ == own_instances(state.instances@.subrange(0, i as int), t),
        decreases state.instances.len() - i,
    {
        let ghost pre = state.instances@.subrange(0, i + 1);
        proof {
            assert(pre.drop_last() =~= state.instances@.subrange(0, i as int));
            assert(pre.last() == state.instances@[i as int]);
        }
        let ghost rb = r@;
        if state.instances[i].0 == t {
            r.push(state.instances[i].1);
            proof {
                assert(r@ =~= rb + seq![state.instances@[i as int].1]);
            }
        } else {
            proof {
                assert(r@ =~= rb + Seq::<ObjectId>::empty());
            }
        }
        i = i + 1;
    }
    proof {
        assert(state.instances@.subrange(0, state.instances@.len() as int) =~= state.instances@);
    }
    r
}

/// The class that a parent path names, looked up by its dotted name in the
/// core's scope; none when that name is not bound to a class there.
pub open spec fn parent_class(program: Program, p: Vec<String>) -> Option<TypeId> {
    match scope_type(program.scopes@, 0, path_text(path_view(p@))) {
        Some(pt) => if class_scope_of(program, pt) {
            Some(pt)
        } else {
            None
        },
        None => None,
    }
}

/// The instances of class `t`: those recorded for it, then those of each of
/// its parent classes in turn (see `parent_class`), following parents at most
/// `fuel` times.
pub open spec fn all_instances(program: Program, inst: Seq<(TypeId, ObjectId)>, t: TypeId, fuel: nat) -> Seq<ObjectId>
    decreases fuel, 0nat, 0nat,
{
    own_instances(inst, t) + if fuel > 0 && class_scope_of(program, t) {
        parents_instances(program, inst, program.types@[t.0 as int]->Class_0.parents@, (fuel - 1) as nat)
    } else {
        seq![]
    }
}

/// The instances of the classes that the parent paths `ps` name, in turn.
pub open spec fn parents_instances(program: Program, inst: Seq<(TypeId, ObjectId)>, ps: Seq<Vec<String>>, fuel: nat) -> Seq<
    ObjectId,
>
    decreases fuel, 1nat, ps.len(),
{
    if ps.len() == 0 {
        seq![]
    } else {
        parents_instances(program, inst, ps.drop_last(), fuel) + match parent_class(program, ps.last()) {
            Some(pt) => all_instances(program, inst, pt, fuel),
            None => seq![],
        }
    }
}

/// The class that parent path `p` names (see `parent_class`).
fn find_parent_class(program: &Program, p: &Vec<String>) -> (r: Option<TypeId>)
    ensures
        r == parent_class(*program, *p),
{
    let mut out: Vec<char> = Vec::new();
    push_path(&mut out, p);
    let name = string_from_chars(&out);
    match program.get_type(0, &name) {
        Some(pt) => {
            let is_class = pt.0 < program.types.len() && match &program.types[pt.0] {
                Type::Class(_) => true,
                _ => false,
            };
            if is_class {
                Some(pt)
            } else {
                None
            }
        },
        None => None,
    }
}

/// The instances of class `t` (see `all_instances`), following parents at
/// most `fuel` times.
fn instances_within<C: Core>(program: &Program, state: &State<C>, t: TypeId, fuel: usize) -> (r: Vec<ObjectId>)
    ensures
        r@ == all_instances(*program, state.instances@, t, fuel as nat),
    decreases fuel,
{
    let mut r = recorded_instances(state, t);
    let is_class = t.0 < program.types.len() && match &program.types[t.0] {
        Type::Class(_) => true,
        _ => false,
    };
    if fuel == 0 || !is_class {
        proof {
            assert(r@ =~= all_instances(*program, state.instances@, t, fuel as nat));
        }
        return r;
    }
    let c = match &program.types[t.0] {
        Type::Class(c) => c,
        _ => {
            return r;
        },
    };
    let ghost own = r@;
    let ghost ps = c.parents@;
    let mut k: usize = 0;
    while k < c.parents.len()
        invariant
            k <= ps.len(),
            ps == c.parents@,
            fuel > 0,
            r@ == own + parents_instances(*program, state.instances@, ps.subrange(0, k as int), (fuel - 1) as nat),
        decreases c.parents.len() - k,
    {
        proof {
            assert(ps.subrange(0, k + 1).drop_last() =~= ps.subrange(0, k as int));
            assert(ps.subrange(0, k + 1).last() == ps[k as int]);
        }
        match find_parent_class(program, &c.parents[k]) {
            Some(pt) => {
                let more = instances_within(program, state, pt, fuel - 1);
                let ghost before = r@;
                let mut m: usize = 0;
                while m < more.len()
                    invariant
                        m <= more@.len(),
                        r@ == before + more@.subrange(0, m as int),
                    decreases more.len() - m,
                {
                    r.push(more[m]);
                    proof {
                        assert(more@.subrange(0, m + 1) =~= more@.subrange(0, m as int).push(more@[m as int]));
                    }
                    m = m + 1;
                }
                proof {
                    assert(more@.subrange(0, more@.len() as int) =~= more@);
                }
            },
            None => {
                proof {
                    assert(r@ =~= r@ + Seq::<ObjectId>::empty());
                }
            },
        }
        k = k + 1;
    }
    proof {
        assert(ps.subrange(0, ps.len() as int) =~= ps);
        assert(r@ =~= all_instances(*program, state.instances@, t, fuel as nat));
    }
    r
}

/// The instances of class `t`: those recorded for it, then those of its
/// parent classes (see `all_instances`), following parents as many times as
/// there are types.
pub fn class_instances<C: Core>(program: &Program, state: &State<C>, t: TypeId) -> (r: Vec<ObjectId>)
    ensures
        r@ == all_instances(*program, state.instances@, t, program.types@.len()),
{
    instances_within(program, state, t, program.types.len())
}

/// Whether a field of type `t` can go without a default value: a class
/// needs an instance, any other type must be primitive.
pub open spec fn default_possible<C: Core>(program: Program, st: State<C>, t: TypeId) -> bool {
    if class_scope_of(program, t) {
        all_instances(program, st.instances@, t, program.types@.len()).len() >= 1
    } else {
        t.0 < program.types@.len() && {
            let ty = program.types@[t.0 as int];
            ty is Bool || ty is Int || ty is Real || ty is String
        }
    }
}

/// What a declared field of type `t` may be bound to: with a default value,
/// a value whose type is assignable to `t`; without one, the single instance
/// of the class, a variable of the solver of type `t` when the class has
/// several, a new formula for `bool` and a new value of the solver of type
/// `t` for the other primitive types.
pub open spec fn field_value<C: Core>(program: Program, st: State<C>, t: TypeId, has_default: bool, v: Slot) -> bool {
    if has_default {
        slot_type(st, v) matches Some(vt) && assignable(program.types@, t, vt)
    } else if class_scope_of(program, t) {
        let inst = all_instances(program, st.instances@, t, program.types@.len());
        ||| (inst.len() == 1 && v == Slot::ObjectRef(inst[0]))
        ||| (inst.len() > 1 && (v matches Slot::Primitive(Var::Value { var_type, .. }) && var_type == t))
    } else {
        t.0 < program.types@.len() && if program.types@[t.0 as int] is Bool {
            v matches Slot::Primitive(Var::Formula(_))
        } else {
            v matches Slot::Primitive(Var::Value { var_type, .. }) && var_type == t
        }
    }
}

/// What giving a field of type `t` a value without a default does, from `a`
/// to `b`, giving `v`: for a class, its single instance, or a variable of the
/// solver over its instances when it has several; for `bool`, a new formula
/// over a new boolean variable; for `int`, `real` and `string`, a new variable
/// of the solver of that type. Nothing else changes.
pub open spec fn default_given<C: Core>(program: Program, a: State<C>, b: State<C>, t: TypeId, v: Slot) -> bool {
    &&& same_places(a, b)
    &&& if class_scope_of(program, t) {
        let inst = all_instances(program, a.instances@, t, program.types@.len());
        &&& b.formulas == a.formulas
        &&& {
            ||| (inst.len() == 1 && v == Slot::ObjectRef(inst[0]) && b.solver.calls() == a.solver.calls())
            ||| (inst.len() > 1 && (v matches Slot::Primitive(Var::Value { var_type, handle }) && var_type == t
                && b.solver.calls() == a.solver.calls().push(SolverCall::NewVar(t, inst, Some(handle)))))
        }
    } else {
        t.0 < program.types@.len() && {
            let ty = program.types@[t.0 as int];
            if ty is Bool {
                v == Slot::Primitive(Var::Formula(a.formulas@.len() as usize)) && b.formulas@.len() == a.formulas@.len() + 1
                    && b.formulas@.subrange(0, a.formulas@.len() as int) == a.formulas@ && (b.formulas@[a.formulas@.len() as int]@ matches Formula::Term(
                    Slot::Primitive(Var::Value { var_type, handle }),
                ) && var_type == TypeId(0) && b.solver.calls() == a.solver.calls().push(SolverCall::NewBoolVar(handle)))
            } else {
                (ty is Int || ty is Real || ty is String) && b.formulas == a.formulas && (v matches Slot::Primitive(
                    Var::Value { var_type, handle },
                ) && var_type == t && b.solver.calls() == a.solver.calls().push(
                    if ty is Int {
                        SolverCall::NewIntVar(handle)
                    } else if ty is Real {
                        SolverCall::NewRealVar(handle)
                    } else {
                        SolverCall::NewStringVar(handle)
                    },
                ))
            }
        }
    }
}

/// Whether `err` is the error for giving field `n` of type `t` a value
/// without a default, from `a` to `b`: a class without instances gives a
/// runtime error naming the field; with several, the solver refused the
/// variable; a type that is neither a class nor primitive gives a type error.
pub open spec fn default_error<C: Core>(program: Program, a: State<C>, b: State<C>, t: TypeId, n: Name, err: RiddleError) -> bool {
    &&& same_places(a, b)
    &&& b.formulas == a.formulas
    &&& if class_scope_of(program, t) {
        let inst = all_instances(program, a.instances@, t, program.types@.len());
        ||| (inst.len() == 0 && b.solver.calls() == a.solver.calls() && (err matches RiddleError::RuntimeError(m) && m@
            == "No instances found for field "@ + "'"@ + n + "'"@ + ""@))
        ||| (inst.len() > 1 && b.solver.calls() == a.solver.calls().push(SolverCall::NewVar(t, inst, None)))
    } else {
        !default_possible(program, a, t) && err is TypeError && b == a
    }
}

/// What a field gets without a default value: the single instance of its
/// class, a variable of the solver over its instances when it has several, a
/// fresh value of its primitive type otherwise.
fn default_value<C: Core>(program: &Program, state: &mut State<C>, t: TypeId, name: &String) -> (r: Result<Slot, RiddleError>)
    ensures
        same_places(*old(state), *final(state)),
        old(state).wf() ==> final(state).wf(),
        formulas_grow(*old(state), *final(state)),
        r matches Ok(Slot::Primitive(Var::Formula(k))) ==> k < final(state).formulas@.len(),
        r is Ok && class_scope_of(*program, t) ==> {
            let inst = all_instances(*program, old(state).instances@, t, program.types@.len());
            ||| (inst.len() == 1 && r == Ok::<Slot, RiddleError>(Slot::ObjectRef(inst[0])))
            ||| (inst.len() > 1 && (r->Ok_0 matches Slot::Primitive(Var::Value { var_type, .. }) && var_type == t))
        },
        class_scope_of(*program, t) && all_instances(*program, old(state).instances@, t, program.types@.len()).len() == 0
            ==> r is Err,
        r is Ok ==> default_possible(*program, *old(state), t),
        r is Ok ==> field_value(*program, *old(state), t, false, r->Ok_0),
        r matches Ok(v) ==> default_given(*program, *old(state), *final(state), t, v),
        r matches Err(err) ==> default_error(*program, *old(state), *final(state), t, name@, err),
        !default_possible(*program, *old(state), t) ==> r is Err,
        default_possible(*program, *old(state), t) && !class_scope_of(*program, t) ==> r is Ok,
        class_scope_of(*program, t) && all_instances(*program, old(state).instances@, t, program.types@.len()).len() == 1
            ==> r == Ok::<Slot, RiddleError>(
            Slot::ObjectRef(all_instances(*program, old(state).instances@, t, program.types@.len())[0]),
        ),
        class_scope_of(*program, t) && all_instances(*program, old(state).instances@, t, program.types@.len()).len() <= 1
            ==> final(state).solver.calls() == old(state).solver.calls(),
        class_scope_of(*program, t) && all_instances(*program, old(state).instances@, t, program.types@.len()).len() > 1
            ==> ({
            let inst = all_instances(*program, old(state).instances@, t, program.types@.len());
            &&& r is Ok ==> (r->Ok_0 matches Slot::Primitive(Var::Value { var_type, handle }) && var_type == t
                && final(state).solver.calls() == old(state).solver.calls().push(SolverCall::NewVar(t, inst, Some(handle))))
            &&& r is Err ==> final(state).solver.calls() == old(state).solver.calls().push(SolverCall::NewVar(t, inst, None))
        }),
{
    let is_class = t.0 < program.types.len() && match &program.types[t.0] {
        Type::Class(_) => true,
        _ => false,
    };
    if is_class {
        let instances = class_instances(program, state, t);
        if instances.len() == 0 {
            Err(RiddleError::RuntimeError(quoted_message("No instances found for field ", name, "")))
        } else if instances.len() == 1 {
            Ok(Slot::ObjectRef(instances[0]))
        } else {
            let res = state.solver.new_var(t, &instances);
            let h = res?;
            Ok(Slot::Primitive(Var::Value { var_type: t, handle: h }))
        }
    } else {
        new_instance(program, state, t)
    }
}

pub open spec fn class_scope_of(program: Program, t: TypeId) -> bool {
    t.0 < program.types@.len() && program.types@[t.0 as int] is Class
}

/// No field after the `k`-th, up to the `i`-th, has its name.
pub open spec fn unshadowed(fields: Seq<(Name, Option<SpecExpr>)>, k: int, i: int) -> bool {
    forall|m: int| k < m < i ==> (#[trigger] fields[m]).0 != fields[k].0
}

/// The name of `f` is bound in environment `e` to a value that a field of
/// type `t` declared as `f` may get (see `field_value`).
pub open spec fn field_bound<C: Core>(
    program: Program,
    before: State<C>,
    after: State<C>,
    e: int,
    t: TypeId,
    f: (Name, Option<SpecExpr>),
) -> bool {
    exists|v: Slot|
        env_lookup(after.envs@, e, f.0) == Some(v) && field_value(program, before, t, f.1 is Some, v) && (f.1 is None
            ==> (v matches Slot::Primitive(Var::Formula(k)) ==> k < after.formulas@.len()))
}

/// What declaring `fields` of type `field_type` in scope `scope` and
/// environment `e` leaves: the type is found; a field without a default value
/// can have one (see `default_possible`); the name of each field that no later
/// one redeclares is bound to a value that the field may get.
pub open spec fn fields_declared<C: Core>(
    program: Program,
    before: State<C>,
    after: State<C>,
    scope: int,
    e: int,
    field_type: Path,
    fields: Seq<(Name, Option<SpecExpr>)>,
) -> bool {
    let l = type_at_path(program.types@, program.scopes@, scope, field_type);
    &&& l is Found
    &&& forall|k: int| 0 <= k < fields.len() && (#[trigger] fields[k]).1 is None ==> default_possible(program, before, l->Found_0)
    &&& forall|k: int|
        0 <= k < fields.len() && #[trigger] unshadowed(fields, k, fields.len() as int) ==> field_bound(
            program,
            before,
            after,
            e,
            l->Found_0,
            fields[k],
        )
}

/// Binding name `n` to `v` in environment `e` takes `a` to `b`: the binding
/// comes last in `e`, and nothing else changes.
pub open spec fn binds<C: Core>(a: State<C>, b: State<C>, e: int, n: Name, v: Slot) -> bool {
    &&& 0 <= e < a.envs@.len()
    &&& b.envs@.len() == a.envs@.len()
    &&& forall|k: int| 0 <= k < a.envs@.len() && k != e ==> #[trigger] b.envs@[k] == a.envs@[k]
    &&& b.envs@[e].parent == a.envs@[e].parent
    &&& b.envs@[e].variables@.len() == a.envs@[e].variables@.len() + 1
    &&& b.envs@[e].variables@.drop_last() == a.envs@[e].variables@
    &&& b.envs@[e].variables@.last().0@ == n
    &&& b.envs@[e].variables@.last().1 == v
    &&& b.objects == a.objects
    &&& b.atoms == a.atoms
    &&& b.formulas == a.formulas
    &&& b.instances == a.instances
    &&& b.solver == a.solver
}

/// Declaring field `f` of type `t` in environment `e`, from `a` to `b`
/// through `mid`, binds it to `v`: its default evaluated (from `a` to
/// `mid`), of a type assignable to `t`; without a default, what
/// `default_given` gives.
pub open spec fn field_step_via<C: Core>(
    program: Program,
    a: State<C>,
    b: State<C>,
    e: int,
    t: TypeId,
    f: (Name, Option<SpecExpr>),
    mid: State<C>,
    v: Slot,
) -> bool {
    &&& match f.1 {
        Some(d) => evaluates_to(a, mid, e, d, v) && (slot_type(mid, v) matches Some(vt) && assignable(
            program.types@,
            t,
            vt,
        )),
        None => default_given(program, a, mid, t, v),
    }
    &&& binds(mid, b, e, f.0, v)
}

/// Declaring field `f` of type `t` in environment `e` takes `a` to `b` (see
/// `field_step_via`).
pub open spec fn field_step<C: Core>(program: Program, a: State<C>, b: State<C>, e: int, t: TypeId, f: (Name, Option<SpecExpr>)) -> bool {
    exists|mid: State<C>, v: Slot| #[trigger] field_step_via(program, a, b, e, t, f, mid, v)
}

/// Whether declaring field `f` of type `t` in environment `e` fails with
/// `err`, from `a` to `b`: its default does not evaluate (the evaluation's
/// error), evaluates to an object or atom that does not exist, or to a value
/// of a type not assignable to `t` (a type error naming the field); without a
/// default, no value can be given (see `default_error`).
pub open spec fn field_step_error<C: Core>(
    program: Program,
    a: State<C>,
    b: State<C>,
    e: int,
    t: TypeId,
    f: (Name, Option<SpecExpr>),
    err: RiddleError,
) -> bool {
    match f.1 {
        Some(d) => {
            ||| (evaluation_fails(a, e, d) && eval_error(a, e, d, err) && same_places(a, b) && b.formulas == a.formulas
                && b.solver.calls() == a.solver.calls())
            ||| exists|v: Slot|
                #[trigger] evaluates_to(a, b, e, d, v) && match slot_type(b, v) {
                    None => err is NotFound,
                    Some(vt) => !assignable(program.types@, t, vt) && (err matches RiddleError::TypeError(m) && m@
                        == "Default value for field "@ + "'"@ + f.0 + "'"@ + " is not assignable to the field type"@),
                }
        },
        None => default_error(program, a, b, t, f.0, err),
    }
}

/// The states `ch` that declaring `fields` of type `t` one after the other in
/// environment `e` goes through: one step per field.
pub open spec fn fields_chain<C: Core>(program: Program, ch: Seq<State<C>>, e: int, t: TypeId, fields: Seq<(Name, Option<SpecExpr>)>) -> bool {
    &&& ch.len() == fields.len() + 1
    &&& forall|k: int| 0 <= k < fields.len() ==> #[trigger] field_step(program, ch[k], ch[k + 1], e, t, fields[k])
}

/// The states `ch` that declaring `fields` goes through up to the first that
/// fails, with error `err`, the last step.
pub open spec fn fields_failed<C: Core>(
    program: Program,
    ch: Seq<State<C>>,
    e: int,
    t: TypeId,
    fields: Seq<(Name, Option<SpecExpr>)>,
    err: RiddleError,
) -> bool {
    let j = ch.len() - 2;
    &&& 0 <= j < fields.len()
    &&& forall|k: int| 0 <= k < j ==> #[trigger] field_step(program, ch[k], ch[k + 1], e, t, fields[k])
    &&& field_step_error(program, ch[j], ch[j + 1], e, t, fields[j], err)
}

/// What declaring local fields `fields` of type `field_type` in scope
/// `scope` and environment `e` does, from `a` to `b`, with result `r`: when
/// the type is not found, the lookup's error and nothing changes; else each
/// field is declared in turn (see `field_step`) until one fails, whose error
/// is the result.
pub open spec fn local_fields_outcome<C: Core>(
    program: Program,
    a: State<C>,
    b: State<C>,
    scope: int,
    e: int,
    field_type: Path,
    fields: Seq<(Name, Option<SpecExpr>)>,
    r: Result<(), RiddleError>,
) -> bool {
    let l = type_at_path(program.types@, program.scopes@, scope, field_type);
    &&& !(l is Found) ==> (r matches Err(err) && type_path_error(program, scope, field_type, err) && b == a)
    &&& r is Ok ==> exists|t: TypeId, ch: Seq<State<C>>|
        #[trigger] fields_chain(program, ch, e, t, fields) && l == TypeLookup::Found(t) && ch[0] == a && ch.last() == b
    &&& l is Found ==> (r matches Err(err) ==> exists|t: TypeId, ch: Seq<State<C>>|
        #[trigger] fields_failed(program, ch, e, t, fields, err) && l == TypeLookup::Found(t) && ch[0] == a && ch.last()
            == b)
}

/// Declares local fields of type `field_type` in environment `env`, each
/// bound to its default value (which must be assignable to the type) or,
/// without one, to what `default_value` gives.
#[verifier::rlimit(50)]
fn execute_local_field<C: Core>(
    program: &Program,
    state: &mut State<C>,
    scope: usize,
    env: usize,
    field_type: &Vec<String>,
    fields: &Vec<(String, Option<Expr>)>,
) -> (r: Result<(), RiddleError>)
    requires
        old(state).wf(),
        env < old(state).envs@.len(),
    ensures
        final(state).wf(),
        final(state).envs@.len() == old(state).envs@.len(),
        final(state).objects == old(state).objects,
        final(state).atoms == old(state).atoms,
        final(state).instances == old(state).instances,
        envs_grow(*old(state), *final(state)),
        !(type_at_path(program.types@, program.scopes@, scope as int, path_view(field_type@)) is Found) ==> r is Err,
        r is Ok ==> forall|k: int|
            0 <= k < fields@.len() ==> env_lookup(final(state).envs@, env as int, (#[trigger] fields@[k]).0@) is Some,
        r is Ok ==> fields_declared(
            *program,
            *old(state),
            *final(state),
            scope as int,
            env as int,
            path_view(field_type@),
            inits_view(fields@),
        ),
        formulas_grow(*old(state), *final(state)),
        local_fields_outcome(
            *program,
            *old(state),
            *final(state),
            scope as int,
            env as int,
            path_view(field_type@),
            inits_view(fields@),
            r,
        ),
        (type_at_path(program.types@, program.scopes@, scope as int, path_view(field_type@)) matches TypeLookup::Found(t)
            && defaults_owed(*program, *old(state), t) && forall|k: int| 0 <= k < fields@.len() ==> (#[trigger] fields@[k]).1 is None)
            ==> r is Ok,
{
    let ghost s0 = *state;
    proof {
        lemma_envs_grow_refl(s0, s0);
    }
    let t = match get_type_by_path(program, scope, field_type) {
        Ok(t) => t,
        Err(e) => {
            return Err(e);
        },
    };
    let ghost fv = inits_view(fields@);
    let ghost mut ch: Seq<State<C>> = seq![*state];
    let mut i: usize = 0;
    while i < fields.len()
        invariant
            state.wf(),
            s0 == *old(state),
            envs_grow(s0, *state),
            i <= fields.len(),
            env < state.envs@.len(),
            state.envs@.len() == old(state).envs@.len(),
            state.objects == old(state).objects,
            state.atoms == old(state).atoms,
            state.instances == old(state).instances,
            forall|k: int| 0 <= k < i ==> env_lookup(state.envs@, env as int, (#[trigger] fields@[k]).0@) is Some,
            type_at_path(program.types@, program.scopes@, scope as int, path_view(field_type@)) == TypeLookup::Found(t),
            fv == inits_view(fields@),
            forall|k: int| 0 <= k < i && (#[trigger] fv[k]).1 is None ==> default_possible(*program, s0, t),
            formulas_grow(s0, *state),
            forall|k: int|
                0 <= k < i && #[trigger] unshadowed(fv, k, i as int) ==> field_bound(
                    *program,
                    s0,
                    *state,
                    env as int,
                    t,
                    fv[k],
                ),
            ch.len() == i + 1,
            ch[0] == s0,
            ch.last() == *state,
            forall|k: int| 0 <= k < i ==> #[trigger] field_step(*program, ch[k], ch[k + 1], env as int, t, fv[k]),
        decreases fields.len() - i,
    {
        let ghost sa = *state;
        proof {
            assert(fv[i as int] == (fields@[i as int].0@, crate::language::opt_expr_view(fields@[i as int].1)));
        }
        let value = match &fields[i].1 {
            Some(expr) => {
                let v = match evaluate(state, env, expr) {
                    Ok(v) => v,
                    Err(e) => {
                        proof {
                            let ch2 = ch.push(*state);
                            assert(field_step_error(*program, ch2[i as int], ch2[i + 1], env as int, t, fv[i as int], e));
                            assert(fields_failed(*program, ch2, env as int, t, fv, e));
                            assert(ch2[0] == s0 && ch2.last() == *state);
                        }
                        return Err(e);
                    },
                };
                let vt = match value_type(state, v) {
                    Ok(vt) => vt,
                    Err(e) => {
                        proof {
                            let ch2 = ch.push(*state);
                            assert(evaluates_to(sa, *state, env as int, expr@, v));
                            assert(field_step_error(*program, ch2[i as int], ch2[i + 1], env as int, t, fv[i as int], e));
                            assert(fields_failed(*program, ch2, env as int, t, fv, e));
                            assert(ch2[0] == s0 && ch2.last() == *state);
                        }
                        return Err(e);
                    },
                };
                if !is_assignable_from(program, t, vt) {
                    let m = quoted_message("Default value for field ", &fields[i].0, " is not assignable to the field type");
                    let e = RiddleError::TypeError(m);
                    proof {
                        let ch2 = ch.push(*state);
                        assert(evaluates_to(sa, *state, env as int, expr@, v));
                        assert(field_step_error(*program, ch2[i as int], ch2[i + 1], env as int, t, fv[i as int], e));
                        assert(fields_failed(*program, ch2, env as int, t, fv, e));
                        assert(ch2[0] == s0 && ch2.last() == *state);
                    }
                    return Err(e);
                }
                v
            },
            None => match default_value(program, state, t, &fields[i].0) {
                Ok(v) => v,
                Err(e) => {
                    proof {
                        let ch2 = ch.push(*state);
                        assert(field_step_error(*program, ch2[i as int], ch2[i + 1], env as int, t, fv[i as int], e));
                        assert(fields_failed(*program, ch2, env as int, t, fv, e));
                        assert(ch2[0] == s0 && ch2.last() == *state);
                    }
                    return Err(e);
                },
            },
        };
        let ghost mid = *state;
        proof {
            lemma_envs_grow_refl(sa, *state);
            lemma_envs_grow_trans(s0, sa, *state);
            assert(formulas_grow(sa, *state));
            assert(formulas_grow(s0, *state));
            if fields@[i as int].1 is None {
                assert(value matches Slot::Primitive(Var::Formula(k)) ==> k < state.formulas@.len());
            }
        }
        let ghost sb = *state;
        let ghost before = state.envs@;
        proof {
            assert(fv[i as int].0 == fields@[i as int].0@);
            assert((fv[i as int].1 is Some) == (fields@[i as int].1 is Some));
            assert(field_value(*program, s0, t, fv[i as int].1 is Some, value));
        }
        state.set(env, fields[i].0.clone(), value);
        proof {
            lemma_envs_grow_trans(s0, sb, *state);
            assert forall|k: int| 0 <= k < i + 1 implies env_lookup(state.envs@, env as int, (#[trigger] fields@[k]).0@) is Some by {
                if k < i {
                    lemma_set_keeps_bound(before, state.envs@, env as int, fields@[i as int].0@, value, fields@[k].0@);
                }
            }
            assert forall|k: int|
                0 <= k < i + 1 && #[trigger] unshadowed(fv, k, i + 1) implies field_bound(
                    *program,
                    s0,
                    *state,
                    env as int,
                    t,
                    fv[k],
                ) by {
                assert(fv[k].0 == fields@[k].0@);
                if k < i {
                    assert(fv[i as int].0 != fv[k].0);
                    assert(unshadowed(fv, k, i as int));
                    lemma_set_keeps_lookup(before, state.envs@, env as int, fields@[i as int].0@, value, fields@[k].0@);
                } else {
                    assert(env_lookup(state.envs@, env as int, fields@[k].0@) == Some(value));
                }
            }
            assert forall|k: int| 0 <= k < i + 1 && (#[trigger] fv[k]).1 is None implies default_possible(*program, s0, t) by {
                if k == i {
                    assert((fv[i as int].1 is Some) == (fields@[i as int].1 is Some));
                }
            }
            assert(state.envs@[env as int].variables@.drop_last() =~= mid.envs@[env as int].variables@);
            assert(field_step_via(*program, sa, *state, env as int, t, fv[i as int], mid, value));
            assert(field_step(*program, sa, *state, env as int, t, fv[i as int]));
            let chb = ch;
            ch = ch.push(*state);
            assert forall|k: int| 0 <= k < i + 1 implies #[trigger] field_step(*program, ch[k], ch[k + 1], env as int, t, fv[k]) by {
                if k < i {
                    assert(ch[k] == chb[k] && ch[k + 1] == chb[k + 1]);
                }
            }
        }
        i = i + 1;
    }
    proof {
        assert(fv.len() == fields@.len());
        assert(fields_chain(*program, ch, env as int, t, fv));
    }
    Ok(())
}

/// After binding `n` in environment `e`, a lookup of another name from `e`
/// gives what it gave before.
proof fn lemma_set_keeps_lookup(before: Seq<crate::env::CommonEnv>, after: Seq<crate::env::CommonEnv>, e: int, n: Name, v: Slot, m: Name)
    requires
        0 <= e < before.len(),
        after.len() == before.len(),
        after[e].parent == before[e].parent,
        after[e].variables@ == before[e].variables@.push((after[e].variables@.last().0, v)),
        after[e].variables@.last().0@ == n,
        forall|k: int| 0 <= k < after.len() && k != e ==> #[trigger] after[k] == before[k],
        m != n,
    ensures
        env_lookup(after, e, m) == env_lookup(before, e, m),
{
    assert(after[e].variables@.drop_last() =~= before[e].variables@);
    assert(bound(after[e].variables@, m) == bound(before[e].variables@, m));
    if bound(before[e].variables@, m) is None {
        match before[e].parent {
            Some(p) => {
                if p < e {
                    lemma_lookup_unchanged_below(before, after, p as int, e, m);
                }
            },
            None => {},
        }
    }
}

/// After binding `n` in environment `e`, whatever was bound anywhere is still
/// bound (possibly to another value).
proof fn lemma_set_keeps_bound(before: Seq<crate::env::CommonEnv>, after: Seq<crate::env::CommonEnv>, e: int, n: Name, v: Slot, m: Name)
    requires
        0 <= e < before.len(),
        after.len() == before.len(),
        after[e].parent == before[e].parent,
        after[e].variables@ == before[e].variables@.push((after[e].variables@.last().0, v)),
        after[e].variables@.last().0@ == n,
        forall|k: int| 0 <= k < after.len() && k != e ==> #[trigger] after[k] == before[k],
        env_lookup(before, e, m) is Some,
    ensures
        env_lookup(after, e, m) is Some,
{
    if m != n {
        assert(after[e].variables@.drop_last() =~= before[e].variables@);
        assert(bound(after[e].variables@, m) == bound(before[e].variables@, m));
        if bound(before[e].variables@, m) is None {
            let p = before[e].parent->0;
            lemma_lookup_unchanged_below(before, after, p as int, e, m);
        }
    }
}

/// Lookups from environments made before `e` do not see a change to `e`.
proof fn lemma_lookup_unchanged_below(before: Seq<crate::env::CommonEnv>, after: Seq<crate::env::CommonEnv>, x: int, e: int, m: Name)
    requires
        0 <= x < e < before.len(),
        after.len() == before.len(),
        forall|k: int| 0 <= k < after.len() && k != e ==> #[trigger] after[k] == before[k],
    ensures
        env_lookup(after, x, m) == env_lookup(before, x, m),
    decreases x,
{
    assert(after[x] == before[x]);
    match before[x].parent {
        Some(p) => {
            if p < x {
                lemma_lookup_unchanged_below(before, after, p as int, e, m);
            }
        },
        None => {},
    }
}


/// Where an assignment to `name` (a path of at least two names) goes: the
/// environment of the object or atom that the path before the last name leads to.
pub open spec fn assignment_env<C: Core>(a: State<C>, e: int, name: Path) -> Option<int> {
    match var_at_path(a.envs@, a.objects@, a.atoms@, e, name.drop_last()) {
        Lookup::Found(Slot::ObjectRef(o)) => if o.0 < a.objects@.len() {
            Some(a.objects@[o.0 as int].env as int)
        } else {
            None
        },
        Lookup::Found(Slot::AtomRef(t)) => if t.0 < a.atoms@.len() {
            Some(a.atoms@[t.0 as int].env as int)
        } else {
            None
        },
        _ => None,
    }
}

/// The error an assignment to the path `name` (of two names or more) gives
/// when its value evaluates: the lookup's own error (see `lookup_error`)
/// when the path before the last name leads nowhere; `NotAnEnvironment`,
/// naming that path and the last name, when it leads to a primitive value;
/// `NotFound`, naming the object or atom, when it leads to one that does not
/// exist.
pub open spec fn assign_error_kind<C: Core>(a: State<C>, e: int, name: Path, r: Result<(), RiddleError>) -> bool {
    match var_at_path(a.envs@, a.objects@, a.atoms@, e, name.drop_last()) {
        Lookup::Found(Slot::Primitive(_)) => r matches Err(RiddleError::NotAnEnvironment(m)) && m@ == "Variable '"@
            + path_text(name.drop_last()) + "' in assignment path is a primitive variable, cannot assign to '"@
            + name.last() + "'"@,
        Lookup::Found(Slot::ObjectRef(o)) => o.0 >= a.objects@.len() ==> (r matches Err(RiddleError::NotFound(m)) && m@
            == "Object with id "@ + decimal(o.0 as nat) + " not found"@),
        Lookup::Found(Slot::AtomRef(t)) => t.0 >= a.atoms@.len() ==> (r matches Err(RiddleError::NotFound(m)) && m@
            == "Atom with id "@ + decimal(t.0 as nat) + " not found"@),
        Lookup::Missing => r matches Err(err) && err is NotFound && lookup_error(
            a.envs@,
            a.objects@,
            a.atoms@,
            e,
            name.drop_last(),
            err,
        ),
        Lookup::NoEnv => r matches Err(err) && err is NotAnEnvironment && lookup_error(
            a.envs@,
            a.objects@,
            a.atoms@,
            e,
            name.drop_last(),
            err,
        ),
        Lookup::Empty => r matches Err(RiddleError::RuntimeError(_)),
    }
}

/// Only the binding of name `n` in environment `t` changed between `a` and
/// `b`: every other environment, and every other name of `t`, reads as before.
pub open spec fn assigned_only<C: Core>(a: State<C>, b: State<C>, t: int, n: Name) -> bool {
    &&& b.envs@.len() == a.envs@.len()
    &&& forall|k: int| 0 <= k < a.envs@.len() && k != t ==> #[trigger] b.envs@[k] == a.envs@[k]
    &&& 0 <= t < a.envs@.len() ==> b.envs@[t].parent == a.envs@[t].parent
    &&& 0 <= t < a.envs@.len() ==> forall|m: Name| m != n ==> #[trigger] bound(b.envs@[t].variables@, m) == bound(
        a.envs@[t].variables@,
        m,
    )
}

/// What an assignment of `value` to the path `name` in environment `e` gives,
/// besides whether it succeeds: the value is evaluated first, and its failure
/// is the assignment's; an empty path then gives a runtime error; a failed
/// assignment binds nothing; a successful one changes only the binding of the
/// last name of the path, where the path leads.
pub open spec fn assign_outcome<C: Core>(a: State<C>, b: State<C>, e: int, name: Path, value: SpecExpr, r: Result<(), RiddleError>) -> bool {
    &&& evaluation_fails(a, e, value) ==> r is Err && same_places(a, b) && b.formulas == a.formulas
        && b.solver.calls() == a.solver.calls()
    &&& evaluation_fails(a, e, value) ==> (r matches Err(err) && eval_error(a, e, value, err))
    &&& name.len() == 0 && !evaluation_fails(a, e, value) ==> (r matches Err(RiddleError::RuntimeError(m))
        && m@ == "Empty assignment path"@)
    &&& r is Err ==> b.envs == a.envs
    &&& r is Ok ==> name.len() >= 1 && assigned_only(
        a,
        b,
        if name.len() == 1 {
            e
        } else {
            assignment_env(a, e, name)->0
        },
        name.last(),
    )
}

/// Binding `n` in environment `t` leaves every other name as it was.
proof fn lemma_set_only<C: Core>(a: State<C>, b: State<C>, t: int, n: String)
    requires
        0 <= t < a.envs@.len(),
        b.envs@.len() == a.envs@.len(),
        b.envs@[t].parent == a.envs@[t].parent,
        exists|v: Slot| b.envs@[t].variables@ == #[trigger] a.envs@[t].variables@.push((n, v)),
        forall|k: int| 0 <= k < b.envs@.len() && k != t ==> #[trigger] b.envs@[k] == a.envs@[k],
    ensures
        assigned_only(a, b, t, n@),
{
    let v = choose|v: Slot| b.envs@[t].variables@ == #[trigger] a.envs@[t].variables@.push((n, v));
    assert forall|m: Name| m != n@ implies #[trigger] bound(b.envs@[t].variables@, m) == bound(a.envs@[t].variables@, m) by {
        assert(b.envs@[t].variables@.drop_last() =~= a.envs@[t].variables@);
    }
}

/// The message for an assignment through a primitive value: `Variable
/// 'p' in assignment path is a primitive variable, cannot assign to 'n'`,
/// with the path before the last name and the last name.
fn primitive_path_message(prefix: &Vec<String>, last: &String) -> (r: String)
    ensures
        r@ == "Variable '"@ + path_text(path_view(prefix@)) + "' in assignment path is a primitive variable, cannot assign to '"@
            + last@ + "'"@,
{
    let mut out: Vec<char> = Vec::new();
    push_str(&mut out, "Variable '");
    push_path(&mut out, prefix);
    push_str(&mut out, "' in assignment path is a primitive variable, cannot assign to '");
    push_str(&mut out, last.as_str());
    push_str(&mut out, "'");
    string_from_chars(&out)
}

/// A message that names an object or atom by its number: `prefix`, the
/// number, `suffix`.
fn numbered_message(prefix: &str, id: usize, suffix: &str) -> (r: String)
    ensures
        r@ == prefix@ + decimal(id as nat) + suffix@,
{
    let mut out: Vec<char> = Vec::new();
    push_str(&mut out, prefix);
    push_decimal(&mut out, id);
    push_str(&mut out, suffix);
    string_from_chars(&out)
}

/// The message for a parent class without the constructor asked for: the
/// one taking the initialiser's values when one is `given`, else the one
/// without arguments; the class is named in full.
fn parent_ctor_message(program: &Program, parent: TypeId, given: bool) -> (r: String)
    ensures
        r@ == (if given {
            "Constructor for parent class '"@ + path_text(full_path(program.types@, parent))
                + "' with specified argument types"@
        } else {
            "No-arg constructor for parent class '"@ + path_text(full_path(program.types@, parent)) + "'"@
        }),
{
    let mut out: Vec<char> = Vec::new();
    if given {
        push_str(&mut out, "Constructor for parent class '");
        push_path(&mut out, &type_full_path(program, parent));
        push_str(&mut out, "' with specified argument types");
    } else {
        push_str(&mut out, "No-arg constructor for parent class '");
        push_path(&mut out, &type_full_path(program, parent));
        push_str(&mut out, "'");
    }
    string_from_chars(&out)
}

/// Assigns the value of `value` to the path `name`: a local name of `env`, or
/// the last name in the object or atom that the rest of the path leads to.
#[verifier::rlimit(50)]
fn execute_assign<C: Core>(state: &mut State<C>, env: usize, name: &Vec<String>, value: &Expr) -> (r: Result<(), RiddleError>)
    requires
        old(state).wf(),
        env < old(state).envs@.len(),
    ensures
        final(state).wf(),
        assign_outcome(*old(state), *final(state), env as int, path_view(name@), value@, r),
        final(state).envs@.len() == old(state).envs@.len(),
        final(state).objects == old(state).objects,
        final(state).atoms == old(state).atoms,
        final(state).instances == old(state).instances,
        envs_grow(*old(state), *final(state)),
        formulas_grow(*old(state), *final(state)),
        evaluation_fails(*old(state), env as int, value@) ==> r is Err,
        name@.len() > 1 && assignment_env(*old(state), env as int, path_view(name@)) is None ==> r is Err,
        name@.len() > 1 && !evaluation_fails(*old(state), env as int, value@) ==> assign_error_kind(
            *old(state),
            env as int,
            path_view(name@),
            r,
        ),
        !evaluation_fails(*old(state), env as int, value@) && name@.len() >= 1 && (name@.len() == 1 || assignment_env(
            *old(state),
            env as int,
            path_view(name@),
        ) is Some) ==> r is Ok,
        r is Ok ==> {
            let target = if name@.len() == 1 {
                env as int
            } else {
                assignment_env(*old(state), env as int, path_view(name@))->0
            };
            exists|v: Slot|
                value_of(*old(state), *final(state), env as int, value@, v) && env_lookup(
                    final(state).envs@,
                    target,
                    name@.last()@,
                ) == Some(v)
        },
{
    let ghost s0 = *state;
    let v = match evaluate(state, env, value) {
        Ok(v) => v,
        Err(e) => {
            proof {
                lemma_envs_grow_refl(s0, *state);
            }
            return Err(e);
        },
    };
    let ghost s1 = *state;
    proof {
        lemma_envs_grow_refl(s0, s1);
    }
    if name.len() == 0 {
        return Err(RiddleError::RuntimeError("Empty assignment path".to_owned()));
    }
    let last = name.len() - 1;
    if last == 0 {
        state.set(env, name[0].clone(), v);
        proof {
            assert(value_of(s0, *state, env as int, value@, v));
            lemma_set_only(s1, *state, env as int, name@[0]);
            lemma_envs_grow_trans(s0, s1, *state);
        }
        return Ok(());
    }
    let mut prefix: Vec<String> = Vec::new();
    let mut k: usize = 0;
    while k < last
        invariant
            k <= last,
            last == name@.len() - 1,
            path_view(prefix@) == path_view(name@).subrange(0, k as int),
        decreases last - k,
    {
        let ghost pb = prefix@;
        let c = name[k].clone();
        prefix.push(c);
        proof {
            assert(path_view(prefix@) =~= path_view(pb).push(c@));
            assert(path_view(name@).subrange(0, k + 1) =~= path_view(name@).subrange(0, k as int).push(c@));
        }
        k = k + 1;
    }
    proof {
        assert(path_view(name@).drop_last() =~= path_view(name@).subrange(0, last as int));
    }
    let target = get_var_by_path(state, env, &prefix)?;
    let target_env = match target {
        Slot::Primitive(_) => {
            return Err(RiddleError::NotAnEnvironment(primitive_path_message(&prefix, &name[last])));
        },
        Slot::ObjectRef(o) => match state.get_object(o) {
            Some(obj) => obj.env,
            None => {
                return Err(RiddleError::NotFound(numbered_message("Object with id ", o.0, " not found")));
            },
        },
        Slot::AtomRef(a) => match state.get_atom(a) {
            Some(atom) => atom.env,
            None => {
                return Err(RiddleError::NotFound(numbered_message("Atom with id ", a.0, " not found")));
            },
        },
    };
    let ghost s2 = *state;
    state.set(target_env, name[last].clone(), v);
    proof {
        lemma_set_only(s2, *state, target_env as int, name[last as int]);
        lemma_envs_grow_trans(s0, s1, *state);
        assert(name@.last() == name@[last as int]);
        assert(value_of(s0, *state, env as int, value@, v));
    }
    Ok(())
}

/// The message for a value that is not a boolean formula: `Expected boolean
/// expression, got ` and how the value reads (see `slot_text`), when its type
/// is known.
fn not_boolean_message(program: &Program, v: Slot) -> (r: String)
    ensures
        (v matches Slot::Primitive(Var::Value { var_type, .. }) ==> var_type.0 < program.types@.len()) ==> r@
            == "Expected boolean expression, got "@ + slot_text(program.types@, v),
{
    let known = match v {
        Slot::Primitive(Var::Value { var_type, .. }) => var_type.0 < program.types.len(),
        _ => true,
    };
    let mut out: Vec<char> = Vec::new();
    push_str(&mut out, "Expected boolean expression, got ");
    if known {
        push_str(&mut out, v.to_string(program).as_str());
    } else {
        push_str(&mut out, "a value of an unknown type");
    }
    string_from_chars(&out)
}

/// Whether `r` is the error for a value `v` that is not a formula: a runtime
/// error whose message is `Expected boolean expression, got ` and how the
/// value reads, when its type is known.
pub open spec fn not_boolean_error(program: Program, v: Slot, r: Result<(), RiddleError>) -> bool {
    r matches Err(RiddleError::RuntimeError(m)) && ((v matches Slot::Primitive(Var::Value { var_type, .. })
        ==> var_type.0 < program.types@.len()) ==> m@ == "Expected boolean expression, got "@ + slot_text(
        program.types@,
        v,
    ))
}

/// What an expression statement `x` gives when it does not give a formula:
/// a failed evaluation, whose error it returns (see `eval_error`), and then
/// nothing but the solver's scratch changed; or
/// a value that is not a formula, and the error says so. Either way no
/// formula reaches the solver: at most the new value of a literal was asked
/// for.
pub open spec fn expr_outcome<C: Core>(program: Program, a: State<C>, b: State<C>, e: int, x: SpecExpr, r: Result<(), RiddleError>) -> bool {
    &&& evaluation_fails(a, e, x) ==> r is Err && same_places(a, b) && b.formulas == a.formulas
        && b.solver.calls() == a.solver.calls()
    &&& evaluation_fails(a, e, x) ==> (r matches Err(err) && eval_error(a, e, x, err))
    &&& !evaluation_fails(a, e, x) && !gives_formula(a, e, x) ==> exists|v: Slot|
        #[trigger] evaluates_to(a, b, e, x, v) && not_boolean_error(program, v, r)
    &&& r is Err ==> (b.solver.calls() == a.solver.calls() || exists|lit: bool, h: u64|
        x == SpecExpr::Bool(lit) && b.solver.calls() == #[trigger] a.solver.calls().push(SolverCall::NewBool(lit, h)))
}

/// What executing statement `s` in scope `scope` and environment `e` does,
/// from state `a` to state `b`, and whether it succeeds (`ok`):
/// - an expression succeeds exactly when it evaluates to a formula;
/// - a declaration of local fields needs their type, and binds each field in
///   turn to its evaluated default or, without one, to a value given for its
///   type (see `fields_chain`, `fields_declared`);
/// - an assignment succeeds exactly when its value evaluates and its path
///   leads to a place, and binds the last name there to the value;
/// - any other statement fails and changes nothing.
pub open spec fn statement_done<C: Core>(program: Program, a: State<C>, b: State<C>, scope: int, e: int, s: SpecStatement, ok: bool) -> bool {
    &&& b.envs@.len() == a.envs@.len()
    &&& b.objects == a.objects
    &&& b.atoms == a.atoms
    &&& b.instances == a.instances
    &&& envs_grow(a, b)
    &&& formulas_grow(a, b)
    &&& match s {
        SpecStatement::Expr(x) => {
            &&& (ok <==> gives_formula(a, e, x))
            &&& b.envs == a.envs
            &&& ok ==> b.solver.calls() == a.solver.calls().push(SolverCall::Assert(cnf(formula_of(a, e, x)->0)))
        },
        SpecStatement::LocalField { field_type, fields } => {
            &&& !(type_at_path(program.types@, program.scopes@, scope, field_type) is Found) ==> !ok
            &&& (type_at_path(program.types@, program.scopes@, scope, field_type) matches TypeLookup::Found(t)
                && defaults_owed(program, a, t) && forall|k: int| 0 <= k < fields.len() ==> (#[trigger] fields[k]).1 is None)
                ==> ok
            &&& ok ==> forall|k: int| 0 <= k < fields.len() ==> env_lookup(b.envs@, e, (#[trigger] fields[k]).0) is Some
            &&& ok ==> fields_declared(program, a, b, scope, e, field_type, fields)
            &&& ok ==> exists|t: TypeId, ch: Seq<State<C>>|
                #[trigger] fields_chain(program, ch, e, t, fields) && type_at_path(
                    program.types@,
                    program.scopes@,
                    scope,
                    field_type,
                ) == TypeLookup::Found(t) && ch[0] == a && ch.last() == b
        },
        SpecStatement::Assign { name, value } => {
            &&& name.len() == 0 ==> !ok
            &&& evaluation_fails(a, e, value) ==> !ok
            &&& name.len() > 1 && assignment_env(a, e, name) is None ==> !ok
            &&& name.len() >= 1 && !evaluation_fails(a, e, value) && (name.len() == 1 || assignment_env(a, e, name) is Some)
                ==> ok
            &&& ok ==> {
                let target = if name.len() == 1 {
                    e
                } else {
                    assignment_env(a, e, name)->0
                };
                exists|v: Slot| value_of(a, b, e, value, v) && env_lookup(b.envs@, target, name.last()) == Some(v)
            }
        },
        _ => !ok && b == a,
    }
}

/// What is known of the error `err` that executing statement `s` in scope
/// `scope` gives, from state `a` to state `b` (see `expr_outcome`,
/// `local_fields_outcome`, `assign_outcome` and `assign_error_kind`); a statement of a kind that is not executed gives a
/// runtime error that says so.
pub open spec fn stmt_error<C: Core>(
    program: Program,
    a: State<C>,
    b: State<C>,
    scope: int,
    e: int,
    s: SpecStatement,
    err: RiddleError,
) -> bool {
    match s {
        SpecStatement::Expr(x) => expr_outcome(program, a, b, e, x, Err(err)),
        SpecStatement::LocalField { field_type, fields } => local_fields_outcome(
            program,
            a,
            b,
            scope,
            e,
            field_type,
            fields,
            Err(err),
        ),
        SpecStatement::Assign { name, value } => {
            &&& assign_outcome(a, b, e, name, value, Err(err))
            &&& name.len() > 1 && !evaluation_fails(a, e, value) ==> assign_error_kind(a, e, name, Err(err))
        },
        _ => err matches RiddleError::RuntimeError(m) && m@ == "Statement kind not supported by execution"@,
    }
}

/// The states `chain` that running `stmts` goes through up to the first
/// that fails, with error `err` (see `stmt_error`).
pub open spec fn failed_with<C: Core>(
    program: Program,
    chain: Seq<State<C>>,
    scope: int,
    e: int,
    stmts: Seq<SpecStatement>,
    err: RiddleError,
) -> bool {
    &&& ran_until_failure(program, chain, scope, e, stmts)
    &&& stmt_error(program, chain[chain.len() - 2], chain[chain.len() - 1], scope, e, stmts[chain.len() - 2], err)
}

/// Executes a statement in scope `scope` and environment `env` (see
/// `statement_done`): an expression must evaluate to a formula, whose
/// conjunctive normal form is handed to the solver; local fields are declared
/// (see `execute_local_field`); an assignment binds its path (see
/// `execute_assign`). Other statements are not executed: they give a runtime
/// error.
pub fn execute<C: Core>(program: &Program, state: &mut State<C>, scope: usize, env: usize, stmt: &Statement) -> (r: Result<(), RiddleError>)
    requires
        old(state).wf(),
        env < old(state).envs@.len(),
    ensures
        final(state).wf(),
        statement_done(*program, *old(state), *final(state), scope as int, env as int, stmt@, r is Ok),
        stmt@ matches SpecStatement::Expr(x) ==> expr_outcome(*program, *old(state), *final(state), env as int, x, r),
        r matches Err(err) ==> stmt_error(*program, *old(state), *final(state), scope as int, env as int, stmt@, err),
        stmt@ matches SpecStatement::Assign { name, value } ==> assign_outcome(
            *old(state),
            *final(state),
            env as int,
            name,
            value,
            r,
        ),
        stmt@ matches SpecStatement::Assign { name, value } ==> (name.len() > 1 && !evaluation_fails(
            *old(state),
            env as int,
            value,
        ) ==> assign_error_kind(*old(state), env as int, name, r)),
{
    match stmt {
        Statement::Expr(e) => {
            let ghost s0 = *state;
            let v = evaluate(state, env, e);
            proof {
                lemma_envs_grow_refl(s0, *state);
            }
            let v = v?;
            match v {
                Slot::Primitive(Var::Formula(k)) => {
                    if k < state.formulas.len() {
                        let f = state.formulas[k].copy();
                        let clauses = to_cnf(f);
                        let _accepted = state.solver.assert_formula(&clauses);
                        Ok(())
                    } else {
                        Err(RiddleError::RuntimeError(not_boolean_message(program, v)))
                    }
                },
                _ => Err(RiddleError::RuntimeError(not_boolean_message(program, v))),
            }
        },
        Statement::LocalField { field_type, fields } => {
            proof {
                let fv = crate::language::inits_view(fields@);
                if forall|k: int| 0 <= k < fv.len() ==> (#[trigger] fv[k]).1 is None {
                    assert forall|k: int| 0 <= k < fields@.len() implies (#[trigger] fields@[k]).1 is None by {
                        assert(fv[k].1 is None);
                    }
                }
            }
            let r = execute_local_field(program, state, scope, env, field_type, fields);
            proof {
                assert(crate::language::inits_view(fields@).len() == fields@.len());
                assert forall|k: int| 0 <= k < fields@.len() implies (#[trigger] crate::language::inits_view(fields@)[k]).0
                    == fields@[k].0@ && (crate::language::inits_view(fields@)[k].1 is None) == (fields@[k].1 is None) by {}
            }
            r
        },
        Statement::Assign { name, value } => {
            let r = execute_assign(state, env, name, value);
            proof {
                if name@.len() == 1 {
                    assert(path_view(name@)[0] == name@.last()@);
                }
            }
            r
        },
        _ => {
            proof {
                lemma_envs_grow_refl(*state, *state);
            }
            Err(RiddleError::RuntimeError("Statement kind not supported by execution".to_owned()))
        },
    }
}


// ---------------------------------------------------------------------------
// Calls.
// ---------------------------------------------------------------------------

/// The qualified path of a type: a class's own path, the name of any other type.
pub open spec fn full_path(types: Seq<Type>, t: TypeId) -> Path {
    if t.0 < types.len() {
        match types[t.0 as int] {
            Type::Class(c) => path_view(c.path@),
            ty => seq![name_of_type(ty)],
        }
    } else {
        seq![]
    }
}

fn type_full_path(program: &Program, t: TypeId) -> (r: Vec<String>)
    ensures
        path_view(r@) == full_path(program.types@, t),
{
    if t.0 >= program.types.len() {
        let r: Vec<String> = Vec::new();
        proof {
            assert(path_view(r@) =~= Seq::<Name>::empty());
        }
        return r;
    }
    match &program.types[t.0] {
        Type::Class(c) => copy_path(&c.path),
        ty => {
            let mut r: Vec<String> = Vec::new();
            r.push(ty.name().to_owned());
            proof {
                assert(path_view(r@) =~= seq![name_of_type(*ty)]);
            }
            r
        },
    }
}

/// Whether constructor `k` of class `c` takes arguments of the types `ts`:
/// as many, each declared with the qualified path of the type.
pub open spec fn takes(types: Seq<Type>, c: CommonClass, k: int, ts: Seq<TypeId>) -> bool {
    &&& c.constructors@[k].args@.len() == ts.len()
    &&& forall|j: int|
        0 <= j < ts.len() ==> path_view((#[trigger] c.constructors@[k].args@[j]).0@) == full_path(types, ts[j])
}

/// The first constructor of `c` that takes arguments of the types `ts`.
fn find_constructor(program: &Program, c: &CommonClass, ts: &Vec<TypeId>) -> (r: Option<usize>)
    ensures
        match r {
            Some(k) => k < c.constructors@.len() && takes(program.types@, *c, k as int, ts@) && forall|m: int|
                0 <= m < k ==> !takes(program.types@, *c, m, ts@),
            None => forall|m: int| 0 <= m < c.constructors@.len() ==> !takes(program.types@, *c, m, ts@),
        },
{
    let mut paths: Vec<Vec<String>> = Vec::new();
    let mut j: usize = 0;
    while j < ts.len()
        invariant
            j <= ts.len(),
            paths@.len() == j,
            forall|m: int| 0 <= m < j ==> path_view((#[trigger] paths@[m])@) == full_path(program.types@, ts@[m]),
        decreases ts.len() - j,
    {
        paths.push(type_full_path(program, ts[j]));
        j = j + 1;
    }
    let mut k: usize = 0;
    while k < c.constructors.len()
        invariant
            k <= c.constructors@.len(),
            paths@.len() == ts@.len(),
            forall|m: int| 0 <= m < ts@.len() ==> path_view((#[trigger] paths@[m])@) == full_path(program.types@, ts@[m]),
            forall|m: int| 0 <= m < k ==> !takes(program.types@, *c, m, ts@),
        decreases c.constructors.len() - k,
    {
        let args = &c.constructors[k].args;
        if args.len() == ts.len() {
            let mut j: usize = 0;
            let mut ok = true;
            while j < ts.len()
                invariant
                    j <= ts@.len(),
                    args@.len() == ts@.len(),
                    *args == c.constructors@[k as int].args,
                    paths@.len() == ts@.len(),
                    forall|m: int| 0 <= m < ts@.len() ==> path_view((#[trigger] paths@[m])@) == full_path(program.types@, ts@[m]),
                    ok == forall|m: int| 0 <= m < j ==> path_view((#[trigger] args@[m]).0@) == full_path(program.types@, ts@[m]),
                decreases ts.len() - j,
            {
                ok = ok && same_path(&args[j].0, &paths[j]);
                j = j + 1;
            }
            if ok {
                return Some(k);
            }
        }
        k = k + 1;
    }
    None
}

/// Whether `v` may be bound to a name declared with type path `decl` in
/// scope `scope`: the path names a type and the value's type is assignable
/// to it.
pub open spec fn fits<C: Core>(program: Program, st: State<C>, scope: int, decl: Path, v: Slot) -> bool {
    match type_at_path(program.types@, program.scopes@, scope, decl) {
        TypeLookup::Found(t) => match slot_type(st, v) {
            Some(vt) => assignable(program.types@, t, vt),
            None => false,
        },
        _ => false,
    }
}

/// Whether each value fits the declared argument at its place.
pub open spec fn args_fit<C: Core>(
    program: Program,
    st: State<C>,
    scope: int,
    decl: Seq<(Vec<String>, String)>,
    args: Seq<Slot>,
) -> bool {
    &&& args.len() == decl.len()
    &&& forall|k: int| 0 <= k < args.len() ==> fits(program, st, scope, path_view(decl[k].0@), #[trigger] args[k])
}

/// The message for a call with the wrong number of values: `Expected n
/// arguments, got m`.
fn count_message(expected: usize, got: usize) -> (r: String)
    ensures
        r@ == "Expected "@ + decimal(expected as nat) + " arguments, got "@ + decimal(got as nat),
{
    let mut out: Vec<char> = Vec::new();
    push_str(&mut out, "Expected ");
    push_decimal(&mut out, expected);
    push_str(&mut out, " arguments, got ");
    push_decimal(&mut out, got);
    string_from_chars(&out)
}

/// How the error for a value of type `got` given for argument `name`
/// declared with type `expected` reads.
pub open spec fn argument_type_text(types: Seq<Type>, name: Seq<char>, expected: TypeId, got: TypeId) -> Seq<char> {
    "Argument '"@ + name + "' expected to be of type '"@ + path_text(full_path(types, expected)) + "', got '"@
        + path_text(full_path(types, got)) + "'"@
}

/// Argument `k` is the first whose value does not fit its declaration.
pub open spec fn first_misfit<C: Core>(
    program: Program,
    st: State<C>,
    scope: int,
    decl: Seq<(Vec<String>, String)>,
    args: Seq<Slot>,
    k: int,
) -> bool {
    &&& 0 <= k < args.len()
    &&& !fits(program, st, scope, path_view(decl[k].0@), args[k])
    &&& forall|m: int| 0 <= m < k ==> fits(program, st, scope, path_view(decl[m].0@), #[trigger] args[m])
}

/// The error for value `v` not fitting the declared argument `d`: the type
/// lookup's error when the declared type is not found, `NotFound` when the
/// value's object or atom does not exist, else a type error that names the
/// argument and the two types.
pub open spec fn misfit_error<C: Core>(
    program: Program,
    st: State<C>,
    scope: int,
    d: (Vec<String>, String),
    v: Slot,
    e: RiddleError,
) -> bool {
    match type_at_path(program.types@, program.scopes@, scope, path_view(d.0@)) {
        TypeLookup::Found(t) => match slot_type(st, v) {
            Some(vt) => e matches RiddleError::TypeError(m) && m@ == argument_type_text(program.types@, d.1@, t, vt),
            None => e is NotFound,
        },
        TypeLookup::Missing => e is NotFound,
        TypeLookup::NotClass => e is NotAClass,
        TypeLookup::Empty => e is RuntimeError,
    }
}

/// The message for a value of the wrong type given for argument `name`:
/// `Argument 'name' expected to be of type 'T', got 'U'`, with the full names
/// of the two types.
fn argument_type_message(program: &Program, name: &String, expected: TypeId, got: TypeId) -> (r: String)
    ensures
        r@ == argument_type_text(program.types@, name@, expected, got),
{
    let mut out: Vec<char> = Vec::new();
    push_str(&mut out, "Argument '");
    push_str(&mut out, name.as_str());
    push_str(&mut out, "' expected to be of type '");
    push_path(&mut out, &type_full_path(program, expected));
    push_str(&mut out, "', got '");
    push_path(&mut out, &type_full_path(program, got));
    push_str(&mut out, "'");
    string_from_chars(&out)
}

/// Whether each field can be given its value without the solver deciding:
/// it has no default value and its type, looked up from scope `s`, is one
/// whose default is owed (see `defaults_owed`).
pub open spec fn fields_owed<C: Core>(program: Program, st: State<C>, s: int, fields: Seq<Field>) -> bool {
    forall|k: int|
        0 <= k < fields.len() ==> (#[trigger] fields[k]).default is None && (type_at_path(
            program.types@,
            program.scopes@,
            s,
            path_view(fields[k].field_type@),
        ) matches TypeLookup::Found(t) && defaults_owed(program, st, t))
}

/// Whether running constructor `index` of class `class` with the values
/// `args` is owed success, whatever the solver: the class and the constructor
/// exist, the values fit the arguments, the class has no parents, its fields
/// get values without the solver deciding, and the body is empty.
pub open spec fn constructor_owed<C: Core>(program: Program, st: State<C>, class: TypeId, index: usize, args: Seq<Slot>) -> bool {
    &&& class_scope_of(program, class)
    &&& index < program.types@[class.0 as int]->Class_0.constructors@.len()
    &&& ({
        let c = program.types@[class.0 as int]->Class_0;
        let ctor = c.constructors@[index as int];
        &&& args_fit(program, st, ctor.scope as int, ctor.args@, args)
        &&& c.parents@.len() == 0
        &&& ctor.statements@.len() == 0
        &&& c.scope < program.scopes@.len() ==> fields_owed(program, st, ctor.scope as int, program.scopes@[c.scope as int].fields@)
    })
}

/// Whether initialiser `j` is the first of `init` that names parent `p`.
pub open spec fn first_init(init: Seq<(Vec<String>, Vec<Expr>)>, p: Path, j: int) -> bool {
    &&& 0 <= j < init.len()
    &&& path_view(init[j].0@) == p
    &&& forall|m: int| 0 <= m < j ==> path_view((#[trigger] init[m]).0@) != p
}

/// The values given for parent `p`: the expressions of the first
/// initialiser that names it, else none.
pub open spec fn init_for(init: Seq<(Vec<String>, Vec<Expr>)>, p: Path) -> Seq<SpecExpr> {
    if exists|j: int| first_init(init, p, j) {
        exprs_view(init[choose|j: int| first_init(init, p, j)].1@)
    } else {
        seq![]
    }
}

/// The states `ev` that evaluating `xs` one after the other in environment
/// `e` goes through, from `a` to `b`, giving `vs`.
pub open spec fn eval_chain<C: Core>(a: State<C>, b: State<C>, e: int, xs: Seq<SpecExpr>, vs: Seq<Slot>, ev: Seq<State<C>>) -> bool {
    &&& ev.len() == xs.len() + 1
    &&& vs.len() == xs.len()
    &&& ev[0] == a
    &&& ev.last() == b
    &&& forall|i: int| 0 <= i < xs.len() ==> #[trigger] evaluates_to(ev[i], ev[i + 1], e, xs[i], vs[i])
}

/// Evaluating `xs` one after the other in environment `e`, from `a` to `b`,
/// gives `vs`.
pub open spec fn evaluates_all<C: Core>(a: State<C>, b: State<C>, e: int, xs: Seq<SpecExpr>, vs: Seq<Slot>) -> bool {
    exists|ev: Seq<State<C>>| #[trigger] eval_chain(a, b, e, xs, vs, ev)
}

/// Constructor `k` of class `t` is the first that takes arguments of the
/// types `ts`.
pub open spec fn first_taking(types: Seq<Type>, t: TypeId, k: usize, ts: Seq<TypeId>) -> bool {
    let c = types[t.0 as int]->Class_0;
    &&& k < c.constructors@.len()
    &&& takes(types, c, k as int, ts)
    &&& forall|m: int| 0 <= m < k ==> !takes(types, c, m, ts)
}

/// One parent's constructor, from `a` to `b`: the parent path `pp` names
/// class `pt` from scope `scope`; the values the initialiser gives for it
/// are evaluated in environment `cenv` (from `a` to `mid`), giving `vs` of
/// types `ts`; and the first constructor `pidx` of `pt` that takes those
/// types ran on `object` with them, from `mid` to `b` (see `ctor_ran_once`).
pub open spec fn parent_step<C: Core>(
    program: Program,
    a: State<C>,
    b: State<C>,
    scope: int,
    init: Seq<(Vec<String>, Vec<Expr>)>,
    pp: Path,
    object: ObjectId,
    cenv: int,
    pt: TypeId,
    pidx: usize,
    vs: Seq<Slot>,
    ts: Seq<TypeId>,
    mid: State<C>,
) -> bool {
    &&& type_at_path(program.types@, program.scopes@, scope, pp) == TypeLookup::Found(pt)
    &&& class_scope_of(program, pt)
    &&& evaluates_all(a, mid, cenv, init_for(init, pp), vs)
    &&& ts.len() == vs.len()
    &&& forall|i: int| 0 <= i < vs.len() ==> slot_type(mid, #[trigger] vs[i]) == Some(ts[i])
    &&& first_taking(program.types@, pt, pidx, ts)
    &&& ctor_ran_once(program, mid, b, pt, pidx, object, vs)
}

/// The constructor of parent `pp` ran, from `a` to `b` (see `parent_step`).
pub open spec fn parent_ran<C: Core>(
    program: Program,
    a: State<C>,
    b: State<C>,
    scope: int,
    init: Seq<(Vec<String>, Vec<Expr>)>,
    pp: Path,
    object: ObjectId,
    cenv: int,
) -> bool {
    exists|pt: TypeId, pidx: usize, vs: Seq<Slot>, ts: Seq<TypeId>, mid: State<C>|
        #[trigger] parent_step(program, a, b, scope, init, pp, object, cenv, pt, pidx, vs, ts, mid)
}

/// The states `pc` that running the constructors of the parents of class
/// `class`, in order, goes through, for its constructor `index` with
/// environment `cenv`: one step per parent.
pub open spec fn parents_chain<C: Core>(
    program: Program,
    pc: Seq<State<C>>,
    class: TypeId,
    index: usize,
    object: ObjectId,
    cenv: int,
) -> bool {
    let c = program.types@[class.0 as int]->Class_0;
    let ctor = c.constructors@[index as int];
    &&& pc.len() == c.parents@.len() + 1
    &&& forall|m: int|
        0 <= m < c.parents@.len() ==> #[trigger] parent_ran(
            program,
            pc[m],
            pc[m + 1],
            ctor.scope as int,
            ctor.init@,
            path_view(c.parents@[m]@),
            object,
            cenv,
        )
}

/// The constructors of the parents ran, in order, from `a` to `b`.
pub open spec fn parents_ran<C: Core>(
    program: Program,
    a: State<C>,
    b: State<C>,
    class: TypeId,
    index: usize,
    object: ObjectId,
    cenv: int,
) -> bool {
    exists|pc: Seq<State<C>>| #[trigger] parents_chain(program, pc, class, index, object, cenv) && pc[0] == a && pc.last() == b
}

/// The fields of class scope `cs` are bound in environment `oe` from `a` to
/// `b`: each is bound in `b`, and a name already bound in `a` keeps its value.
pub open spec fn fields_given<C: Core>(program: Program, a: State<C>, b: State<C>, cs: int, oe: int) -> bool {
    &&& 0 <= cs < program.scopes@.len() ==> forall|k: int|
        0 <= k < program.scopes@[cs].fields@.len() ==> bound(
            b.envs@[oe].variables@,
            (#[trigger] program.scopes@[cs].fields@[k]).name@,
        ) is Some
    &&& forall|n: Name|
        bound(a.envs@[oe].variables@, n) is Some ==> #[trigger] bound(b.envs@[oe].variables@, n) == bound(
            a.envs@[oe].variables@,
            n,
        )
}

/// The fields of class scope `cs` (none when there is no such scope).
pub open spec fn class_field_list(program: Program, cs: int) -> Seq<Field> {
    if 0 <= cs < program.scopes@.len() {
        program.scopes@[cs].fields@
    } else {
        seq![]
    }
}

/// Giving field `fld` of a class its value in the object's environment
/// `oe`, from `a` to `b` through `mid`: its type, looked up from scope
/// `scope`, is `t`; a field already bound keeps its value; else its default,
/// evaluated in environment `cenv` (from `a` to `mid`), gives `v`, of a type
/// assignable to `t`, or without a default `default_given` gives `v`; `v`
/// is then bound to the field's name.
pub open spec fn class_field_step_via<C: Core>(
    program: Program,
    a: State<C>,
    b: State<C>,
    scope: int,
    oe: int,
    cenv: int,
    fld: Field,
    t: TypeId,
    mid: State<C>,
    v: Slot,
) -> bool {
    &&& type_at_path(program.types@, program.scopes@, scope, path_view(fld.field_type@)) == TypeLookup::Found(t)
    &&& if bound(a.envs@[oe].variables@, fld.name@) is Some {
        b == a
    } else {
        &&& match opt_expr_view(fld.default) {
            Some(d) => evaluates_to(a, mid, cenv, d, v) && (slot_type(mid, v) matches Some(vt) && assignable(
                program.types@,
                t,
                vt,
            )),
            None => default_given(program, a, mid, t, v),
        }
        &&& binds(mid, b, oe, fld.name@, v)
    }
}

/// Giving field `fld` of a class its value takes `a` to `b` (see
/// `class_field_step_via`).
pub open spec fn class_field_step<C: Core>(program: Program, a: State<C>, b: State<C>, scope: int, oe: int, cenv: int, fld: Field) -> bool {
    exists|t: TypeId, mid: State<C>, v: Slot| #[trigger] class_field_step_via(program, a, b, scope, oe, cenv, fld, t, mid, v)
}

/// The states `ch` that giving the fields `fields` of a class their values,
/// one after the other, goes through.
pub open spec fn class_fields_chain<C: Core>(
    program: Program,
    ch: Seq<State<C>>,
    scope: int,
    oe: int,
    cenv: int,
    fields: Seq<Field>,
) -> bool {
    &&& ch.len() == fields.len() + 1
    &&& forall|k: int| 0 <= k < fields.len() ==> #[trigger] class_field_step(program, ch[k], ch[k + 1], scope, oe, cenv, fields[k])
}

/// The phases of constructor `index` of class `class` on `object` with the
/// values `args`, from `a` to `b`: a new environment over the object's binds
/// `this` and the arguments (state `pc[0]`); the parents' constructors run,
/// one step of `pc` each; the fields of the class get their values, one step
/// of `fc` each (see `class_field_step`); the body runs (`body`). The three
/// phases form one chain of states.
pub open spec fn ctor_phases<C: Core>(
    program: Program,
    a: State<C>,
    b: State<C>,
    class: TypeId,
    index: usize,
    object: ObjectId,
    args: Seq<Slot>,
    pc: Seq<State<C>>,
    fc: Seq<State<C>>,
    body: Seq<State<C>>,
) -> bool {
    let c = program.types@[class.0 as int]->Class_0;
    let ctor = c.constructors@[index as int];
    let oe = a.objects@[object.0 as int].env as int;
    let cenv = a.envs@.len() as int;
    &&& class_scope_of(program, class)
    &&& index < c.constructors@.len()
    &&& object.0 < a.objects@.len()
    &&& args_fit(program, a, ctor.scope as int, ctor.args@, args)
    &&& pc.len() == c.parents@.len() + 1
    &&& pc[0].envs@.len() == cenv + 1
    &&& pc[0].envs@[cenv].parent == Some(oe as usize)
    &&& pc[0].envs@[oe] == a.envs@[oe]
    &&& args_bound(pc[0], cenv, ctor.args@, args)
    &&& (forall|k: int| 0 <= k < ctor.args@.len() ==> (#[trigger] ctor.args@[k]).1@ != "this"@) ==> env_lookup(
        pc[0].envs@,
        cenv,
        "this"@,
    ) == Some(Slot::ObjectRef(object))
    &&& body.len() >= 1
    &&& envs_grow(a, pc[0])
    &&& envs_grow(pc[0], pc.last())
    &&& envs_grow(pc.last(), body[0])
    &&& envs_grow(body[0], b)
    &&& fields_given(program, pc.last(), body[0], c.scope as int, oe)
    &&& class_fields_chain(program, fc, ctor.scope as int, oe, cenv, class_field_list(program, c.scope as int))
    &&& fc[0] == pc.last()
    &&& fc.last() == body[0]
    &&& ran_all(program, body, ctor.scope as int, cenv, stmts_view(ctor.statements@))
    &&& body.last() == b
}

/// Whether giving field `fld` of a class its value fails with `err`, from
/// `a` to `b`: its type is not found (the lookup's error, nothing changes);
/// or, the field not being bound yet, its default does not evaluate (the
/// evaluation's error), evaluates to an object or atom that does not exist,
/// or to a value of a type not assignable to the field's (a type error naming
/// the field); or, without a default, no value can be given (see
/// `default_error`).
pub open spec fn class_field_error<C: Core>(
    program: Program,
    a: State<C>,
    b: State<C>,
    scope: int,
    oe: int,
    cenv: int,
    fld: Field,
    err: RiddleError,
) -> bool {
    let l = type_at_path(program.types@, program.scopes@, scope, path_view(fld.field_type@));
    ||| (!(l is Found) && type_path_error(program, scope, path_view(fld.field_type@), err) && b == a)
    ||| (l is Found && bound(a.envs@[oe].variables@, fld.name@) is None && match opt_expr_view(fld.default) {
        Some(d) => {
            ||| (evaluation_fails(a, cenv, d) && eval_error(a, cenv, d, err) && same_places(a, b) && b.formulas
                == a.formulas && b.solver.calls() == a.solver.calls())
            ||| exists|v: Slot|
                #[trigger] evaluates_to(a, b, cenv, d, v) && match slot_type(b, v) {
                    None => err is NotFound,
                    Some(vt) => !assignable(program.types@, l->Found_0, vt) && (err matches RiddleError::TypeError(m)
                        && m@ == "Field "@ + "'"@ + fld.name@ + "'"@ + " has the wrong type"@),
                }
        },
        None => default_error(program, a, b, l->Found_0, fld.name@, err),
    })
}

/// The states `ch` that giving the fields `fields` of a class their values
/// goes through up to the first that fails, with error `err`, the last step.
pub open spec fn class_fields_failed<C: Core>(
    program: Program,
    ch: Seq<State<C>>,
    scope: int,
    oe: int,
    cenv: int,
    fields: Seq<Field>,
    err: RiddleError,
) -> bool {
    let j = ch.len() - 2;
    &&& 0 <= j < fields.len()
    &&& forall|k: int| 0 <= k < j ==> #[trigger] class_field_step(program, ch[k], ch[k + 1], scope, oe, cenv, fields[k])
    &&& class_field_error(program, ch[j], ch[j + 1], scope, oe, cenv, fields[j], err)
}

/// Whether evaluating `xs` one after the other in environment `e`, from `a`
/// to `b` (states `ev`, values `vs`), stops at an expression that does not
/// evaluate (the evaluation's error) or whose value is an object or atom
/// that does not exist (not found).
pub open spec fn values_failed_via<C: Core>(
    a: State<C>,
    b: State<C>,
    e: int,
    xs: Seq<SpecExpr>,
    err: RiddleError,
    ev: Seq<State<C>>,
    vs: Seq<Slot>,
) -> bool {
    let j = ev.len() - 1;
    &&& 0 <= j < xs.len()
    &&& ev[0] == a
    &&& vs.len() == j
    &&& forall|i: int| 0 <= i < j ==> #[trigger] evaluates_to(ev[i], ev[i + 1], e, xs[i], vs[i])
    &&& {
        ||| (evaluation_fails(ev[j], e, xs[j]) && eval_error(ev[j], e, xs[j], err) && same_places(ev[j], b) && b.formulas
            == ev[j].formulas && b.solver.calls() == ev[j].solver.calls())
        ||| exists|v: Slot| #[trigger] evaluates_to(ev[j], b, e, xs[j], v) && slot_type(b, v) is None && err is NotFound
    }
}

/// The entry of constructor `index` of class `class` on `object` with
/// `args`, from `a` to `s`: a new environment over the object's binds the
/// arguments (and `this`, when no argument takes the name).
pub open spec fn ctor_entry<C: Core>(program: Program, a: State<C>, s: State<C>, class: TypeId, index: usize, object: ObjectId, args: Seq<Slot>) -> bool {
    let c = program.types@[class.0 as int]->Class_0;
    let ctor = c.constructors@[index as int];
    let oe = a.objects@[object.0 as int].env as int;
    let cenv = a.envs@.len() as int;
    &&& s.envs@.len() == cenv + 1
    &&& s.envs@[cenv].parent == Some(oe as usize)
    &&& s.envs@[oe] == a.envs@[oe]
    &&& envs_grow(a, s)
    &&& args_bound(s, cenv, ctor.args@, args)
    &&& (forall|k: int| 0 <= k < ctor.args@.len() ==> (#[trigger] ctor.args@[k]).1@ != "this"@) ==> env_lookup(
        s.envs@,
        cenv,
        "this"@,
    ) == Some(Slot::ObjectRef(object))
}

/// After its parents' constructors ran (`pc` complete), constructor `index`
/// failed with `err`, from `a` to `b`: a field's value could not be given
/// (`fc`, see `class_fields_failed`), or, the fields given, a statement of
/// the body failed (`body`, see `failed_with`).
pub open spec fn ctor_tail_failed<C: Core>(
    program: Program,
    a: State<C>,
    b: State<C>,
    class: TypeId,
    index: usize,
    object: ObjectId,
    pc: Seq<State<C>>,
    fc: Seq<State<C>>,
    body: Seq<State<C>>,
    err: RiddleError,
) -> bool {
    let c = program.types@[class.0 as int]->Class_0;
    let ctor = c.constructors@[index as int];
    let oe = a.objects@[object.0 as int].env as int;
    let cenv = a.envs@.len() as int;
    let fields = class_field_list(program, c.scope as int);
    &&& pc.len() == c.parents@.len() + 1
    &&& fc.len() >= 1
    &&& fc[0] == pc.last()
    &&& {
        ||| (class_fields_failed(program, fc, ctor.scope as int, oe, cenv, fields, err) && fc.last() == b)
        ||| (class_fields_chain(program, fc, ctor.scope as int, oe, cenv, fields) && body.len() >= 1 && body[0]
            == fc.last() && failed_with(program, body, ctor.scope as int, cenv, stmts_view(ctor.statements@), err)
            && body.last() == b)
    }
}

/// The first `pc.len() - 1` parents' constructors of class `class` ran, one
/// step of `pc` each, for constructor `index` with environment `cenv`.
pub open spec fn parents_prefix<C: Core>(program: Program, pc: Seq<State<C>>, class: TypeId, index: usize, object: ObjectId, cenv: int) -> bool {
    let c = program.types@[class.0 as int]->Class_0;
    let ctor = c.constructors@[index as int];
    &&& 1 <= pc.len() <= c.parents@.len() + 1
    &&& forall|m: int|
        0 <= m < pc.len() - 1 ==> #[trigger] parent_ran(
            program,
            pc[m],
            pc[m + 1],
            ctor.scope as int,
            ctor.init@,
            path_view(c.parents@[m]@),
            object,
            cenv,
        )
}

/// Constructor `index` of class `class` on `object` with `args`, its values
/// fitting, failed with `err` from `a` to `b`, its parents' failures taken
/// as steps whose content is not described: a parent's constructor failed
/// (`pc` stopping short), or the fields or the body failed (see
/// `ctor_tail_failed`).
pub open spec fn ctor_steps_failed_once<C: Core>(
    program: Program,
    a: State<C>,
    b: State<C>,
    class: TypeId,
    index: usize,
    object: ObjectId,
    args: Seq<Slot>,
    pc: Seq<State<C>>,
    fc: Seq<State<C>>,
    body: Seq<State<C>>,
    err: RiddleError,
) -> bool {
    let c = program.types@[class.0 as int]->Class_0;
    &&& ctor_entry(program, a, pc[0], class, index, object, args)
    &&& parents_prefix(program, pc, class, index, object, a.envs@.len() as int)
    &&& pc.len() <= c.parents@.len() || ctor_tail_failed(program, a, b, class, index, object, pc, fc, body, err)
}

/// How constructor `index` of class `class` on `object` with the values
/// `args` failed with `err`, from `a` to `b`, described once: a wrong number
/// of values, a missing object, the first value that does not fit (see
/// `misfit_error`), or, the values fitting, a failed step (see
/// `ctor_steps_failed_once`).
pub open spec fn ctor_error_once<C: Core>(
    program: Program,
    a: State<C>,
    b: State<C>,
    class: TypeId,
    index: usize,
    object: ObjectId,
    args: Seq<Slot>,
    err: RiddleError,
) -> bool {
    let ctor = program.types@[class.0 as int]->Class_0.constructors@[index as int];
    ||| (args.len() != ctor.args@.len() && (err matches RiddleError::RuntimeError(m) && m@ == "Expected "@ + decimal(
        ctor.args@.len(),
    ) + " arguments, got "@ + decimal(args.len())))
    ||| (args.len() == ctor.args@.len() && object.0 >= a.objects@.len() && (err matches RiddleError::NotFound(m) && m@
        == "Object with ID "@ + decimal(object.0 as nat) + " not found"@))
    ||| (args.len() == ctor.args@.len() && object.0 < a.objects@.len() && exists|kk: int|
        #[trigger] first_misfit(program, a, ctor.scope as int, ctor.args@, args, kk) && misfit_error(
            program,
            a,
            ctor.scope as int,
            ctor.args@[kk],
            args[kk],
            err,
        ))
    ||| (args.len() == ctor.args@.len() && object.0 < a.objects@.len() && args_fit(
        program,
        a,
        ctor.scope as int,
        ctor.args@,
        args,
    ) && exists|pc: Seq<State<C>>, fc: Seq<State<C>>, body: Seq<State<C>>|
        #[trigger] ctor_steps_failed_once(program, a, b, class, index, object, args, pc, fc, body, err))
}

/// Whether the constructor of parent `pp` failed with `err`, from `a` to
/// `b`: the parent path is not found (the lookup's error) or names no class;
/// the initialiser's values fail to evaluate (see `values_failed_via`); no
/// constructor of the parent takes their types (naming the parent); the
/// bound on parent constructors one inside another is reached; or the
/// chosen constructor failed (see `ctor_error_once`).
pub open spec fn parent_failed<C: Core>(
    program: Program,
    a: State<C>,
    b: State<C>,
    scope: int,
    init: Seq<(Vec<String>, Vec<Expr>)>,
    pp: Path,
    object: ObjectId,
    cenv: int,
    err: RiddleError,
) -> bool {
    let l = type_at_path(program.types@, program.scopes@, scope, pp);
    let xs = init_for(init, pp);
    ||| (!(l is Found) && type_path_error(program, scope, pp, err) && b == a)
    ||| (l is Found && !class_scope_of(program, l->Found_0) && (err matches RiddleError::NotAClass(m) && m@
        == "Parent is not a class"@) && b == a)
    ||| (l is Found && class_scope_of(program, l->Found_0) && exists|ev: Seq<State<C>>, vs: Seq<Slot>|
        #[trigger] values_failed_via(a, b, cenv, xs, err, ev, vs))
    ||| (l is Found && class_scope_of(program, l->Found_0) && exists|vs: Seq<Slot>, ts: Seq<TypeId>, mid: State<C>|
        #[trigger] parent_chose(program, a, mid, cenv, xs, l->Found_0, vs, ts) && {
            let pc = program.types@[l->Found_0.0 as int]->Class_0;
            ||| ((forall|k: int| 0 <= k < pc.constructors@.len() ==> !takes(program.types@, pc, k, ts)) && b == mid
                && (err matches RiddleError::NotFound(m) && m@ == (if exists|j: int| first_init(init, pp, j) {
                "Constructor for parent class '"@ + path_text(full_path(program.types@, l->Found_0))
                    + "' with specified argument types"@
            } else {
                "No-arg constructor for parent class '"@ + path_text(full_path(program.types@, l->Found_0)) + "'"@
            })))
            ||| exists|pidx: usize|
                #[trigger] first_taking(program.types@, l->Found_0, pidx, ts) && ((b == mid && (err matches RiddleError::RuntimeError(
                    m,
                ) && m@ == "Too many parent constructors, one inside another"@)) || ctor_error_once(
                    program,
                    mid,
                    b,
                    l->Found_0,
                    pidx,
                    object,
                    vs,
                    err,
                ))
        })
}

/// The values `vs` of the initialiser's expressions `xs` were evaluated in
/// `cenv` from `a` to `mid`, of types `ts`.
pub open spec fn parent_chose<C: Core>(
    program: Program,
    a: State<C>,
    mid: State<C>,
    cenv: int,
    xs: Seq<SpecExpr>,
    pt: TypeId,
    vs: Seq<Slot>,
    ts: Seq<TypeId>,
) -> bool {
    &&& evaluates_all(a, mid, cenv, xs, vs)
    &&& ts.len() == vs.len()
    &&& forall|i: int| 0 <= i < vs.len() ==> slot_type(mid, #[trigger] vs[i]) == Some(ts[i])
}

/// Constructor `index` of class `class` on `object` with `args`, its values
/// fitting, failed with `err` from `a` to `b`: a parent's constructor failed
/// (see `parent_failed`), or the fields or the body failed (see
/// `ctor_tail_failed`).
pub open spec fn ctor_steps_failed<C: Core>(
    program: Program,
    a: State<C>,
    b: State<C>,
    class: TypeId,
    index: usize,
    object: ObjectId,
    args: Seq<Slot>,
    pc: Seq<State<C>>,
    fc: Seq<State<C>>,
    body: Seq<State<C>>,
    err: RiddleError,
) -> bool {
    let c = program.types@[class.0 as int]->Class_0;
    let ctor = c.constructors@[index as int];
    let j = pc.len() - 1;
    &&& ctor_entry(program, a, pc[0], class, index, object, args)
    &&& parents_prefix(program, pc, class, index, object, a.envs@.len() as int)
    &&& {
        ||| (pc.len() <= c.parents@.len() && parent_failed(
            program,
            pc.last(),
            b,
            ctor.scope as int,
            ctor.init@,
            path_view(c.parents@[j]@),
            object,
            a.envs@.len() as int,
            err,
        ))
        ||| ctor_tail_failed(program, a, b, class, index, object, pc, fc, body, err)
    }
}

/// How constructor `index` of class `class` on `object` with the values
/// `args` failed with `err`, from `a` to `b`: as `ctor_error_once`, with a
/// parent's failure described (see `ctor_steps_failed`).
pub open spec fn ctor_error<C: Core>(
    program: Program,
    a: State<C>,
    b: State<C>,
    class: TypeId,
    index: usize,
    object: ObjectId,
    args: Seq<Slot>,
    err: RiddleError,
) -> bool {
    let ctor = program.types@[class.0 as int]->Class_0.constructors@[index as int];
    ||| (args.len() != ctor.args@.len() && (err matches RiddleError::RuntimeError(m) && m@ == "Expected "@ + decimal(
        ctor.args@.len(),
    ) + " arguments, got "@ + decimal(args.len())))
    ||| (args.len() == ctor.args@.len() && object.0 >= a.objects@.len() && (err matches RiddleError::NotFound(m) && m@
        == "Object with ID "@ + decimal(object.0 as nat) + " not found"@))
    ||| (args.len() == ctor.args@.len() && object.0 < a.objects@.len() && exists|kk: int|
        #[trigger] first_misfit(program, a, ctor.scope as int, ctor.args@, args, kk) && misfit_error(
            program,
            a,
            ctor.scope as int,
            ctor.args@[kk],
            args[kk],
            err,
        ))
    ||| (args.len() == ctor.args@.len() && object.0 < a.objects@.len() && args_fit(
        program,
        a,
        ctor.scope as int,
        ctor.args@,
        args,
    ) && exists|pc: Seq<State<C>>, fc: Seq<State<C>>, body: Seq<State<C>>|
        #[trigger] ctor_steps_failed(program, a, b, class, index, object, args, pc, fc, body, err))
}

/// Constructor `index` of class `class` ran on `object` with the values
/// `args`, from `a` to `b`, through its phases (see `ctor_phases`), the
/// parents' constructors taken as steps whose content is not described.
pub open spec fn ctor_ran_once<C: Core>(
    program: Program,
    a: State<C>,
    b: State<C>,
    class: TypeId,
    index: usize,
    object: ObjectId,
    args: Seq<Slot>,
) -> bool {
    exists|pc: Seq<State<C>>, fc: Seq<State<C>>, body: Seq<State<C>>|
        #[trigger] ctor_phases(program, a, b, class, index, object, args, pc, fc, body)
}

/// Constructor `index` of class `class` ran on `object` with the values
/// `args`, from `a` to `b`, through its phases (see `ctor_phases`), each
/// step of the parents' chain being the run of a parent's constructor (see
/// `parent_step`).
pub open spec fn ctor_ran<C: Core>(
    program: Program,
    a: State<C>,
    b: State<C>,
    class: TypeId,
    index: usize,
    object: ObjectId,
    args: Seq<Slot>,
) -> bool {
    exists|pc: Seq<State<C>>, fc: Seq<State<C>>, body: Seq<State<C>>|
        #[trigger] ctor_phases(program, a, b, class, index, object, args, pc, fc, body) && parents_chain(
            program,
            pc,
            class,
            index,
            object,
            a.envs@.len() as int,
        )
}

/// A failure described in full is one described once.
proof fn lemma_error_once<C: Core>(
    program: Program,
    a: State<C>,
    b: State<C>,
    class: TypeId,
    index: usize,
    object: ObjectId,
    args: Seq<Slot>,
    err: RiddleError,
)
    requires
        ctor_error(program, a, b, class, index, object, args, err),
    ensures
        ctor_error_once(program, a, b, class, index, object, args, err),
{
    let ctor = program.types@[class.0 as int]->Class_0.constructors@[index as int];
    if args.len() == ctor.args@.len() && object.0 < a.objects@.len() && args_fit(program, a, ctor.scope as int, ctor.args@, args)
        && exists|pc: Seq<State<C>>, fc: Seq<State<C>>, body: Seq<State<C>>|
        #[trigger] ctor_steps_failed(program, a, b, class, index, object, args, pc, fc, body, err) {
        let (pc, fc, body) = choose|pc: Seq<State<C>>, fc: Seq<State<C>>, body: Seq<State<C>>|
            #[trigger] ctor_steps_failed(program, a, b, class, index, object, args, pc, fc, body, err);
        assert(ctor_steps_failed_once(program, a, b, class, index, object, args, pc, fc, body, err));
    }
}

/// A run described in full is one described once.
proof fn lemma_ran_once<C: Core>(
    program: Program,
    a: State<C>,
    b: State<C>,
    class: TypeId,
    index: usize,
    object: ObjectId,
    args: Seq<Slot>,
)
    requires
        ctor_ran(program, a, b, class, index, object, args),
    ensures
        ctor_ran_once(program, a, b, class, index, object, args),
{
    let (pc, fc, body) = choose|pc: Seq<State<C>>, fc: Seq<State<C>>, body: Seq<State<C>>|
        #[trigger] ctor_phases(program, a, b, class, index, object, args, pc, fc, body) && parents_chain(
            program,
            pc,
            class,
            index,
            object,
            a.envs@.len() as int,
        );
    assert(ctor_phases(program, a, b, class, index, object, args, pc, fc, body));
}

/// The expressions of initialiser `found`, when there is one; else none.
pub open spec fn found_exprs(init: Seq<(Vec<String>, Vec<Expr>)>, found: Option<usize>) -> Seq<SpecExpr> {
    match found {
        Some(j) => exprs_view(init[j as int].1@),
        None => seq![],
    }
}

/// The values that initialiser `found` (when there is one) gives for a
/// parent, evaluated one after the other in environment `cenv`, with their
/// types.
fn parent_values<C: Core>(
    state: &mut State<C>,
    init: &Vec<(Vec<String>, Vec<Expr>)>,
    found: Option<usize>,
    cenv: usize,
) -> (r: Result<(Vec<Slot>, Vec<TypeId>), RiddleError>)
    requires
        old(state).wf(),
        cenv < old(state).envs@.len(),
        found matches Some(j) ==> j < init@.len(),
    ensures
        final(state).wf(),
        same_places(*old(state), *final(state)),
        envs_grow(*old(state), *final(state)),
        formulas_grow(*old(state), *final(state)),
        r matches Ok((vs, ts)) ==> {
            let xs = found_exprs(init@, found);
            &&& evaluates_all(*old(state), *final(state), cenv as int, xs, vs@)
            &&& ts@.len() == vs@.len()
            &&& forall|i: int| 0 <= i < vs@.len() ==> slot_type(*final(state), #[trigger] vs@[i]) == Some(ts@[i])
        },
        r matches Err(err) ==> exists|ev: Seq<State<C>>, vs: Seq<Slot>|
            #[trigger] values_failed_via(
                *old(state),
                *final(state),
                cenv as int,
                found_exprs(init@, found),
                err,
                ev,
                vs,
            ),
{
    let ghost s0 = *state;
    let mut values: Vec<Slot> = Vec::new();
    let mut types: Vec<TypeId> = Vec::new();
    let ghost mut ev: Seq<State<C>> = seq![*state];
    proof {
        crate::runtime::lemma_envs_grow_refl(s0, s0);
    }
    match found {
        Some(j) => {
            let exprs = &init[j].1;
            let ghost xs = exprs_view(exprs@);
            let mut e: usize = 0;
            while e < exprs.len()
                invariant
                    found == Some(j),
                    j < init@.len(),
                    *exprs == init@[j as int].1,
                    state.wf(),
                    s0 == *old(state),
                    cenv < state.envs@.len(),
                    same_places(s0, *state),
                    envs_grow(s0, *state),
                    formulas_grow(s0, *state),
                    e <= exprs@.len(),
                    xs == exprs_view(exprs@),
                    ev.len() == e + 1,
                    ev[0] == s0,
                    ev.last() == *state,
                    values@.len() == e,
                    types@.len() == e,
                    forall|i: int| 0 <= i < e ==> #[trigger] evaluates_to(ev[i], ev[i + 1], cenv as int, xs[i], values@[i]),
                    forall|i: int| 0 <= i < e ==> slot_type(*state, #[trigger] values@[i]) == Some(types@[i]),
                decreases exprs.len() - e,
            {
                let ghost sb = *state;
                proof {
                    assert(xs[e as int] == exprs@[e as int]@);
                }
                let v = match evaluate(state, cenv, &exprs[e]) {
                    Ok(v) => v,
                    Err(err) => {
                        proof {
                            assert(values_failed_via(s0, *state, cenv as int, xs, err, ev, values@));
                            assert(found_exprs(init@, found) == xs);
                        }
                        return Err(err);
                    },
                };
                proof {
                    crate::runtime::lemma_envs_grow_refl(sb, *state);
                    lemma_envs_grow_trans(s0, sb, *state);
                }
                let t = match value_type(state, v) {
                    Ok(t) => t,
                    Err(err) => {
                        proof {
                            assert(evaluates_to(ev[e as int], *state, cenv as int, xs[e as int], v));
                            assert(values_failed_via(s0, *state, cenv as int, xs, err, ev, values@));
                            assert(found_exprs(init@, found) == xs);
                        }
                        return Err(err);
                    },
                };
                let ghost evb = ev;
                let ghost vb = values@;
                values.push(v);
                types.push(t);
                proof {
                    ev = ev.push(*state);
                    assert forall|i: int| 0 <= i < e + 1 implies #[trigger] evaluates_to(
                        ev[i],
                        ev[i + 1],
                        cenv as int,
                        xs[i],
                        values@[i],
                    ) by {
                        if i < e {
                            assert(ev[i] == evb[i]);
                            assert(ev[i + 1] == evb[i + 1]);
                            assert(values@[i] == vb[i]);
                        }
                    }
                    assert forall|i: int| 0 <= i < e + 1 implies slot_type(*state, #[trigger] values@[i]) == Some(types@[i]) by {
                        if i < e {
                            assert(values@[i] == vb[i]);
                            assert(slot_type(sb, vb[i]) == slot_type(*state, vb[i]));
                        }
                    }
                }
                e = e + 1;
            }
            proof {
                assert(eval_chain(s0, *state, cenv as int, xs, values@, ev));
            }
        },
        None => {
            proof {
                assert(eval_chain(s0, *state, cenv as int, seq![], values@, ev));
            }
        },
    }
    Ok((values, types))
}

/// Runs the constructors of the parents of class `class`, in order, for its
/// constructor `index` on `object` with environment `cenv`: for each parent,
/// the values of the first initialiser that names it (else none) are
/// evaluated in `cenv`, and the first constructor of the parent that takes
/// their types runs (see `parent_step`).
fn run_parents<C: Core>(
    program: &Program,
    state: &mut State<C>,
    class: TypeId,
    index: usize,
    object: ObjectId,
    cenv: usize,
    depth: usize,
) -> (r: Result<(), RiddleError>)
    requires
        old(state).wf(),
        class_scope_of(*program, class),
        index < program.types@[class.0 as int]->Class_0.constructors@.len(),
        object.0 < old(state).objects@.len(),
        cenv < old(state).envs@.len(),
    ensures
        final(state).wf(),
        envs_grow(*old(state), *final(state)),
        final(state).objects == old(state).objects,
        final(state).atoms == old(state).atoms,
        final(state).instances == old(state).instances,
        program.types@[class.0 as int]->Class_0.parents@.len() == 0 ==> r is Ok && *final(state) == *old(state),
        r is Ok ==> parents_ran(*program, *old(state), *final(state), class, index, object, cenv as int),
        r matches Err(err) ==> ({
            let c = program.types@[class.0 as int]->Class_0;
            let ctor = c.constructors@[index as int];
            exists|pc: Seq<State<C>>|
                #[trigger] parents_prefix(*program, pc, class, index, object, cenv as int) && pc[0] == *old(state)
                    && pc.len() <= c.parents@.len() && parent_failed(
                    *program,
                    pc.last(),
                    *final(state),
                    ctor.scope as int,
                    ctor.init@,
                    path_view(c.parents@[pc.len() - 1]@),
                    object,
                    cenv as int,
                    err,
                )
        }),
        r is Ok ==> ({
            let c = program.types@[class.0 as int]->Class_0;
            forall|m: int|
                0 <= m < c.parents@.len() ==> (type_at_path(
                    program.types@,
                    program.scopes@,
                    c.constructors@[index as int].scope as int,
                    path_view((#[trigger] c.parents@[m])@),
                ) matches TypeLookup::Found(pt) && class_scope_of(*program, pt))
        }),
    decreases depth, 0nat,
{
    let ghost s0 = *state;
    proof {
        crate::runtime::lemma_envs_grow_refl(s0, s0);
    }
    let c = match &program.types[class.0] {
        Type::Class(c) => c,
        _ => {
            return Err(RiddleError::NotAClass("Constructor of a type that is not a class".to_owned()));
        },
    };
    let ctor = &c.constructors[index];
    let ghost mut pc: Seq<State<C>> = seq![*state];
    let mut p: usize = 0;
    while p < c.parents.len()
        invariant
            state.wf(),
            s0 == *old(state),
            class.0 < program.types@.len(),
            program.types@[class.0 as int] == Type::Class(*c),
            index < c.constructors@.len(),
            c.constructors@[index as int] == *ctor,
            object.0 < s0.objects@.len(),
            envs_grow(s0, *state),
            state.objects == s0.objects,
            state.atoms == s0.atoms,
            state.instances == s0.instances,
            cenv < state.envs@.len(),
            p <= c.parents@.len(),
            pc.len() == p + 1,
            pc[0] == s0,
            pc.last() == *state,
            forall|m: int|
                0 <= m < p ==> #[trigger] parent_ran(
                    *program,
                    pc[m],
                    pc[m + 1],
                    ctor.scope as int,
                    ctor.init@,
                    path_view(c.parents@[m]@),
                    object,
                    cenv as int,
                                    ),
            forall|m: int|
                0 <= m < p ==> (type_at_path(
                    program.types@,
                    program.scopes@,
                    ctor.scope as int,
                    path_view((#[trigger] c.parents@[m])@),
                ) matches TypeLookup::Found(pt) && class_scope_of(*program, pt)),
        decreases c.parents.len() - p,
    {
        let ghost sp = *state;
        let ghost pp = path_view(c.parents@[p as int]@);
        proof {
            assert(parents_prefix(*program, pc, class, index, object, cenv as int));
        }
        let pt = match get_type_by_path(program, ctor.scope, &c.parents[p]) {
            Ok(pt) => pt,
            Err(err) => {
                proof {
                    assert(parent_failed(*program, sp, *state, ctor.scope as int, ctor.init@, pp, object, cenv as int, err));
                }
                return Err(err);
            },
        };
        if pt.0 >= program.types.len() {
            let err = RiddleError::NotAClass("Parent is not a class".to_owned());
            proof {
                assert(parent_failed(*program, sp, *state, ctor.scope as int, ctor.init@, pp, object, cenv as int, err));
            }
            return Err(err);
        }
        let pcl = match &program.types[pt.0] {
            Type::Class(pcl) => pcl,
            _ => {
                let err = RiddleError::NotAClass("Parent is not a class".to_owned());
                proof {
                    assert(parent_failed(*program, sp, *state, ctor.scope as int, ctor.init@, pp, object, cenv as int, err));
                }
                return Err(err);
            },
        };
        let mut found: Option<usize> = None;
        let mut j: usize = 0;
        while j < ctor.init.len()
            invariant
                j <= ctor.init@.len(),
                p < c.parents@.len(),
                pp == path_view(c.parents@[p as int]@),
                found is None ==> forall|m: int| 0 <= m < j ==> path_view((#[trigger] ctor.init@[m]).0@) != pp,
                found is Some ==> j == ctor.init@.len(),
                found matches Some(f) ==> first_init(ctor.init@, pp, f as int),
            decreases ctor.init.len() - j,
        {
            if same_path(&ctor.init[j].0, &c.parents[p]) {
                proof {
                    assert(first_init(ctor.init@, pp, j as int));
                }
                found = Some(j);
                j = ctor.init.len();
            } else {
                j = j + 1;
            }
        }
        proof {
            match found {
                Some(f) => {
                    let w = choose|i: int| first_init(ctor.init@, pp, i);
                    assert(first_init(ctor.init@, pp, w));
                    if w < f {
                        assert(path_view(ctor.init@[w].0@) != pp);
                    } else if w > f {
                        assert(path_view(ctor.init@[f as int].0@) != pp);
                    }
                    assert(init_for(ctor.init@, pp) == exprs_view(ctor.init@[f as int].1@));
                },
                None => {
                    assert(!exists|i: int| first_init(ctor.init@, pp, i));
                    assert(init_for(ctor.init@, pp) == Seq::<SpecExpr>::empty());
                },
            }
        }
        proof {
            assert(found_exprs(ctor.init@, found) == init_for(ctor.init@, pp));
        }
        let (values, types) = match parent_values(state, &ctor.init, found, cenv) {
            Ok(vt) => vt,
            Err(err) => {
                proof {
                    let (ev, vs) = choose|ev: Seq<State<C>>, vs: Seq<Slot>|
                        #[trigger] values_failed_via(sp, *state, cenv as int, found_exprs(ctor.init@, found), err, ev, vs);
                    assert(values_failed_via(sp, *state, cenv as int, init_for(ctor.init@, pp), err, ev, vs));
                    assert(parent_failed(*program, sp, *state, ctor.scope as int, ctor.init@, pp, object, cenv as int, err));
                }
                return Err(err);
            },
        };
        let ghost mid = *state;
        proof {
            assert(parent_chose(*program, sp, mid, cenv as int, init_for(ctor.init@, pp), pt, values@, types@));
        }
        proof {
            lemma_envs_grow_trans(s0, sp, mid);
        }
        let pidx = match find_constructor(program, pcl, &types) {
            Some(i) => i,
            None => {
                let err = RiddleError::NotFound(parent_ctor_message(program, pt, found.is_some()));
                proof {
                    assert(found.is_some() == exists|j: int| first_init(ctor.init@, pp, j));
                    assert(parent_failed(*program, sp, *state, ctor.scope as int, ctor.init@, pp, object, cenv as int, err));
                }
                return Err(err);
            },
        };
        proof {
            assert(first_taking(program.types@, pt, pidx, types@));
        }
        if depth == 0 {
            let err = RiddleError::RuntimeError("Too many parent constructors, one inside another".to_owned());
            proof {
                assert(parent_failed(*program, sp, *state, ctor.scope as int, ctor.init@, pp, object, cenv as int, err));
            }
            return Err(err);
        }
        let ghost vs = values@;
        let res = Constructor::call(program, state, pt, pidx, object, values, depth - 1);
        proof {
            lemma_envs_grow_trans(s0, mid, *state);
        }
        match res {
            Ok(()) => {},
            Err(err) => {
                proof {
                    lemma_error_once(*program, mid, *state, pt, pidx, object, vs, err);
                    assert(parent_failed(*program, sp, *state, ctor.scope as int, ctor.init@, pp, object, cenv as int, err));
                }
                return Err(err);
            },
        }
        proof {
            lemma_ran_once(*program, mid, *state, pt, pidx, object, vs);
            assert(parent_step(
                *program,
                sp,
                *state,
                ctor.scope as int,
                ctor.init@,
                pp,
                object,
                cenv as int,
                pt,
                pidx,
                vs,
                types@,
                mid,
            ));
            assert(parent_ran(*program, sp, *state, ctor.scope as int, ctor.init@, pp, object, cenv as int));
            let pcb = pc;
            pc = pc.push(*state);
            assert forall|m: int|
                0 <= m < p + 1 implies #[trigger] parent_ran(
                *program,
                pc[m],
                pc[m + 1],
                ctor.scope as int,
                ctor.init@,
                path_view(c.parents@[m]@),
                object,
                cenv as int,
                            ) by {
                if m < p {
                    assert(pc[m] == pcb[m]);
                    assert(pc[m + 1] == pcb[m + 1]);
                } else {
                    assert(pc[m] == sp);
                    assert(pc[m + 1] == *state);
                    assert(path_view(c.parents@[m]@) == pp);
                }
            }
        }
        p = p + 1;
    }
    proof {
        let cc = program.types@[class.0 as int]->Class_0;
        assert(cc == *c);
        assert forall|m: int|
            0 <= m < cc.parents@.len() implies #[trigger] parent_ran(
            *program,
            pc[m],
            pc[m + 1],
            cc.constructors@[index as int].scope as int,
            cc.constructors@[index as int].init@,
            path_view(cc.parents@[m]@),
            object,
            cenv as int,
                    ) by {
            assert(parent_ran(
                *program,
                pc[m],
                pc[m + 1],
                ctor.scope as int,
                ctor.init@,
                path_view(c.parents@[m]@),
                object,
                cenv as int,
                            ));
        }
        assert(parents_chain(*program, pc, class, index, object, cenv as int));
    }
    Ok(())
}

/// When argument `k` does not fit and all before it do, it is the first
/// misfit, and the only one.
proof fn lemma_misfit_here<C: Core>(
    program: Program,
    st: State<C>,
    scope: int,
    decl: Seq<(Vec<String>, String)>,
    args: Seq<Slot>,
    k: int,
)
    requires
        0 <= k < args.len(),
        !fits(program, st, scope, path_view(decl[k].0@), args[k]),
        forall|m: int| 0 <= m < k ==> fits(program, st, scope, path_view(decl[m].0@), #[trigger] args[m]),
    ensures
        first_misfit(program, st, scope, decl, args, k),
        forall|kk: int| #[trigger] first_misfit(program, st, scope, decl, args, kk) && k <= kk ==> kk == k,
{
}

/// A field of the class failing after the parents' constructors ran makes
/// the constructor fail with its error.
proof fn lemma_field_failed<C: Core>(
    program: Program,
    a: State<C>,
    b: State<C>,
    class: TypeId,
    index: usize,
    object: ObjectId,
    args: Seq<Slot>,
    pc: Seq<State<C>>,
    fc: Seq<State<C>>,
    err: RiddleError,
)
    requires
        class_scope_of(program, class),
        index < program.types@[class.0 as int]->Class_0.constructors@.len(),
        args.len() == program.types@[class.0 as int]->Class_0.constructors@[index as int].args@.len(),
        object.0 < a.objects@.len(),
        args_fit(
            program,
            a,
            program.types@[class.0 as int]->Class_0.constructors@[index as int].scope as int,
            program.types@[class.0 as int]->Class_0.constructors@[index as int].args@,
            args,
        ),
        ctor_entry(program, a, pc[0], class, index, object, args),
        parents_chain(program, pc, class, index, object, a.envs@.len() as int),
        ({
            let c = program.types@[class.0 as int]->Class_0;
            let ctor = c.constructors@[index as int];
            let fields = class_field_list(program, c.scope as int);
            let oe = a.objects@[object.0 as int].env as int;
            &&& 1 <= fc.len() <= fields.len()
            &&& fc[0] == pc.last()
            &&& forall|k: int|
                0 <= k < fc.len() - 1 ==> #[trigger] class_field_step(
                    program,
                    fc[k],
                    fc[k + 1],
                    ctor.scope as int,
                    oe,
                    a.envs@.len() as int,
                    fields[k],
                )
            &&& class_field_error(
                program,
                fc.last(),
                b,
                ctor.scope as int,
                oe,
                a.envs@.len() as int,
                fields[fc.len() - 1],
                err,
            )
        }),
    ensures
        ctor_error(program, a, b, class, index, object, args, err),
{
    let c = program.types@[class.0 as int]->Class_0;
    let ctor = c.constructors@[index as int];
    let oe = a.objects@[object.0 as int].env as int;
    let fc2 = fc.push(b);
    assert forall|k: int| 0 <= k < fc2.len() - 2 implies #[trigger] class_field_step(
        program,
        fc2[k],
        fc2[k + 1],
        ctor.scope as int,
        oe,
        a.envs@.len() as int,
        class_field_list(program, c.scope as int)[k],
    ) by {
        assert(fc2[k] == fc[k] && fc2[k + 1] == fc[k + 1]);
    }
    assert(class_fields_failed(program, fc2, ctor.scope as int, oe, a.envs@.len() as int, class_field_list(program, c.scope as int), err));
    assert(ctor_tail_failed(program, a, b, class, index, object, pc, fc2, seq![], err));
    assert(parents_prefix(program, pc, class, index, object, a.envs@.len() as int));
    assert(ctor_steps_failed(program, a, b, class, index, object, args, pc, fc2, seq![], err));
}

impl Constructor {
    /// Runs constructor `index` of class `class` on `object` with the values
    /// `args`: checks and binds the arguments (and `this`) in a new
    /// environment over the object's, runs the constructors of the parent
    /// classes (with the initialiser given for each, else the one without
    /// arguments), gives each field of the class not set yet its default
    /// value (see `default_value`), then runs the body. `depth` bounds how
    /// many parent constructors may run, one inside another.
    #[verifier::rlimit(100)]
    pub fn call<C: Core>(
        program: &Program,
        state: &mut State<C>,
        class: TypeId,
        index: usize,
        object: ObjectId,
        args: Vec<Slot>,
        depth: usize,
    ) -> (r: Result<(), RiddleError>)
        requires
            old(state).wf(),
        ensures
            final(state).wf(),
            envs_grow(*old(state), *final(state)),
            final(state).objects == old(state).objects,
            final(state).atoms == old(state).atoms,
            final(state).instances == old(state).instances,
            !class_scope_of(*program, class) ==> r is Err,
            class_scope_of(*program, class) && index >= program.types@[class.0 as int]->Class_0.constructors@.len()
                ==> r is Err,
            class_scope_of(*program, class) && index < program.types@[class.0 as int]->Class_0.constructors@.len()
                && args@.len() != program.types@[class.0 as int]->Class_0.constructors@[index as int].args@.len()
                ==> r is Err,
            object.0 >= old(state).objects@.len() ==> r is Err,
            object.0 < old(state).objects@.len() && constructor_owed(*program, *old(state), class, index, args@) ==> r is Ok,
            !class_scope_of(*program, class) || index >= program.types@[class.0 as int]->Class_0.constructors@.len()
                || args@.len() != program.types@[class.0 as int]->Class_0.constructors@[index as int].args@.len()
                || object.0 >= old(state).objects@.len() ==> *final(state) == *old(state),
            r is Ok ==> ({
                let ctor = program.types@[class.0 as int]->Class_0.constructors@[index as int];
                &&& args_fit(*program, *old(state), ctor.scope as int, ctor.args@, args@)
                &&& exists|chain: Seq<State<C>>|
                    #[trigger] ran_all(
                        *program,
                        chain,
                        ctor.scope as int,
                        old(state).envs@.len() as int,
                        stmts_view(ctor.statements@),
                    ) && chain.last() == *final(state)
            }),
            r is Ok ==> ({
                let c = program.types@[class.0 as int]->Class_0;
                forall|m: int|
                    0 <= m < c.parents@.len() ==> (type_at_path(
                        program.types@,
                        program.scopes@,
                        c.constructors@[index as int].scope as int,
                        path_view((#[trigger] c.parents@[m])@),
                    ) matches TypeLookup::Found(pt) && class_scope_of(*program, pt))
            }),
            r is Ok ==> ({
                let c = program.types@[class.0 as int]->Class_0;
                let oe = old(state).objects@[object.0 as int].env as int;
                c.scope < program.scopes@.len() ==> forall|k: int|
                    0 <= k < program.scopes@[c.scope as int].fields@.len() ==> bound(
                        final(state).envs@[oe].variables@,
                        (#[trigger] program.scopes@[c.scope as int].fields@[k]).name@,
                    ) is Some
            }),
        r is Ok ==> ctor_ran(*program, *old(state), *final(state), class, index, object, args@),
        class_scope_of(*program, class) && index < program.types@[class.0 as int]->Class_0.constructors@.len() ==> (r matches Err(
            err,
        ) ==> ctor_error(*program, *old(state), *final(state), class, index, object, args@, err)),
        ({
            let ctor = program.types@[class.0 as int]->Class_0.constructors@[index as int];
            class_scope_of(*program, class) && index < program.types@[class.0 as int]->Class_0.constructors@.len()
                && args@.len() != ctor.args@.len() ==> (r matches Err(RiddleError::RuntimeError(m)) && m@ == "Expected "@
                + decimal(ctor.args@.len()) + " arguments, got "@ + decimal(args@.len()))
        }),
        ({
            let ctor = program.types@[class.0 as int]->Class_0.constructors@[index as int];
            class_scope_of(*program, class) && index < program.types@[class.0 as int]->Class_0.constructors@.len()
                && args@.len() == ctor.args@.len() && object.0 >= old(state).objects@.len() ==> (r matches Err(
                RiddleError::NotFound(m),
            ) && m@ == "Object with ID "@ + decimal(object.0 as nat) + " not found"@)
        }),
        ({
            let ctor = program.types@[class.0 as int]->Class_0.constructors@[index as int];
            let oe = old(state).objects@[object.0 as int].env as int;
            class_scope_of(*program, class) && index < program.types@[class.0 as int]->Class_0.constructors@.len()
                && args@.len() == ctor.args@.len() && object.0 < old(state).objects@.len() ==> {
                &&& !args_fit(*program, *old(state), ctor.scope as int, ctor.args@, args@) ==> r is Err
                    && final(state).envs@[oe] == old(state).envs@[oe]
                &&& forall|kk: int|
                    #[trigger] first_misfit(*program, *old(state), ctor.scope as int, ctor.args@, args@, kk) ==> (r matches Err(
                        e,
                    ) && misfit_error(*program, *old(state), ctor.scope as int, ctor.args@[kk], args@[kk], e))
            }
        }),
        decreases depth, 1nat,
    {
        let ghost s0 = *state;
        proof {
            crate::runtime::lemma_envs_grow_refl(s0, s0);
        }
        if class.0 >= program.types.len() {
            return Err(RiddleError::NotAClass("Constructor of a type that is not a class".to_owned()));
        }
        let c = match &program.types[class.0] {
            Type::Class(c) => c,
            _ => {
                return Err(RiddleError::NotAClass("Constructor of a type that is not a class".to_owned()));
            },
        };
        if index >= c.constructors.len() {
            return Err(RiddleError::NotFound("Constructor not found".to_owned()));
        }
        let ctor = &c.constructors[index];
        if args.len() != ctor.args.len() {
            return Err(RiddleError::RuntimeError(count_message(ctor.args.len(), args.len())));
        }
        let obj_env = match state.get_object(object) {
            Some(o) => o.env,
            None => {
                return Err(RiddleError::NotFound(numbered_message("Object with ID ", object.0, " not found")));
            },
        };
        let cenv = state.new_env(Some(obj_env));
        let ghost s1 = *state;
        state.set(cenv, "this".to_owned(), Slot::ObjectRef(object));
        proof {
            lemma_envs_grow_trans(s0, s1, *state);
            assert(obj_env < s0.envs@.len());
            assert(state.envs@[obj_env as int] == s0.envs@[obj_env as int]);
        }
        // The arguments.
        let ghost na = args.len();
        let ghost args0 = args@;
        let ghost owed = constructor_owed(*program, s0, class, index, args0);
        let mut rest = args;
        let mut k: usize = 0;
        while rest.len() > 0
            invariant
                state.wf(),
                s0 == *old(state),
                class.0 < program.types@.len(),
                program.types@[class.0 as int] == Type::Class(*c),
                index < c.constructors@.len(),
                c.constructors@[index as int] == *ctor,
                owed == constructor_owed(*program, s0, class, index, args0),
                args0 == args@,
                object.0 < s0.objects@.len(),
                args0.len() == ctor.args@.len(),
                envs_grow(s0, *state),
                state.objects == s0.objects,
                state.atoms == s0.atoms,
                state.instances == s0.instances,
                cenv < state.envs@.len(),
                obj_env == s0.objects@[object.0 as int].env,
                k + rest.len() == na,
                na == ctor.args@.len(),
                na == args0.len(),
                rest@ == args0.subrange(k as int, na as int),
                forall|m: int| 0 <= m < k ==> fits(*program, s0, ctor.scope as int, path_view(ctor.args@[m].0@), #[trigger] args0[m]),
                cenv == s0.envs@.len(),
                obj_env < s0.envs@.len(),
                forall|kk: int| #[trigger] first_misfit(*program, s0, ctor.scope as int, ctor.args@, args0, kk) ==> k <= kk,
                state.envs@.len() == cenv + 1,
                state.envs@[cenv as int].parent == Some(obj_env),
                state.envs@[obj_env as int] == s0.envs@[obj_env as int],
                forall|m: int|
                    0 <= m < k && #[trigger] arg_unshadowed(ctor.args@, m, k as int) ==> env_lookup(state.envs@, cenv as int, ctor.args@[m].1@)
                        == Some(args0[m]),
                (forall|m: int| 0 <= m < k ==> (#[trigger] ctor.args@[m]).1@ != "this"@) ==> env_lookup(
                    state.envs@,
                    cenv as int,
                    "this"@,
                ) == Some(Slot::ObjectRef(object)),
            decreases rest.len(),
        {
            proof {
                assert(rest@[0] == args0[k as int]);
            }
            let value = rest.remove(0);
            proof {
                assert(rest@ =~= args0.subrange(k + 1, na as int));
            }
            proof {
                if owed {
                    assert(fits(*program, s0, ctor.scope as int, path_view(ctor.args@[k as int].0@), args0[k as int]));
                }
            }
            let expected = match get_type_by_path(program, ctor.scope, &ctor.args[k].0) {
                Ok(t) => t,
                Err(e) => {
                    proof {
                        lemma_misfit_here(*program, s0, ctor.scope as int, ctor.args@, args0, k as int);
                    }
                    return Err(e);
                },
            };
            let vt = match value_type(state, value) {
                Ok(t) => t,
                Err(e) => {
                    proof {
                        assert(slot_type(s0, value) == slot_type(*state, value));
                        lemma_misfit_here(*program, s0, ctor.scope as int, ctor.args@, args0, k as int);
                    }
                    return Err(e);
                },
            };
            proof {
                assert(slot_type(s0, value) == slot_type(*state, value));
            }
            if !is_assignable_from(program, expected, vt) {
                let r = Err(RiddleError::TypeError(argument_type_message(program, &ctor.args[k].1, expected, vt)));
                proof {
                    lemma_misfit_here(*program, s0, ctor.scope as int, ctor.args@, args0, k as int);
                }
                return r;
            }
            proof {
                assert(fits(*program, s0, ctor.scope as int, path_view(ctor.args@[k as int].0@), args0[k as int]));
                assert forall|kk: int| #[trigger] first_misfit(*program, s0, ctor.scope as int, ctor.args@, args0, kk) implies k + 1 <= kk by {
                    assert(kk != k);
                }
            }
            let ghost sb = *state;
            let ghost before = state.envs@;
            state.set(cenv, ctor.args[k].1.clone(), value);
            proof {
                lemma_envs_grow_trans(s0, sb, *state);
                assert forall|m: int|
                    0 <= m < k + 1 && #[trigger] arg_unshadowed(ctor.args@, m, k + 1) implies env_lookup(
                        state.envs@,
                        cenv as int,
                        ctor.args@[m].1@,
                    ) == Some(args0[m]) by {
                    if m < k {
                        assert(ctor.args@[k as int].1@ != ctor.args@[m].1@);
                        assert(arg_unshadowed(ctor.args@, m, k as int));
                        lemma_set_keeps_lookup(before, state.envs@, cenv as int, ctor.args@[k as int].1@, value, ctor.args@[m].1@);
                    }
                }
                if forall|m: int| 0 <= m < k + 1 ==> (#[trigger] ctor.args@[m]).1@ != "this"@ {
                    assert(ctor.args@[k as int].1@ != "this"@);
                    lemma_set_keeps_lookup(before, state.envs@, cenv as int, ctor.args@[k as int].1@, value, "this"@);
                }
            }
            k = k + 1;
        }
        proof {
            assert(args_fit(*program, s0, ctor.scope as int, ctor.args@, args0));
            assert(args_bound(*state, cenv as int, ctor.args@, args0));
        }
        // The parent classes.
        let ghost sa = *state;
        let pr = run_parents(program, state, class, index, object, cenv, depth);
        proof {
            lemma_envs_grow_trans(s0, sa, *state);
            if owed {
                assert(c.parents@.len() == 0);
            }
        }
        proof {
            assert(ctor_entry(*program, s0, sa, class, index, object, args0));
        }
        match pr {
            Ok(()) => {},
            Err(err) => {
                proof {
                    let c0 = program.types@[class.0 as int]->Class_0;
                    let pc = choose|pc: Seq<State<C>>|
                        #[trigger] parents_prefix(*program, pc, class, index, object, cenv as int) && pc[0] == sa
                            && pc.len() <= c0.parents@.len() && parent_failed(
                            *program,
                            pc.last(),
                            *state,
                            c0.constructors@[index as int].scope as int,
                            c0.constructors@[index as int].init@,
                            path_view(c0.parents@[pc.len() - 1]@),
                            object,
                            cenv as int,
                            err,
                        );
                    assert(ctor_steps_failed(*program, s0, *state, class, index, object, args0, pc, seq![], seq![], err));
                }
                return Err(err);
            },
        }
        let ghost pc = choose|pc: Seq<State<C>>|
            #[trigger] parents_chain(*program, pc, class, index, object, cenv as int) && pc[0] == sa && pc.last() == *state;
        // The fields of the class.
        let ghost s2 = *state;
        proof {
            crate::runtime::lemma_envs_grow_refl(s2, s2);
        }
        let ghost mut fc: Seq<State<C>> = seq![*state];
        if c.scope < program.scopes.len() {
            let fields = &program.scopes[c.scope].fields;
            let mut i: usize = 0;
            while i < fields.len()
                invariant
                    state.wf(),
                    s0 == *old(state),
                class.0 < program.types@.len(),
                program.types@[class.0 as int] == Type::Class(*c),
                index < c.constructors@.len(),
                c.constructors@[index as int] == *ctor,
                owed == constructor_owed(*program, s0, class, index, args0),
                args0 == args@,
                object.0 < s0.objects@.len(),
                args0.len() == ctor.args@.len(),
                    envs_grow(s0, *state),
                    envs_grow(s2, *state),
                    state.objects == s0.objects,
                    state.atoms == s0.atoms,
                    state.instances == s0.instances,
                    cenv < state.envs@.len(),
                    obj_env == s0.objects@[object.0 as int].env,
                    obj_env < state.envs@.len(),
                    i <= fields@.len(),
                    c.scope < program.scopes@.len(),
                    *fields == program.scopes@[c.scope as int].fields,
                    forall|m: int| 0 <= m < i ==> bound(state.envs@[obj_env as int].variables@, (#[trigger] fields@[m]).name@) is Some,
                    forall|n: Name|
                        bound(s2.envs@[obj_env as int].variables@, n) is Some ==> #[trigger] bound(
                            state.envs@[obj_env as int].variables@,
                            n,
                        ) == bound(s2.envs@[obj_env as int].variables@, n),
                    obj_env < s2.envs@.len(),
                    args_fit(*program, s0, ctor.scope as int, ctor.args@, args0),
                    fc.len() == i + 1,
                    fc[0] == s2,
                    fc.last() == *state,
                    cenv == s0.envs@.len(),
                    ctor_entry(*program, s0, pc[0], class, index, object, args0),
                    parents_chain(*program, pc, class, index, object, cenv as int),
                    pc.last() == s2,
                    forall|k: int|
                        0 <= k < i ==> #[trigger] class_field_step(
                            *program,
                            fc[k],
                            fc[k + 1],
                            ctor.scope as int,
                            obj_env as int,
                            cenv as int,
                            fields@[k],
                        ),
                decreases fields.len() - i,
            {
                proof {
                    if owed {
                        assert(fields_owed(*program, s0, ctor.scope as int, fields@));
                        assert(fields@[i as int].default is None);
                    }
                }
                let ghost sa0 = *state;
                let ghost fld = fields@[i as int];
                let fld_tp = match get_type_by_path(program, ctor.scope, &fields[i].field_type) {
                    Ok(t) => t,
                    Err(err) => {
                        proof {
                            lemma_field_failed(*program, s0, *state, class, index, object, args0, pc, fc, err);
                        }
                        return Err(err);
                    },
                };
                proof {
                    if owed {
                        assert(defaults_owed(*program, s0, fld_tp));
                        assert(defaults_owed(*program, *state, fld_tp));
                    }
                }
                if state.envs[obj_env].get(&fields[i].name).is_none() {
                    let ghost sa = *state;
                    proof {
                        assert(opt_expr_view(fld.default) == match fld.default {
                            Some(x) => Some(x@),
                            None => None::<SpecExpr>,
                        });
                    }
                    let value = match &fields[i].default {
                        Some(expr) => {
                            let v = match evaluate(state, cenv, expr) {
                                Ok(v) => v,
                                Err(err) => {
                                    proof {
                                        assert(class_field_error(*program, sa0, *state, ctor.scope as int, obj_env as int, cenv as int, fld, err));
                                        lemma_field_failed(*program, s0, *state, class, index, object, args0, pc, fc, err);
                                    }
                                    return Err(err);
                                },
                            };
                            let vt = match value_type(state, v) {
                                Ok(vt) => vt,
                                Err(err) => {
                                    proof {
                                        assert(evaluates_to(sa0, *state, cenv as int, expr@, v));
                                        assert(class_field_error(*program, sa0, *state, ctor.scope as int, obj_env as int, cenv as int, fld, err));
                                        lemma_field_failed(*program, s0, *state, class, index, object, args0, pc, fc, err);
                                    }
                                    return Err(err);
                                },
                            };
                            if !is_assignable_from(program, fld_tp, vt) {
                                let err = RiddleError::TypeError(quoted_message("Field ", &fields[i].name, " has the wrong type"));
                                proof {
                                    assert(evaluates_to(sa0, *state, cenv as int, expr@, v));
                                    assert(class_field_error(*program, sa0, *state, ctor.scope as int, obj_env as int, cenv as int, fld, err));
                                    lemma_field_failed(*program, s0, *state, class, index, object, args0, pc, fc, err);
                                }
                                return Err(err);
                            }
                            v
                        },
                        None => match default_value(program, state, fld_tp, &fields[i].name) {
                            Ok(v) => v,
                            Err(err) => {
                                proof {
                                    assert(class_field_error(*program, sa0, *state, ctor.scope as int, obj_env as int, cenv as int, fld, err));
                                    lemma_field_failed(*program, s0, *state, class, index, object, args0, pc, fc, err);
                                }
                                return Err(err);
                            },
                        },
                    };
                    proof {
                        crate::runtime::lemma_envs_grow_refl(sa, *state);
                        lemma_envs_grow_trans(s0, sa, *state);
                        lemma_envs_grow_trans(s2, sa, *state);
                    }
                    let ghost sb = *state;
                    state.set(obj_env, fields[i].name.clone(), value);
                    proof {
                        assert(state.envs@[obj_env as int].variables@.drop_last() =~= sb.envs@[obj_env as int].variables@);
                        assert(class_field_step_via(
                            *program,
                            sa0,
                            *state,
                            ctor.scope as int,
                            obj_env as int,
                            cenv as int,
                            fields@[i as int],
                            fld_tp,
                            sb,
                            value,
                        ));
                        let vb = sb.envs@[obj_env as int].variables@;
                        let va = state.envs@[obj_env as int].variables@;
                        assert(va.drop_last() =~= vb);
                        assert forall|n: Name|
                            bound(s2.envs@[obj_env as int].variables@, n) is Some implies #[trigger] bound(va, n)
                                == bound(s2.envs@[obj_env as int].variables@, n) by {
                            if n == fields@[i as int].name@ {
                                assert(bound(sa.envs@[obj_env as int].variables@, n) is None);
                            }
                        }
                        lemma_envs_grow_trans(s0, sb, *state);
                        lemma_envs_grow_trans(s2, sb, *state);
                        assert forall|m: int| 0 <= m < i + 1 implies bound(
                            state.envs@[obj_env as int].variables@,
                            (#[trigger] fields@[m]).name@,
                        ) is Some by {
                            if m < i {
                                crate::runtime::lemma_bound_grows(
                                    sb.envs@[obj_env as int].variables@,
                                    state.envs@[obj_env as int].variables@,
                                    fields@[m].name@,
                                );
                            }
                        }
                    }
                }
                proof {
                    let fld = fields@[i as int];
                    if bound(sa0.envs@[obj_env as int].variables@, fld.name@) is Some {
                        assert(class_field_step_via(
                            *program,
                            sa0,
                            *state,
                            ctor.scope as int,
                            obj_env as int,
                            cenv as int,
                            fld,
                            fld_tp,
                            sa0,
                            Slot::ObjectRef(object),
                        ));
                    }
                    assert(class_field_step(*program, sa0, *state, ctor.scope as int, obj_env as int, cenv as int, fld));
                    let fcb = fc;
                    fc = fc.push(*state);
                    assert forall|k: int| 0 <= k < i + 1 implies #[trigger] class_field_step(
                        *program,
                        fc[k],
                        fc[k + 1],
                        ctor.scope as int,
                        obj_env as int,
                        cenv as int,
                        fields@[k],
                    ) by {
                        if k < i {
                            assert(fc[k] == fcb[k] && fc[k + 1] == fcb[k + 1]);
                        }
                    }
                }
                i = i + 1;
            }
        }
        proof {
            assert(class_fields_chain(*program, fc, ctor.scope as int, obj_env as int, cenv as int, class_field_list(*program, c.scope as int)));
        }
        let ghost s3 = *state;
        proof {
            crate::runtime::lemma_envs_grow_refl(s3, s3);
        }
        // The body.
        let ghost body = stmts_view(ctor.statements@);
        let ghost mut chain: Seq<State<C>> = seq![*state];
        let mut j: usize = 0;
        while j < ctor.statements.len()
            invariant
                state.wf(),
                s0 == *old(state),
                class.0 < program.types@.len(),
                program.types@[class.0 as int] == Type::Class(*c),
                index < c.constructors@.len(),
                c.constructors@[index as int] == *ctor,
                owed == constructor_owed(*program, s0, class, index, args0),
                args0 == args@,
                object.0 < s0.objects@.len(),
                args0.len() == ctor.args@.len(),
                envs_grow(s0, *state),
                envs_grow(s3, *state),
                state.objects == s0.objects,
                state.atoms == s0.atoms,
                state.instances == s0.instances,
                cenv < state.envs@.len(),
                j <= ctor.statements@.len(),
                body == stmts_view(ctor.statements@),
                chain.len() == j + 1,
                chain.last() == *state,
                chain[0] == s3,
                args_fit(*program, s0, ctor.scope as int, ctor.args@, args0),
                forall|k: int| 0 <= k < j ==> statement_done(*program, chain[k], chain[k + 1], ctor.scope as int, cenv as int, #[trigger] body[k], true),
                cenv == s0.envs@.len(),
                obj_env == s0.objects@[object.0 as int].env,
                ctor_entry(*program, s0, pc[0], class, index, object, args0),
                parents_chain(*program, pc, class, index, object, cenv as int),
                class_fields_chain(*program, fc, ctor.scope as int, obj_env as int, cenv as int, class_field_list(*program, c.scope as int)),
                fc[0] == pc.last(),
                fc.last() == s3,
            decreases ctor.statements.len() - j,
        {
            let ghost sb = *state;
            let ghost before = chain;
            let res = execute(program, state, ctor.scope, cenv, &ctor.statements[j]);
            proof {
                lemma_envs_grow_trans(s0, sb, *state);
                lemma_envs_grow_trans(s3, sb, *state);
                assert(body[j as int] == ctor.statements@[j as int]@);
                chain = chain.push(*state);
                assert forall|k: int| 0 <= k < j + 1 implies statement_done(*program, chain[k], chain[k + 1], ctor.scope as int, cenv as int, #[trigger] body[k], true) || k == j by {
                    if k < j {
                        assert(chain[k] == before[k]);
                        assert(chain[k + 1] == before[k + 1]);
                    }
                }
            }
            match res {
                Ok(()) => {},
                Err(err) => {
                    proof {
                        assert(ran_until_failure(*program, chain, ctor.scope as int, cenv as int, body));
                        assert(chain[chain.len() - 2] == sb);
                        assert(failed_with(*program, chain, ctor.scope as int, cenv as int, body, err));
                        assert(ctor_tail_failed(*program, s0, *state, class, index, object, pc, fc, chain, err));
                        assert(parents_prefix(*program, pc, class, index, object, cenv as int));
                        assert(ctor_steps_failed(*program, s0, *state, class, index, object, args0, pc, fc, chain, err));
                    }
                    return Err(err);
                },
            }
            j = j + 1;
        }
        proof {
            assert(ran_all(*program, chain, ctor.scope as int, cenv as int, body));
            assert(cenv == s0.envs@.len());
            assert(fields_given(*program, pc.last(), chain[0], c.scope as int, obj_env as int));
            assert(ctor_phases(*program, s0, *state, class, index, object, args0, pc, fc, chain));
            assert(parents_chain(*program, pc, class, index, object, s0.envs@.len() as int));
        }
        proof {
            if c.scope < program.scopes@.len() {
                let oe = obj_env as int;
                assert forall|m: int| 0 <= m < program.scopes@[c.scope as int].fields@.len() implies bound(
                    state.envs@[oe].variables@,
                    (#[trigger] program.scopes@[c.scope as int].fields@[m]).name@,
                ) is Some by {
                    lemma_bound_grows(s3.envs@[oe].variables@, state.envs@[oe].variables@, program.scopes@[c.scope as int].fields@[m].name@);
                }
            }
        }
        Ok(())
    }
}


pub open spec fn return_name() -> Name {
    seq!['_', '_', 'r', 'e', 't', 'u', 'r', 'n']
}

/// No argument after the `k`-th, up to the `i`-th, has its name.
pub open spec fn arg_unshadowed(decl: Seq<(Vec<String>, String)>, k: int, i: int) -> bool {
    forall|m: int| k < m < i ==> (#[trigger] decl[m]).1@ != decl[k].1@
}

/// In environment `e`, the name of each declared argument that no later one
/// redeclares is bound to the value given for it.
pub open spec fn args_bound<C: Core>(st: State<C>, e: int, decl: Seq<(Vec<String>, String)>, args: Seq<Slot>) -> bool {
    forall|k: int|
        0 <= k < args.len() && #[trigger] arg_unshadowed(decl, k, args.len() as int) ==> env_lookup(st.envs@, e, decl[k].1@)
            == Some(args[k])
}

/// How the error for a return value of type `got`, where `expected` was
/// declared, reads.
pub open spec fn return_type_text(types: Seq<Type>, expected: TypeId, got: TypeId) -> Seq<char> {
    "Return value expected to be of type '"@ + path_text(full_path(types, expected)) + "', got '"@ + path_text(
        full_path(types, got),
    ) + "'"@
}

/// The error for a return value `x` that does not fit the declared return
/// type `rt`: the type lookup's error when that type is not found, `NotFound`
/// when the value's object or atom does not exist, else a type error that
/// names the two types.
pub open spec fn return_misfit<C: Core>(program: Program, st: State<C>, scope: int, rt: Path, x: Slot, e: RiddleError) -> bool {
    match type_at_path(program.types@, program.scopes@, scope, rt) {
        TypeLookup::Found(t) => match slot_type(st, x) {
            Some(vt) => !assignable(program.types@, t, vt) && (e matches RiddleError::TypeError(m) && m@
                == return_type_text(program.types@, t, vt)),
            None => e is NotFound,
        },
        TypeLookup::Missing => e is NotFound,
        TypeLookup::NotClass => e is NotAClass,
        TypeLookup::Empty => e is RuntimeError,
    }
}

/// How a call of `f` whose values fit its arguments ended in error `e`, in
/// state `b`, with environment `fenv`: a statement of the body failed with
/// it (`failed_with`); or the whole body ran and then, for a function
/// with a return type, no value was bound to `__return` (a runtime error
/// saying so) or the value does not fit the return type (see
/// `return_misfit`).
pub open spec fn call_failed<C: Core>(program: Program, b: State<C>, f: Function, fenv: int, e: RiddleError) -> bool {
    ||| exists|chain: Seq<State<C>>|
        #[trigger] failed_with(program, chain, f.scope as int, fenv, stmts_view(f.statements@), e) && chain.last() == b
    ||| {
        &&& f.return_type is Some
        &&& exists|chain: Seq<State<C>>|
            #[trigger] ran_all(program, chain, f.scope as int, fenv, stmts_view(f.statements@)) && chain.last() == b
        &&& match env_lookup(b.envs@, fenv, return_name()) {
            None => e matches RiddleError::RuntimeError(m) && m@ == "Function did not set return value"@,
            Some(x) => return_misfit(program, b, f.scope as int, path_view(f.return_type->0@), x, e),
        }
    }
}

/// The message for a return value of the wrong type: `Return value expected
/// to be of type 'T', got 'U'`, with the full names of the two types.
fn return_type_message(program: &Program, expected: TypeId, got: TypeId) -> (r: String)
    ensures
        r@ == return_type_text(program.types@, expected, got),
{
    let mut out: Vec<char> = Vec::new();
    push_str(&mut out, "Return value expected to be of type '");
    push_path(&mut out, &type_full_path(program, expected));
    push_str(&mut out, "', got '");
    push_path(&mut out, &type_full_path(program, got));
    push_str(&mut out, "'");
    string_from_chars(&out)
}

impl Function {
    /// Calls function `index` of scope `scope` with the values `args`, in a
    /// new environment over `env`: checks and binds the arguments, runs the
    /// body, and for a function with a return type gives the value bound to
    /// `__return`, which must be assignable to that type.
    #[verifier::rlimit(50)]
    pub fn call<C: Core>(
        program: &Program,
        state: &mut State<C>,
        scope: usize,
        index: usize,
        env: usize,
        args: Vec<Slot>,
    ) -> (r: Result<Option<Slot>, RiddleError>)
        requires
            old(state).wf(),
            env < old(state).envs@.len(),
        ensures
            final(state).wf(),
            envs_grow(*old(state), *final(state)),
            final(state).objects == old(state).objects,
            final(state).atoms == old(state).atoms,
            final(state).instances == old(state).instances,
            scope >= program.scopes@.len() || index >= program.scopes@[scope as int].functions@.len() ==> r is Err,
            scope < program.scopes@.len() && index < program.scopes@[scope as int].functions@.len() && args@.len()
                != program.scopes@[scope as int].functions@[index as int].args@.len() ==> r is Err,
            scope >= program.scopes@.len() || index >= program.scopes@[scope as int].functions@.len() || args@.len()
                != program.scopes@[scope as int].functions@[index as int].args@.len() ==> *final(state) == *old(state),
            scope < program.scopes@.len() && index < program.scopes@[scope as int].functions@.len() && ({
                let f = program.scopes@[scope as int].functions@[index as int];
                &&& args_fit(*program, *old(state), f.scope as int, f.args@, args@)
                &&& f.statements@.len() == 0
                &&& f.return_type is None
            }) ==> r == Ok::<Option<Slot>, RiddleError>(None),
            scope < program.scopes@.len() && index < program.scopes@[scope as int].functions@.len() && r is Err && ({
                let f = program.scopes@[scope as int].functions@[index as int];
                args_fit(*program, *old(state), f.scope as int, f.args@, args@) && f.return_type is None
            }) ==> exists|chain: Seq<State<C>>|
                #[trigger] ran_until_failure(
                    *program,
                    chain,
                    program.scopes@[scope as int].functions@[index as int].scope as int,
                    old(state).envs@.len() as int,
                    stmts_view(program.scopes@[scope as int].functions@[index as int].statements@),
                ) && chain.last() == *final(state),
            ({
                let f = program.scopes@[scope as int].functions@[index as int];
                scope < program.scopes@.len() && index < program.scopes@[scope as int].functions@.len() && args@.len()
                    != f.args@.len() ==> (r matches Err(RiddleError::RuntimeError(m)) && m@ == "Expected "@ + decimal(
                    f.args@.len(),
                ) + " arguments, got "@ + decimal(args@.len()))
            }),
            ({
                let f = program.scopes@[scope as int].functions@[index as int];
                scope < program.scopes@.len() && index < program.scopes@[scope as int].functions@.len() && args@.len()
                    == f.args@.len() ==> {
                    &&& final(state).envs@.len() > old(state).envs@.len()
                    &&& final(state).envs@[old(state).envs@.len() as int].parent == Some(env)
                    &&& !args_fit(*program, *old(state), f.scope as int, f.args@, args@) ==> r is Err
                        && final(state).envs@[env as int] == old(state).envs@[env as int]
                    &&& forall|kk: int|
                        #[trigger] first_misfit(*program, *old(state), f.scope as int, f.args@, args@, kk) ==> (r matches Err(
                            e,
                        ) && misfit_error(*program, *old(state), f.scope as int, f.args@[kk], args@[kk], e))
                    &&& args_fit(*program, *old(state), f.scope as int, f.args@, args@) ==> (r matches Err(e) ==> call_failed(
                        *program,
                        *final(state),
                        f,
                        old(state).envs@.len() as int,
                        e,
                    ))
                }
            }),
            r matches Ok(v) ==> {
                let f = program.scopes@[scope as int].functions@[index as int];
                &&& args_fit(*program, *old(state), f.scope as int, f.args@, args@)
                &&& f.return_type is None <==> v is None
                &&& v matches Some(x) ==> env_lookup(final(state).envs@, old(state).envs@.len() as int, return_name())
                    == Some(x)
                &&& v matches Some(x) ==> fits(*program, *old(state), f.scope as int, path_view(f.return_type->0@), x)
                &&& exists|chain: Seq<State<C>>|
                    #[trigger] ran_all(*program, chain, f.scope as int, old(state).envs@.len() as int, stmts_view(f.statements@))
                        && chain.last() == *final(state) && args_bound(
                        chain[0],
                        old(state).envs@.len() as int,
                        f.args@,
                        args@,
                    ) && chain[0].envs@[env as int] == old(state).envs@[env as int]
            },
    {
        let ghost s0 = *state;
        proof {
            crate::runtime::lemma_envs_grow_refl(s0, s0);
        }
        if scope >= program.scopes.len() || index >= program.scopes[scope].functions.len() {
            return Err(RiddleError::NotFound("Function not found".to_owned()));
        }
        let f = &program.scopes[scope].functions[index];
        if args.len() != f.args.len() {
            return Err(RiddleError::RuntimeError(count_message(f.args.len(), args.len())));
        }
        let fenv = state.new_env(Some(env));
        proof {
            assert(state.envs@[env as int] == s0.envs@[env as int]);
        }
        let ghost na = args.len();
        let ghost args0 = args@;
        let ghost owed = args_fit(*program, s0, f.scope as int, f.args@, args0);
        let mut rest = args;
        let mut k: usize = 0;
        while rest.len() > 0
            invariant
                state.wf(),
                s0 == *old(state),
                envs_grow(s0, *state),
                state.objects == s0.objects,
                state.atoms == s0.atoms,
                state.instances == s0.instances,
                fenv == s0.envs@.len(),
                fenv < state.envs@.len(),
                k + rest.len() == na,
                na == f.args@.len(),
                na == args0.len(),
                rest@ == args0.subrange(k as int, na as int),
                forall|m: int| 0 <= m < k ==> fits(*program, s0, f.scope as int, path_view(f.args@[m].0@), #[trigger] args0[m]),
                forall|m: int|
                    0 <= m < k && #[trigger] arg_unshadowed(f.args@, m, k as int) ==> env_lookup(state.envs@, fenv as int, f.args@[m].1@)
                        == Some(args0[m]),
                owed == args_fit(*program, s0, f.scope as int, f.args@, args0),
                args0 == args@,
                scope < program.scopes@.len(),
                index < program.scopes@[scope as int].functions@.len(),
                program.scopes@[scope as int].functions@[index as int] == *f,
                state.envs@.len() == fenv + 1,
                state.envs@[fenv as int].parent == Some(env),
                env < s0.envs@.len(),
                state.envs@[env as int] == s0.envs@[env as int],
                forall|kk: int| #[trigger] first_misfit(*program, s0, f.scope as int, f.args@, args0, kk) ==> k <= kk,
            decreases rest.len(),
        {
            proof {
                assert(rest@[0] == args0[k as int]);
            }
            let value = rest.remove(0);
            proof {
                assert(rest@ =~= args0.subrange(k + 1, na as int));
            }
            proof {
                if owed {
                    assert(fits(*program, s0, f.scope as int, path_view(f.args@[k as int].0@), args0[k as int]));
                }
            }
            let expected = match get_type_by_path(program, f.scope, &f.args[k].0) {
                Ok(t) => t,
                Err(e) => {
                    proof {
                        lemma_misfit_here(*program, s0, f.scope as int, f.args@, args0, k as int);
                    }
                    return Err(e);
                },
            };
            let vt = match value_type(state, value) {
                Ok(t) => t,
                Err(e) => {
                    proof {
                        assert(slot_type(s0, value) == slot_type(*state, value));
                        lemma_misfit_here(*program, s0, f.scope as int, f.args@, args0, k as int);
                    }
                    return Err(e);
                },
            };
            proof {
                assert(slot_type(s0, value) == slot_type(*state, value));
            }
            if !is_assignable_from(program, expected, vt) {
                let r = Err(RiddleError::TypeError(argument_type_message(program, &f.args[k].1, expected, vt)));
                proof {
                    lemma_misfit_here(*program, s0, f.scope as int, f.args@, args0, k as int);
                }
                return r;
            }
            proof {
                assert(fits(*program, s0, f.scope as int, path_view(f.args@[k as int].0@), args0[k as int]));
                assert forall|kk: int| #[trigger] first_misfit(*program, s0, f.scope as int, f.args@, args0, kk) implies k + 1 <= kk by {
                    assert(kk != k);
                }
            }
            let ghost sb = *state;
            let ghost before = state.envs@;
            state.set(fenv, f.args[k].1.clone(), value);
            proof {
                lemma_envs_grow_trans(s0, sb, *state);
                assert forall|m: int|
                    0 <= m < k + 1 && #[trigger] arg_unshadowed(f.args@, m, k + 1) implies env_lookup(
                        state.envs@,
                        fenv as int,
                        f.args@[m].1@,
                    ) == Some(args0[m]) by {
                    if m < k {
                        assert(f.args@[k as int].1@ != f.args@[m].1@);
                        assert(arg_unshadowed(f.args@, m, k as int));
                        lemma_set_keeps_lookup(before, state.envs@, fenv as int, f.args@[k as int].1@, value, f.args@[m].1@);
                    }
                }
            }
            k = k + 1;
        }
        proof {
            assert(args_fit(*program, s0, f.scope as int, f.args@, args0));
            assert(args_bound(*state, fenv as int, f.args@, args0));
        }
        let ghost body = stmts_view(f.statements@);
        let ghost mut chain: Seq<State<C>> = seq![*state];
        let ghost first = *state;
        let mut j: usize = 0;
        while j < f.statements.len()
            invariant
                state.wf(),
                s0 == *old(state),
                envs_grow(s0, *state),
                state.objects == s0.objects,
                state.atoms == s0.atoms,
                state.instances == s0.instances,
                fenv == s0.envs@.len(),
                fenv < state.envs@.len(),
                j <= f.statements@.len(),
                body == stmts_view(f.statements@),
                chain.len() == j + 1,
                chain[0] == first,
                chain.last() == *state,
                first.envs@[env as int] == s0.envs@[env as int],
                state.envs@.len() > fenv,
                state.envs@[fenv as int].parent == Some(env),
                args_fit(*program, s0, f.scope as int, f.args@, args0),
                args0 == args@,
                forall|k: int| 0 <= k < j ==> statement_done(*program, chain[k], chain[k + 1], f.scope as int, fenv as int, #[trigger] body[k], true),
                scope < program.scopes@.len(),
                index < program.scopes@[scope as int].functions@.len(),
                program.scopes@[scope as int].functions@[index as int] == *f,
                args@.len() == f.args@.len(),
            decreases f.statements.len() - j,
        {
            let ghost sb = *state;
            let ghost before = chain;
            let res = execute(program, state, f.scope, fenv, &f.statements[j]);
            proof {
                lemma_envs_grow_trans(s0, sb, *state);
                assert(body[j as int] == f.statements@[j as int]@);
                chain = chain.push(*state);
                assert forall|k: int| 0 <= k < j + 1 implies statement_done(*program, chain[k], chain[k + 1], f.scope as int, fenv as int, #[trigger] body[k], true) || k == j by {
                    if k < j {
                        assert(chain[k] == before[k]);
                        assert(chain[k + 1] == before[k + 1]);
                    }
                }
            }
            match res {
                Ok(()) => {},
                Err(e) => {
                    proof {
                        assert(ran_until_failure(*program, chain, f.scope as int, fenv as int, body));
                        assert(chain.last() == *state);
                        assert(chain[chain.len() - 2] == sb);
                        assert(failed_with(*program, chain, f.scope as int, fenv as int, body, e));
                        assert(call_failed(*program, *state, *f, fenv as int, e));
                    }
                    return Err(e);
                },
            }
            j = j + 1;
        }
        proof {
            assert(ran_all(*program, chain, f.scope as int, fenv as int, body));
        }
        match &f.return_type {
            Some(rt) => {
                let ret_name = "__return".to_owned();
                proof {
                    reveal_strlit("__return");
                    assert(ret_name@ =~= return_name());
                }
                let ret = match state.get(fenv, &ret_name) {
                    Some(v) => v,
                    None => {
                        return Err(RiddleError::RuntimeError("Function did not set return value".to_owned()));
                    },
                };
                let expected = match get_type_by_path(program, f.scope, rt) {
                    Ok(t) => t,
                    Err(e) => {
                        return Err(e);
                    },
                };
                let vt = match value_type(state, ret) {
                    Ok(t) => t,
                    Err(e) => {
                        return Err(e);
                    },
                };
                if !is_assignable_from(program, expected, vt) {
                    return Err(RiddleError::TypeError(return_type_message(program, expected, vt)));
                }
                Ok(Some(ret))
            },
            None => Ok(None),
        }
    }
}

impl Predicate {
    /// Runs the body of predicate `predicate` for atom `atom`, in the atom's
    /// environment.
    pub fn call<C: Core>(program: &Program, state: &mut State<C>, predicate: TypeId, atom: AtomId) -> (r: Result<(), RiddleError>)
        requires
            old(state).wf(),
        ensures
            final(state).wf(),
            envs_grow(*old(state), *final(state)),
            final(state).objects == old(state).objects,
            final(state).atoms == old(state).atoms,
            final(state).instances == old(state).instances,
            !(predicate.0 < program.types@.len() && program.types@[predicate.0 as int] is Predicate) ==> r is Err,
            atom.0 >= old(state).atoms@.len() ==> r is Err,
            predicate.0 < program.types@.len() && program.types@[predicate.0 as int] is Predicate && atom.0 < old(
                state,
            ).atoms@.len() ==> ({
                let p = program.types@[predicate.0 as int]->Predicate_0;
                let e = old(state).atoms@[atom.0 as int].env as int;
                let body = stmts_view(p.statements@);
                &&& r is Ok ==> exists|chain: Seq<State<C>>|
                    #[trigger] ran_all(*program, chain, p.scope as int, e, body) && chain[0] == *old(state)
                        && chain.last() == *final(state)
                &&& r is Err ==> exists|chain: Seq<State<C>>|
                    #[trigger] ran_until_failure(*program, chain, p.scope as int, e, body) && chain[0] == *old(
                        state,
                    ) && chain.last() == *final(state)
                &&& r matches Err(err) ==> exists|chain: Seq<State<C>>|
                    #[trigger] failed_with(*program, chain, p.scope as int, e, body, err) && chain[0] == *old(state)
                        && chain.last() == *final(state)
            }),
    {
        let ghost s0 = *state;
        proof {
            crate::runtime::lemma_envs_grow_refl(s0, s0);
        }
        if predicate.0 >= program.types.len() {
            return Err(RiddleError::NotAPredicate("Not a predicate".to_owned()));
        }
        let p = match &program.types[predicate.0] {
            Type::Predicate(p) => p,
            _ => {
                return Err(RiddleError::NotAPredicate("Not a predicate".to_owned()));
            },
        };
        let atom_env = match state.get_atom(atom) {
            Some(a) => a.env,
            None => {
                return Err(RiddleError::NotFound("Atom not found".to_owned()));
            },
        };
        let ghost body = stmts_view(p.statements@);
        let ghost mut chain: Seq<State<C>> = seq![*state];
        let mut j: usize = 0;
        while j < p.statements.len()
            invariant
                state.wf(),
                s0 == *old(state),
                envs_grow(s0, *state),
                state.objects == s0.objects,
                state.atoms == s0.atoms,
                state.instances == s0.instances,
                atom_env < state.envs@.len(),
                atom.0 < s0.atoms@.len(),
                atom_env == s0.atoms@[atom.0 as int].env,
                predicate.0 < program.types@.len(),
                program.types@[predicate.0 as int] == Type::Predicate(*p),
                j <= p.statements@.len(),
                body == stmts_view(p.statements@),
                chain.len() == j + 1,
                chain[0] == s0,
                chain.last() == *state,
                forall|k: int| 0 <= k < j ==> statement_done(*program, chain[k], chain[k + 1], p.scope as int, atom_env as int, #[trigger] body[k], true),
            decreases p.statements.len() - j,
        {
            let ghost sb = *state;
            let ghost before = chain;
            let res = execute(program, state, p.scope, atom_env, &p.statements[j]);
            proof {
                lemma_envs_grow_trans(s0, sb, *state);
                assert(body[j as int] == p.statements@[j as int]@);
                chain = chain.push(*state);
                assert forall|k: int| 0 <= k < j + 1 implies statement_done(*program, chain[k], chain[k + 1], p.scope as int, atom_env as int, #[trigger] body[k], true) || k == j by {
                    if k < j {
                        assert(chain[k] == before[k]);
                        assert(chain[k + 1] == before[k + 1]);
                    }
                }
            }
            match res {
                Ok(()) => {},
                Err(e) => {
                    proof {
                        assert(ran_until_failure(*program, chain, p.scope as int, atom_env as int, body));
                        assert(chain[chain.len() - 2] == sb);
                        assert(failed_with(*program, chain, p.scope as int, atom_env as int, body, e));
                        assert(program.types@[predicate.0 as int]->Predicate_0 == *p);
                        assert(old(state).atoms@[atom.0 as int].env as int == atom_env as int);
                        assert(chain[0] == *old(state));
                        assert(chain.last() == *state);
                    }
                    return Err(e);
                },
            }
            j = j + 1;
        }
        proof {
            assert(ran_all(*program, chain, p.scope as int, atom_env as int, body));
        }
        Ok(())
    }
}


// ---------------------------------------------------------------------------
// The core.
// ---------------------------------------------------------------------------

/// A name bound at or after place `n0` of a list of bindings is found at such
/// a place too: the last binding of the name is among those.
pub(crate) proof fn lemma_bound_in_tail(v: Seq<(String, TypeId)>, n0: int, i: int, n: Name)
    requires
        0 <= n0 <= i < v.len(),
        v[i].0@ == n,
    ensures
        exists|j: int| n0 <= j < v.len() && v[j].0@ == n && bound(v, n) == Some(v[j].1),
    decreases v.len(),
{
    if v.last().0@ == n {
        assert(n0 <= v.len() - 1 < v.len() && v[v.len() - 1].0@ == n && bound(v, n) == Some(v[v.len() - 1].1));
    } else {
        assert(v.drop_last()[i] == v[i]);
        lemma_bound_in_tail(v.drop_last(), n0, i, n);
        let j = choose|j: int| n0 <= j < v.drop_last().len() && v.drop_last()[j].0@ == n && bound(v.drop_last(), n) == Some(
            v.drop_last()[j].1,
        );
        assert(v[j] == v.drop_last()[j]);
    }
}

/// The states `chain` that running the statements `stmts` one after the
/// other in scope `scope` and environment `e` goes through, each succeeding.
pub open spec fn ran_all<C: Core>(program: Program, chain: Seq<State<C>>, scope: int, e: int, stmts: Seq<SpecStatement>) -> bool {
    &&& chain.len() == stmts.len() + 1
    &&& forall|k: int|
        0 <= k < stmts.len() ==> statement_done(program, chain[k], chain[k + 1], scope, e, #[trigger] stmts[k], true)
}

/// The states `chain` that running the statements `stmts` one after the
/// other goes through up to the first that fails, the last step.
pub open spec fn ran_until_failure<C: Core>(
    program: Program,
    chain: Seq<State<C>>,
    scope: int,
    e: int,
    stmts: Seq<SpecStatement>,
) -> bool {
    &&& 2 <= chain.len() <= stmts.len() + 1
    &&& forall|k: int|
        0 <= k < chain.len() - 2 ==> statement_done(program, chain[k], chain[k + 1], scope, e, #[trigger] stmts[k], true)
    &&& statement_done(program, chain[chain.len() - 2], chain[chain.len() - 1], scope, e, stmts[chain.len() - 2], false)
}

/// The classes, functions and predicates of `pd` are registered in the
/// core's scope of `after`, which `before` was: each class and predicate
/// under its name, the functions after those there were, in order.
pub open spec fn problem_registered(before: Program, after: Program, pd: SpecProblemDef) -> bool {
    &&& forall|k: int|
        0 <= k < pd.classes.len() ==> (scope_type(after.scopes@, 0, (#[trigger] pd.classes[k]).name) matches Some(t)
            && t.0 < after.types@.len() && after.types@[t.0 as int] is Class)
    &&& forall|k: int|
        0 <= k < pd.functions.len() ==> after.scopes@[0].functions@[before.scopes@[0].functions@.len() + k].name@
            == (#[trigger] pd.functions[k]).name
    &&& forall|k: int|
        0 <= k < pd.predicates.len() ==> (scope_predicate(after.scopes@, 0, (#[trigger] pd.predicates[k]).name) matches Some(
            t,
        ) && t.0 < after.types@.len() && after.types@[t.0 as int] is Predicate)
    &&& after.scopes@[0].functions@.len() == before.scopes@[0].functions@.len() + pd.functions.len()
}

/// A core: the program read so far and the running state, over a solver.
/// Scope 0 and environment 0 are the core's own.
pub struct CommonCore<C> {
    pub program: Program,
    pub state: State<C>,
}

impl<C: Core> CommonCore<C> {
    pub open spec fn wf(&self) -> bool {
        self.program.wf() && self.state.wf()
    }

    /// A core over `solver`, with the built-in types `bool`, `int`, `real` and
    /// `string` and nothing else.
    pub fn new(solver: C) -> (c: Self)
        ensures
            c.wf(),
            c.program.types@.len() == 4,
            c.program.scopes@.len() == 1,
            scope_type(c.program.scopes@, 0, name_bool()) == Some(TypeId(0)),
            scope_type(c.program.scopes@, 0, name_int()) == Some(TypeId(1)),
            scope_type(c.program.scopes@, 0, name_real()) == Some(TypeId(2)),
            scope_type(c.program.scopes@, 0, name_string()) == Some(TypeId(3)),
            c.state.envs@.len() == 1,
            c.state.envs@[0].variables@.len() == 0,
            c.state.objects@.len() == 0,
            c.state.atoms@.len() == 0,
            c.state.formulas@.len() == 0,
    {
        CommonCore { program: Program::new(), state: State::new(solver) }
    }

    /// Reads a problem: parses it, adds its classes, predicates and functions
    /// to the core's scope, then executes its statements in order in the
    /// core's scope and environment, stopping at the first that fails.
    pub fn read(&mut self, riddle: &str) -> (r: Result<(), RiddleError>)
        requires
            old(self).wf(),
            riddle@.len() < usize::MAX,
        ensures
            final(self).wf(),
            problem_at(tokenize_spec(riddle@)).0 is None ==> r is Err,
            problem_at(tokenize_spec(riddle@)).0 is None ==> *final(self) == *old(self),
            r is Ok ==> problem_at(tokenize_spec(riddle@)).0 is Some && exists|chain: Seq<State<C>>|
                #[trigger] ran_all(final(self).program, chain, 0, 0, problem_at(tokenize_spec(riddle@)).0->0.statements)
                    && chain[0] == old(self).state && chain.last() == final(self).state,
            problem_at(tokenize_spec(riddle@)).0 is Some ==> problem_registered(
                old(self).program,
                final(self).program,
                problem_at(tokenize_spec(riddle@)).0->0,
            ),
            r is Err && problem_at(tokenize_spec(riddle@)).0 is Some ==> exists|chain: Seq<State<C>>|
                #[trigger] ran_until_failure(
                    final(self).program,
                    chain,
                    0,
                    0,
                    problem_at(tokenize_spec(riddle@)).0->0.statements,
                ) && chain[0] == old(self).state && chain.last() == final(self).state,
            problem_at(tokenize_spec(riddle@)).0 is Some ==> (r matches Err(err) ==> exists|chain: Seq<State<C>>|
                #[trigger] failed_with(
                    final(self).program,
                    chain,
                    0,
                    0,
                    problem_at(tokenize_spec(riddle@)).0->0.statements,
                    err,
                ) && chain[0] == old(self).state && chain.last() == final(self).state),
    {
        let problem = parse_problem(riddle)?;
        let ghost pv = problem_view(problem);
        let ProblemDef { functions, predicates, classes, statements } = problem;
        let ghost classes0 = classes@;
        let ghost predicates0 = predicates@;
        let ghost functions0 = functions@;
        let ghost nf0 = self.program.scopes@[0].functions@.len();
        let ghost n0 = self.program.scopes@[0].types@.len();
        let ghost np = self.program.scopes@[0].predicates@.len();
        CommonScope::add_problem(&mut self.program, 0, ProblemDef { functions, predicates, classes, statements: Vec::new() });
        proof {
            assert forall|k: int| 0 <= k < pv.classes.len() implies (scope_type(self.program.scopes@, 0, (#[trigger] pv.classes[k]).name)
                matches Some(t) && t.0 < self.program.types@.len() && self.program.types@[t.0 as int] is Class) by {
                assert(pv.classes[k] == class_view(classes0[k]));
                assert(self.program.scopes@[0].types@[n0 + k].0 == classes0[k].name);
                lemma_bound_in_tail(self.program.scopes@[0].types@, n0 as int, n0 + k, classes0[k].name@);
                let v = self.program.scopes@[0].types@;
                let j = choose|j: int| n0 <= j < v.len() && v[j].0@ == classes0[k].name@ && bound(v, classes0[k].name@) == Some(v[j].1);
                assert(v[n0 + (j - n0)] == v[j]);
            }
            assert forall|k: int| 0 <= k < pv.functions.len() implies self.program.scopes@[0].functions@[nf0 + k].name@
                == (#[trigger] pv.functions[k]).name by {
                assert(pv.functions[k] == function_view(functions0[k]));
            }
            assert forall|k: int| 0 <= k < pv.predicates.len() implies (scope_predicate(
                self.program.scopes@,
                0,
                (#[trigger] pv.predicates[k]).name,
            ) matches Some(t) && t.0 < self.program.types@.len() && self.program.types@[t.0 as int] is Predicate) by {
                assert(pv.predicates[k] == predicate_view(predicates0[k]));
                assert(self.program.scopes@[0].predicates@[np + k].0 == predicates0[k].name);
                lemma_bound_in_tail(self.program.scopes@[0].predicates@, np as int, np + k, predicates0[k].name@);
                let v = self.program.scopes@[0].predicates@;
                let j = choose|j: int| np <= j < v.len() && v[j].0@ == predicates0[k].name@ && bound(v, predicates0[k].name@) == Some(v[j].1);
                assert(v[np + (j - np)] == v[j]);
            }
        }
        let ghost scopes1 = self.program.scopes@;
        let ghost program1 = self.program;
        let ghost sv = stmts_view(statements@);
        let ghost mut chain: Seq<State<C>> = seq![self.state];
        proof {
            assert(sv == pv.statements);
        }
        let mut j: usize = 0;
        while j < statements.len()
            invariant
                self.wf(),
                self.program.scopes@ == scopes1,
                self.program == program1,
                problem_registered(old(self).program, program1, pv),
                j <= statements@.len(),
                sv == stmts_view(statements@),
                sv == pv.statements,
                problem_at(tokenize_spec(riddle@)).0 == Some(pv),
                chain.len() == j + 1,
                chain[0] == old(self).state,
                chain.last() == self.state,
                forall|k: int| 0 <= k < j ==> statement_done(program1, chain[k], chain[k + 1], 0, 0, #[trigger] sv[k], true),
            decreases statements.len() - j,
        {
            let ghost before = chain;
            let res = execute(&self.program, &mut self.state, 0, 0, &statements[j]);
            proof {
                assert(sv[j as int] == statements@[j as int]@);
                chain = chain.push(self.state);
                assert(chain[j as int] == before.last());
                assert forall|k: int| 0 <= k < j + 1 implies statement_done(program1, chain[k], chain[k + 1], 0, 0, #[trigger] sv[k], true) || k == j by {
                    if k < j {
                        assert(chain[k] == before[k]);
                        assert(chain[k + 1] == before[k + 1]);
                    }
                }
            }
            match res {
                Ok(()) => {},
                Err(e) => {
                    proof {
                        assert(ran_until_failure(program1, chain, 0, 0, sv));
                        assert(chain[chain.len() - 2] == before.last());
                        assert(failed_with(program1, chain, 0, 0, sv, e));
                        assert(problem_at(tokenize_spec(riddle@)).0->0.statements == sv);
                        assert(self.program == program1);
                    }
                    return Err(e);
                },
            }
            j = j + 1;
        }
        proof {
            assert(ran_all(program1, chain, 0, 0, sv));
            assert(problem_at(tokenize_spec(riddle@)).0->0.statements == sv);
            assert(self.program == program1);
        }
        Ok(())
    }

    /// Registers a type in the core's scope under its name.
    pub fn add_type(&mut self, tp: Type) -> (t: TypeId)
        requires
            old(self).wf(),
        ensures
            final(self).wf(),
            t.0 == old(self).program.types@.len(),
            final(self).program.types@ == old(self).program.types@.push(tp),
            scope_type(final(self).program.scopes@, 0, name_of_type(tp)) == Some(t),
            forall|m: Name|
                m != name_of_type(tp) ==> #[trigger] scope_type(final(self).program.scopes@, 0, m) == scope_type(
                    old(self).program.scopes@,
                    0,
                    m,
                ),
            forall|m: Name| #[trigger] scope_predicate(final(self).program.scopes@, 0, m) == scope_predicate(old(self).program.scopes@, 0, m),
            final(self).program.scopes@[0].fields == old(self).program.scopes@[0].fields,
            final(self).program.scopes@[0].functions == old(self).program.scopes@[0].functions,
            final(self).program.scopes@[0].predicates == old(self).program.scopes@[0].predicates,
            final(self).state == old(self).state,
    {
        let t = self.program.add_type(tp);
        proof {
            let v = self.program.scopes@[0].types@;
            assert(v.drop_last() == old(self).program.scopes@[0].types@);
            assert forall|m: Name| m != name_of_type(tp) implies #[trigger] scope_type(self.program.scopes@, 0, m) == scope_type(
                old(self).program.scopes@,
                0,
                m,
            ) by {
                assert(bound(v, m) == bound(v.drop_last(), m));
            }
        }
        t
    }

    /// The type that `name` stands for in the core's scope.
    pub fn get_type(&self, name: &String) -> (r: Option<TypeId>)
        ensures
            r == scope_type(self.program.scopes@, 0, name@),
    {
        self.program.get_type(0, name)
    }

    /// The function named `name` of the core's scope that takes values of the
    /// types `types`: its index there.
    pub fn get_function(&self, name: &String, types: &Vec<TypeId>) -> (r: Option<usize>)
        ensures
            match r {
                Some(i) => scope_function(self.program, 0, name@, types@) == Some((0int, i as int)),
                None => scope_function(self.program, 0, name@, types@) is None,
            },
    {
        match self.program.get_function(0, name, types) {
            Some((_, i)) => Some(i),
            None => None,
        }
    }

    /// The objects made so far.
    pub fn get_objects(&self) -> (r: &Vec<Object>)
        ensures
            r@ == self.state.objects@,
    {
        &self.state.objects
    }

    /// The object with id `id`.
    pub fn get_object(&self, id: ObjectId) -> (r: Option<&Object>)
        ensures
            r == (if id.0 < self.state.objects@.len() { Some(&self.state.objects@[id.0 as int]) } else { None }),
    {
        self.state.get_object(id)
    }

    /// Makes an object of class `class`, with an environment of its own.
    pub fn new_object(&mut self, class: TypeId) -> (id: ObjectId)
        requires
            old(self).wf(),
        ensures
            final(self).wf(),
            id.0 == old(self).state.objects@.len(),
            final(self).state.objects@ == old(self).state.objects@.push(
                Object { id, class, env: old(self).state.envs@.len() as usize },
            ),
            final(self).program == old(self).program,
    {
        self.state.new_object(class)
    }

    /// The atoms made so far.
    pub fn get_atoms(&self) -> (r: &Vec<Atom>)
        ensures
            r@ == self.state.atoms@,
    {
        &self.state.atoms
    }

    /// The atom with id `id`.
    pub fn get_atom(&self, id: AtomId) -> (r: Option<&Atom>)
        ensures
            r == (if id.0 < self.state.atoms@.len() { Some(&self.state.atoms@[id.0 as int]) } else { None }),
    {
        self.state.get_atom(id)
    }

    /// Makes an atom of `predicate` with the arguments `args` (see
    /// `State::new_atom`).
    pub fn new_atom(&mut self, predicate: TypeId, fact: bool, args: Vec<(String, Slot)>) -> (id: AtomId)
        requires
            old(self).wf(),
            match bound(args@, tau_name()) {
                Some(Slot::Primitive(_)) => false,
                Some(Slot::ObjectRef(o)) => o.0 < old(self).state.objects@.len(),
                Some(Slot::AtomRef(a)) => a.0 < old(self).state.atoms@.len(),
                None => true,
            },
        ensures
            final(self).wf(),
            id.0 == old(self).state.atoms@.len(),
            final(self).state.atoms@.len() == old(self).state.atoms@.len() + 1,
            final(self).state.atoms@[id.0 as int].predicate == predicate,
            final(self).state.atoms@[id.0 as int].fact == fact,
            forall|n: Name|
                #[trigger] bound(final(self).state.envs@[final(self).state.atoms@[id.0 as int].env as int].variables@, n)
                    == bound(args@, n),
            final(self).program == old(self).program,
    {
        self.state.new_atom(predicate, fact, args)
    }

    /// The value of `name` in the core's environment.
    pub fn get(&self, name: &String) -> (r: Option<Slot>)
        ensures
            r == env_lookup(self.state.envs@, 0, name@),
    {
        self.state.get(0, name)
    }

    /// Binds `name` to `value` in the core's environment.
    pub fn set(&mut self, name: String, value: Slot)
        requires
            old(self).wf(),
        ensures
            final(self).wf(),
            env_lookup(final(self).state.envs@, 0, name@) == Some(value),
            final(self).program == old(self).program,
    {
        self.state.set(0, name, value)
    }
}

} // verus!

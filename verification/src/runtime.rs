//! The core of a running problem: the program (types and scopes, filled as
//! problems are read), the state (the solver, environments, objects, atoms
//! and boolean formulas), and the execution of statements.
use crate::env::{Atom, AtomId, BoolExpr, CommonEnv, Formula, Object, ObjectId, Slot, TypeId, Var, env_lookup};
use crate::grammar::{name_bool, name_int, name_real, name_string};
use crate::language::{
    ClassDef, ConstructorDef, Disjunction, Expr, FunctionDef, Name, Path, PredicateDef, ProblemDef,
    SpecExpr, class_view, classes_view, opt_expr_view, path_view,
};
use crate::scope::{
    BoolType, CommonClass, CommonScope, Constructor, Field, Function, IntType, Predicate, RealType,
    StringType, Type, bound, find_bound, name_of_type,
};
use crate::lexer::string_from_chars;
use crate::text::{atom_text, decimal, object_text, push_decimal, push_str};
use crate::RiddleError;
use vstd::prelude::*;

verus! {

/// A message that names something as it is: `prefix name suffix`, joined.
pub(crate) fn id_message(prefix: &str, name: &String, suffix: &str) -> (r: String)
    ensures
        r@ == prefix@ + name@ + suffix@,
{
    let mut out: Vec<char> = Vec::new();
    push_str(&mut out, prefix);
    push_str(&mut out, name.as_str());
    push_str(&mut out, suffix);
    proof {
        assert(out@ =~= prefix@ + name@ + suffix@);
    }
    string_from_chars(&out)
}

/// A message that names something in quotes: `prefix'name'suffix`.
pub(crate) fn quoted_message(prefix: &str, name: &String, suffix: &str) -> (r: String)
    ensures
        r@ == prefix@ + "'"@ + name@ + "'"@ + suffix@,
{
    let mut out: Vec<char> = Vec::new();
    push_str(&mut out, prefix);
    push_str(&mut out, "'");
    push_str(&mut out, name.as_str());
    push_str(&mut out, "'");
    push_str(&mut out, suffix);
    proof {
        assert(out@ =~= prefix@ + "'"@ + name@ + "'"@ + suffix@);
    }
    string_from_chars(&out)
}

/// The types and scopes of the problems read so far. Type 0 is `bool`, 1
/// `int`, 2 `real` and 3 `string`; scope 0 is the scope of the core.
pub struct Program {
    pub types: Vec<Type>,
    pub scopes: Vec<CommonScope>,
}

/// The type bound to `n` in scope `s`, else in the scopes around it.
pub open spec fn scope_type(scopes: Seq<CommonScope>, s: int, n: Name) -> Option<TypeId>
    decreases s,
{
    if s < 0 || s >= scopes.len() {
        None
    } else {
        match bound(scopes[s].types@, n) {
            Some(t) => Some(t),
            None => match scopes[s].parent {
                Some(p) => if p < s {
                    scope_type(scopes, p as int, n)
                } else {
                    None
                },
                None => None,
            },
        }
    }
}

/// The predicate bound to `n` in scope `s`, else in the scopes around it.
pub open spec fn scope_predicate(scopes: Seq<CommonScope>, s: int, n: Name) -> Option<TypeId>
    decreases s,
{
    if s < 0 || s >= scopes.len() {
        None
    } else {
        match bound(scopes[s].predicates@, n) {
            Some(t) => Some(t),
            None => match scopes[s].parent {
                Some(p) => if p < s {
                    scope_predicate(scopes, p as int, n)
                } else {
                    None
                },
                None => None,
            },
        }
    }
}

/// What looking a type up by its path gives.
pub enum TypeLookup {
    Found(TypeId),
    /// A name of the path is not found.
    Missing,
    /// A name of the path is not a class, so nothing can be looked up in it.
    NotClass,
    /// The path is empty.
    Empty,
}

/// The scope of the members of class `t`, if `t` is a class.
pub open spec fn class_scope(types: Seq<Type>, t: TypeId) -> Option<usize> {
    if t.0 < types.len() && types[t.0 as int] is Class {
        Some(types[t.0 as int]->Class_0.scope)
    } else {
        None
    }
}

pub open spec fn type_path_from(types: Seq<Type>, scopes: Seq<CommonScope>, cur: TypeId, rest: Path) -> TypeLookup
    decreases rest.len(),
{
    if rest.len() == 0 {
        TypeLookup::Found(cur)
    } else {
        match class_scope(types, cur) {
            None => TypeLookup::NotClass,
            Some(sc) => match scope_type(scopes, sc as int, rest[0]) {
                None => TypeLookup::Missing,
                Some(t) => type_path_from(types, scopes, t, rest.drop_first()),
            },
        }
    }
}

/// The first name of `rest` not found, walking it from type `cur`: none when
/// the walk gets through or stops at a type that is not a class.
pub open spec fn type_path_missing(types: Seq<Type>, scopes: Seq<CommonScope>, cur: TypeId, rest: Path) -> Option<Name>
    decreases rest.len(),
{
    if rest.len() == 0 {
        None
    } else {
        match class_scope(types, cur) {
            None => None,
            Some(sc) => match scope_type(scopes, sc as int, rest[0]) {
                None => Some(rest[0]),
                Some(t) => type_path_missing(types, scopes, t, rest.drop_first()),
            },
        }
    }
}

/// The type at `path` seen from scope `s`: its first name looked up from `s`,
/// each following name in the class named before it.
pub open spec fn type_at_path(types: Seq<Type>, scopes: Seq<CommonScope>, s: int, path: Path) -> TypeLookup {
    if path.len() == 0 {
        TypeLookup::Empty
    } else {
        match scope_type(scopes, s, path[0]) {
            None => TypeLookup::Missing,
            Some(t) => type_path_from(types, scopes, t, path.drop_first()),
        }
    }
}

/// Whether `err` is the error for looking up the type path `pv` from scope
/// `scope`: an empty path, a runtime error; a first name not found, not
/// found naming it; a later name not found in the class before it, not found
/// naming that name; a name before the last that is not a class, naming the
/// path's first name.
pub open spec fn type_path_error(program: Program, scope: int, pv: Path, err: RiddleError) -> bool {
    let l = type_at_path(program.types@, program.scopes@, scope, pv);
    &&& (l is Missing && err is NotFound) || (l is NotClass && err is NotAClass) || (l is Empty && err is RuntimeError)
    &&& l is Empty ==> (err matches RiddleError::RuntimeError(m) && m@ == "Empty type path"@)
    &&& pv.len() > 0 && scope_type(program.scopes@, scope, pv[0]) is None ==> (err matches RiddleError::NotFound(m) && m@
        == pv[0])
    &&& pv.len() > 0 && scope_type(program.scopes@, scope, pv[0]) is Some ==> (type_path_missing(
        program.types@,
        program.scopes@,
        scope_type(program.scopes@, scope, pv[0])->0,
        pv.drop_first(),
    ) matches Some(q) ==> (err matches RiddleError::NotFound(m) && m@ == "Class "@ + "'"@ + q + "'"@ + " in path"@))
    &&& l is NotClass ==> (err matches RiddleError::NotAClass(m) && m@ == pv[0])
}

/// Whether a value of type `source` can be assigned to one of type `target`:
/// the same type, or two classes one of which names the other as a parent.
pub open spec fn assignable(types: Seq<Type>, target: TypeId, source: TypeId) -> bool {
    target == source || (target.0 < types.len() && source.0 < types.len() && types[target.0 as int] is Class
        && types[source.0 as int] is Class && ({
        let tc = types[target.0 as int]->Class_0;
        let sc = types[source.0 as int]->Class_0;
        (exists|k: int|
            0 <= k < sc.parents@.len() && #[trigger] path_view(sc.parents@[k]@) == path_view(tc.path@))
            || (exists|k: int|
            0 <= k < tc.parents@.len() && #[trigger] path_view(tc.parents@[k]@) == path_view(sc.path@))
    }))
}

/// Every type is assignable from itself, and two types are assignable one
/// from the other in both directions or in neither.
pub proof fn law_assignable_reflexive_symmetric(types: Seq<Type>, a: TypeId, b: TypeId)
    ensures
        assignable(types, a, a),
        assignable(types, a, b) == assignable(types, b, a),
{
}

/// A name that scope `s` does not bind itself is looked up in the scope
/// around it: types, predicates and functions alike.
pub proof fn law_scope_lookup_falls_back(program: Program, s: int, p: usize, n: Name, types: Seq<TypeId>)
    requires
        0 <= s < program.scopes@.len(),
        program.scopes@[s].parent == Some(p),
        p < s,
    ensures
        bound(program.scopes@[s].types@, n) is None ==> scope_type(program.scopes@, s, n) == scope_type(
            program.scopes@,
            p as int,
            n,
        ),
        bound(program.scopes@[s].predicates@, n) is None ==> scope_predicate(program.scopes@, s, n)
            == scope_predicate(program.scopes@, p as int, n),
        first_function(program, s, program.scopes@[s].functions@, n, types) is None ==> scope_function(
            program,
            s,
            n,
            types,
        ) == scope_function(program, p as int, n, types),
{
}

/// The type of a primitive value; objects and atoms have none.
pub open spec fn primitive_type(s: Slot) -> Option<TypeId> {
    match s {
        Slot::Primitive(Var::Formula(_)) => Some(TypeId(0)),
        Slot::Primitive(Var::Value { var_type, .. }) => Some(var_type),
        _ => None,
    }
}

pub open spec fn is_int_type(types: Seq<Type>, t: TypeId) -> bool {
    t.0 < types.len() && types[t.0 as int] is Int
}

pub open spec fn is_numeric_type(types: Seq<Type>, t: TypeId) -> bool {
    t.0 < types.len() && (types[t.0 as int] is Int || types[t.0 as int] is Real)
}

/// The type of an arithmetic expression over `terms`: `int` (type 1) when all
/// are integers, `real` (type 2) when all are integers or reals, else none.
pub open spec fn arith_type(types: Seq<Type>, terms: Seq<Slot>) -> Option<TypeId> {
    if exists|k: int| 0 <= k < terms.len() && #[trigger] primitive_type(terms[k]) is None {
        None
    } else if forall|k: int| 0 <= k < terms.len() ==> is_int_type(types, #[trigger] primitive_type(terms[k])->0) {
        Some(TypeId(1))
    } else if forall|k: int|
        0 <= k < terms.len() ==> is_numeric_type(types, #[trigger] primitive_type(terms[k])->0) {
        Some(TypeId(2))
    } else {
        None
    }
}

/// Whether two paths name the same thing.
pub fn same_path(a: &Vec<String>, b: &Vec<String>) -> (r: bool)
    ensures
        r == (path_view(a@) == path_view(b@)),
{
    if a.len() != b.len() {
        proof {
            assert(path_view(a@).len() != path_view(b@).len());
        }
        return false;
    }
    let mut i: usize = 0;
    while i < a.len()
        invariant
            a.len() == b.len(),
            i <= a.len(),
            forall|k: int| 0 <= k < i ==> #[trigger] a@[k]@ == b@[k]@,
        decreases a.len() - i,
    {
        if a[i] != b[i] {
            proof {
                assert(path_view(a@)[i as int] != path_view(b@)[i as int]);
            }
            return false;
        }
        i = i + 1;
    }
    proof {
        assert(path_view(a@) =~= path_view(b@));
    }
    true
}

impl Program {
    /// The program with the built-in types, bound in the core's scope.
    pub fn new() -> (p: Self)
        ensures
            p.wf(),
            p.scopes@.len() == 1,
            p.types@.len() == 4,
            scope_type(p.scopes@, 0, name_bool()) == Some(TypeId(0)),
            scope_type(p.scopes@, 0, name_int()) == Some(TypeId(1)),
            scope_type(p.scopes@, 0, name_real()) == Some(TypeId(2)),
            scope_type(p.scopes@, 0, name_string()) == Some(TypeId(3)),
    {
        let mut p = Program { types: Vec::new(), scopes: Vec::new() };
        p.scopes.push(CommonScope::new(None, None));
        let b = p.add_type(Type::Bool(BoolType::new()));
        let i = p.add_type(Type::Int(IntType::new()));
        let r = p.add_type(Type::Real(RealType::new()));
        let s = p.add_type(Type::String(StringType::new()));
        proof {
            reveal_with_fuel(bound, 5);
            reveal_strlit("bool");
            reveal_strlit("int");
            reveal_strlit("real");
            reveal_strlit("string");
            assert(name_bool() != name_int());
            assert(name_bool() != name_real());
            assert(name_bool() != name_string());
            assert(name_int() != name_real());
            assert(name_int() != name_string());
            assert(name_real() != name_string());
        }
        p
    }

    /// Types 0 to 3 are the built-in ones, scope 0 exists, and each scope
    /// lies inside one made before it.
    pub open spec fn wf(&self) -> bool {
        &&& self.types@.len() >= 4
        &&& self.types@[0] is Bool
        &&& self.types@[1] is Int
        &&& self.types@[2] is Real
        &&& self.types@[3] is String
        &&& self.scopes@.len() >= 1
        &&& forall|s: int|
            0 <= s < self.scopes@.len() ==> ((#[trigger] self.scopes@[s]).parent matches Some(p) ==> p < s)
    }

    /// Registers a type in the core's scope under its name.
    pub fn add_type(&mut self, tp: Type) -> (t: TypeId)
        requires
            old(self).scopes@.len() >= 1,
        ensures
            t.0 == old(self).types@.len(),
            final(self).types@ == old(self).types@.push(tp),
            final(self).scopes@.len() == old(self).scopes@.len(),
            final(self).scopes@[0].parent == old(self).scopes@[0].parent,
            final(self).scopes@[0].types@ == old(self).scopes@[0].types@.push((final(self).scopes@[0].types@.last().0, t)),
            final(self).scopes@[0].types@.last().0@ == name_of_type(tp),
            final(self).scopes@[0].owner == old(self).scopes@[0].owner,
            final(self).scopes@[0].fields == old(self).scopes@[0].fields,
            final(self).scopes@[0].functions == old(self).scopes@[0].functions,
            final(self).scopes@[0].predicates == old(self).scopes@[0].predicates,
            forall|s: int| 0 < s < final(self).scopes@.len() ==> #[trigger] final(self).scopes@[s] == old(self).scopes@[s],
            old(self).wf() ==> final(self).wf(),
    {
        let name = tp.name().to_owned();
        let t = TypeId(self.types.len());
        self.types.push(tp);
        let mut core_scope = self.scopes.remove(0);
        core_scope.types.push((name, t));
        self.scopes.insert(0, core_scope);
        proof {
            assert forall|s: int| 0 < s < self.scopes@.len() implies #[trigger] self.scopes@[s] == old(self).scopes@[s] by {}
        }
        t
    }

    /// The type that `name` stands for in scope `scope`.
    pub fn get_type(&self, scope: usize, name: &String) -> (r: Option<TypeId>)
        ensures
            r == scope_type(self.scopes@, scope as int, name@),
    {
        let mut cur = scope;
        loop
            invariant
                scope_type(self.scopes@, cur as int, name@) == scope_type(self.scopes@, scope as int, name@),
            decreases cur,
        {
            if cur >= self.scopes.len() {
                return None;
            }
            match find_bound(&self.scopes[cur].types, name) {
                Some(t) => {
                    return Some(t);
                },
                None => match self.scopes[cur].parent {
                    Some(p) => {
                        if p < cur {
                            cur = p;
                        } else {
                            return None;
                        }
                    },
                    None => {
                        return None;
                    },
                },
            }
        }
    }

    /// The predicate that `name` stands for in scope `scope`.
    pub fn get_predicate(&self, scope: usize, name: &String) -> (r: Option<TypeId>)
        ensures
            r == scope_predicate(self.scopes@, scope as int, name@),
    {
        let mut cur = scope;
        loop
            invariant
                scope_predicate(self.scopes@, cur as int, name@) == scope_predicate(self.scopes@, scope as int, name@),
            decreases cur,
        {
            if cur >= self.scopes.len() {
                return None;
            }
            match find_bound(&self.scopes[cur].predicates, name) {
                Some(t) => {
                    return Some(t);
                },
                None => match self.scopes[cur].parent {
                    Some(p) => {
                        if p < cur {
                            cur = p;
                        } else {
                            return None;
                        }
                    },
                    None => {
                        return None;
                    },
                },
            }
        }
    }

    /// The scope of the members of class `t`, if `t` is a class.
    pub fn class_scope(&self, t: TypeId) -> (r: Option<usize>)
        ensures
            r == class_scope(self.types@, t),
    {
        if t.0 < self.types.len() {
            match &self.types[t.0] {
                Type::Class(c) => Some(c.scope),
                _ => None,
            }
        } else {
            None
        }
    }
}

/// Looks a type up by its path from a scope: the first name from the scope,
/// each following one in the class named before it.
pub fn get_type_by_path(program: &Program, scope: usize, path: &Vec<String>) -> (r: Result<TypeId, RiddleError>)
    ensures
        match r {
            Ok(t) => type_at_path(program.types@, program.scopes@, scope as int, path_view(path@))
                == TypeLookup::Found(t),
            Err(e) => type_path_error(*program, scope as int, path_view(path@), e),
        },
{
    let ghost pv = path_view(path@);
    if path.len() == 0 {
        return Err(RiddleError::RuntimeError("Empty type path".to_owned()));
    }
    let mut cur = match program.get_type(scope, &path[0]) {
        Some(t) => t,
        None => {
            return Err(RiddleError::NotFound(path[0].clone()));
        },
    };
    let mut i: usize = 1;
    proof {
        assert(pv[0] == path@[0]@);
        assert(pv.drop_first() =~= pv.subrange(1, pv.len() as int));
    }
    while i < path.len()
        invariant
            1 <= i <= path.len(),
            pv == path_view(path@),
            scope_type(program.scopes@, scope as int, pv[0]) is Some,
            type_path_missing(
                program.types@,
                program.scopes@,
                scope_type(program.scopes@, scope as int, pv[0])->0,
                pv.drop_first(),
            ) == type_path_missing(program.types@, program.scopes@, cur, pv.subrange(i as int, pv.len() as int)),
            type_at_path(program.types@, program.scopes@, scope as int, pv) == type_path_from(
                program.types@,
                program.scopes@,
                cur,
                pv.subrange(i as int, pv.len() as int),
            ),
        decreases path.len() - i,
    {
        let ghost rest = pv.subrange(i as int, pv.len() as int);
        proof {
            assert(rest[0] == path@[i as int]@);
            assert(rest.drop_first() =~= pv.subrange(i + 1, pv.len() as int));
        }
        let sc = match program.class_scope(cur) {
            Some(sc) => sc,
            None => {
                return Err(RiddleError::NotAClass(path[0].clone()));
            },
        };
        cur = match program.get_type(sc, &path[i]) {
            Some(t) => t,
            None => {
                let m = quoted_message("Class ", &path[i], " in path");
                proof {
                    assert(pv[i as int] == path@[i as int]@);
                }
                return Err(RiddleError::NotFound(m));
            },
        };
        i = i + 1;
    }
    proof {
        assert(pv.subrange(path.len() as int, pv.len() as int) =~= Seq::<Name>::empty());
    }
    Ok(cur)
}

/// Whether a value of type `source` can be assigned to a field of type
/// `target`: the same type, or two classes one of which names the other among
/// its parents.
pub fn is_assignable_from(program: &Program, target: TypeId, source: TypeId) -> (r: bool)
    ensures
        r == assignable(program.types@, target, source),
{
    if target == source {
        return true;
    }
    if target.0 >= program.types.len() || source.0 >= program.types.len() {
        return false;
    }
    let tc = match &program.types[target.0] {
        Type::Class(c) => c,
        _ => {
            return false;
        },
    };
    let sc = match &program.types[source.0] {
        Type::Class(c) => c,
        _ => {
            return false;
        },
    };
    proof {
        assert(program.types@[target.0 as int]->Class_0 == *tc);
        assert(program.types@[source.0 as int]->Class_0 == *sc);
    }
    let mut k: usize = 0;
    while k < sc.parents.len()
        invariant
            k <= sc.parents@.len(),
            forall|j: int| 0 <= j < k ==> #[trigger] path_view(sc.parents@[j]@) != path_view(tc.path@),
            target.0 < program.types@.len(),
            source.0 < program.types@.len(),
            program.types@[target.0 as int] is Class,
            program.types@[source.0 as int] is Class,
            program.types@[target.0 as int]->Class_0 == *tc,
            program.types@[source.0 as int]->Class_0 == *sc,
        decreases sc.parents.len() - k,
    {
        if same_path(&sc.parents[k], &tc.path) {
            proof {
                let scs = program.types@[source.0 as int]->Class_0;
                let tcs = program.types@[target.0 as int]->Class_0;
                assert(path_view(scs.parents@[k as int]@) == path_view(tcs.path@));
                assert(exists|j: int|
                    0 <= j < scs.parents@.len() && #[trigger] path_view(scs.parents@[j]@) == path_view(tcs.path@));
                assert(assignable(program.types@, target, source));
            }
            return true;
        }
        k = k + 1;
    }
    let mut k: usize = 0;
    while k < tc.parents.len()
        invariant
            k <= tc.parents@.len(),
            forall|j: int| 0 <= j < k ==> #[trigger] path_view(tc.parents@[j]@) != path_view(sc.path@),
            forall|j: int| 0 <= j < sc.parents@.len() ==> #[trigger] path_view(sc.parents@[j]@) != path_view(tc.path@),
            target.0 < program.types@.len(),
            source.0 < program.types@.len(),
            program.types@[target.0 as int] is Class,
            program.types@[source.0 as int] is Class,
            program.types@[target.0 as int]->Class_0 == *tc,
            program.types@[source.0 as int]->Class_0 == *sc,
        decreases tc.parents.len() - k,
    {
        if same_path(&tc.parents[k], &sc.path) {
            proof {
                let scs = program.types@[source.0 as int]->Class_0;
                let tcs = program.types@[target.0 as int]->Class_0;
                assert(path_view(tcs.parents@[k as int]@) == path_view(scs.path@));
                assert(exists|j: int|
                    0 <= j < tcs.parents@.len() && #[trigger] path_view(tcs.parents@[j]@) == path_view(scs.path@));
                assert(assignable(program.types@, target, source));
            }
            return true;
        }
        k = k + 1;
    }
    false
}

/// Whether function `f`, declared in scope `s`, takes values of the types
/// `types`: as many arguments, each declared with a type that the value's
/// type is assignable to.
pub open spec fn takes_types(program: Program, s: int, f: Function, types: Seq<TypeId>) -> bool {
    &&& f.args@.len() == types.len()
    &&& forall|k: int|
        0 <= k < types.len() ==> match type_at_path(
            program.types@,
            program.scopes@,
            s,
            path_view((#[trigger] f.args@[k]).0@),
        ) {
            TypeLookup::Found(t) => assignable(program.types@, t, types[k]),
            _ => false,
        }
}

/// The first of the functions `fs` of scope `s` named `name` that takes
/// values of the types `types`.
pub open spec fn first_function(program: Program, s: int, fs: Seq<Function>, name: Name, types: Seq<TypeId>) -> Option<int>
    decreases fs.len(),
{
    if fs.len() == 0 {
        None
    } else {
        match first_function(program, s, fs.drop_last(), name, types) {
            Some(i) => Some(i),
            None => if fs.last().name@ == name && takes_types(program, s, fs.last(), types) {
                Some(fs.len() - 1)
            } else {
                None
            },
        }
    }
}

/// The function named `name` taking values of the types `types` that scope
/// `s` sees, as its scope and index there: the first such function of `s`,
/// else the one the scope around it sees.
pub open spec fn scope_function(program: Program, s: int, name: Name, types: Seq<TypeId>) -> Option<(int, int)>
    decreases s,
{
    if s < 0 || s >= program.scopes@.len() {
        None
    } else {
        match first_function(program, s, program.scopes@[s].functions@, name, types) {
            Some(i) => Some((s, i)),
            None => match program.scopes@[s].parent {
                Some(p) => if p < s {
                    scope_function(program, p as int, name, types)
                } else {
                    None
                },
                None => None,
            },
        }
    }
}

impl Program {
    /// Whether function `f`, declared in scope `s`, takes values of the types `types`.
    fn function_takes(&self, s: usize, f: &Function, types: &Vec<TypeId>) -> (r: bool)
        ensures
            r == takes_types(*self, s as int, *f, types@),
    {
        if f.args.len() != types.len() {
            return false;
        }
        let mut k: usize = 0;
        while k < types.len()
            invariant
                k <= types@.len(),
                f.args@.len() == types@.len(),
                forall|m: int|
                    0 <= m < k ==> match type_at_path(
                        self.types@,
                        self.scopes@,
                        s as int,
                        path_view((#[trigger] f.args@[m]).0@),
                    ) {
                        TypeLookup::Found(t) => assignable(self.types@, t, types@[m]),
                        _ => false,
                    },
            decreases types.len() - k,
        {
            let ok = match get_type_by_path(self, s, &f.args[k].0) {
                Ok(t) => is_assignable_from(self, t, types[k]),
                Err(_) => false,
            };
            if !ok {
                return false;
            }
            k = k + 1;
        }
        true
    }

    /// The function named `name` that takes values of the types `types`, as
    /// scope `scope` sees it: its scope and its index there.
    pub fn get_function(&self, scope: usize, name: &String, types: &Vec<TypeId>) -> (r: Option<(usize, usize)>)
        ensures
            match r {
                Some((s, i)) => scope_function(*self, scope as int, name@, types@) == Some((s as int, i as int)),
                None => scope_function(*self, scope as int, name@, types@) is None,
            },
    {
        let mut cur = scope;
        loop
            invariant
                scope_function(*self, cur as int, name@, types@) == scope_function(*self, scope as int, name@, types@),
            decreases cur,
        {
            if cur >= self.scopes.len() {
                return None;
            }
            let fs = &self.scopes[cur].functions;
            let mut j: usize = 0;
            while j < fs.len()
                invariant
                    cur < self.scopes@.len(),
                    *fs == self.scopes@[cur as int].functions,
                    j <= fs@.len(),
                    first_function(*self, cur as int, fs@.subrange(0, j as int), name@, types@) is None,
                    scope_function(*self, cur as int, name@, types@) == scope_function(*self, scope as int, name@, types@),
                decreases fs.len() - j,
            {
                proof {
                    assert(fs@.subrange(0, j + 1).drop_last() =~= fs@.subrange(0, j as int));
                }
                if fs[j].name == *name && self.function_takes(cur, &fs[j], types) {
                    proof {
                        assert(fs@.subrange(0, j + 1).last() == fs@[j as int]);
                        assert(first_function(*self, cur as int, fs@.subrange(0, j + 1), name@, types@) == Some(j as int));
                        lemma_first_function_prefix(*self, cur as int, fs@, name@, types@, j + 1);
                        assert(self.scopes@[cur as int].functions@ == fs@);
                        assert(first_function(*self, cur as int, self.scopes@[cur as int].functions@, name@, types@)
                            == Some(j as int));
                        assert(scope_function(*self, cur as int, name@, types@) == Some((cur as int, j as int)));
                    }
                    return Some((cur, j));
                }
                j = j + 1;
            }
            proof {
                assert(fs@.subrange(0, fs@.len() as int) =~= fs@);
            }
            match self.scopes[cur].parent {
                Some(p) => {
                    if p < cur {
                        cur = p;
                    } else {
                        return None;
                    }
                },
                None => {
                    return None;
                },
            }
        }
    }
}

/// A function found in a prefix of the functions is the first one found in all of them.
proof fn lemma_first_function_prefix(program: Program, s: int, fs: Seq<Function>, name: Name, types: Seq<TypeId>, n: int)
    requires
        0 <= n <= fs.len(),
        first_function(program, s, fs.subrange(0, n), name, types) is Some,
    ensures
        first_function(program, s, fs, name, types) == first_function(program, s, fs.subrange(0, n), name, types),
    decreases fs.len() - n,
{
    if n < fs.len() {
        assert(fs.subrange(0, n + 1).drop_last() =~= fs.subrange(0, n));
        lemma_first_function_prefix(program, s, fs, name, types, n + 1);
    } else {
        assert(fs.subrange(0, n) =~= fs);
    }
}

/// `prefix` followed by the number `id`.
fn numbered_text(prefix: &str, id: usize) -> (r: String)
    ensures
        r@ == prefix@ + decimal(id as nat),
{
    let mut out: Vec<char> = Vec::new();
    push_str(&mut out, prefix);
    push_decimal(&mut out, id);
    string_from_chars(&out)
}

/// The type of an arithmetic expression over `terms`: `int` when all are
/// integers, `real` when all are integers or reals; a type error otherwise,
/// objects and atoms included.
pub fn arith_class(program: &Program, terms: &Vec<Slot>) -> (r: Result<TypeId, RiddleError>)
    ensures
        match r {
            Ok(t) => arith_type(program.types@, terms@) == Some(t),
            Err(e) => arith_type(program.types@, terms@) is None && e is TypeError,
        },
{
    let mut all_int = true;
    let mut all_numeric = true;
    let mut k: usize = 0;
    while k < terms.len()
        invariant
            k <= terms@.len(),
            forall|j: int| 0 <= j < k ==> #[trigger] primitive_type(terms@[j]) is Some,
            all_int == (forall|j: int| 0 <= j < k ==> is_int_type(program.types@, #[trigger] primitive_type(terms@[j])->0)),
            all_numeric == (forall|j: int|
                0 <= j < k ==> is_numeric_type(program.types@, #[trigger] primitive_type(terms@[j])->0)),
        decreases terms.len() - k,
    {
        let t = match terms[k] {
            Slot::Primitive(Var::Formula(_)) => TypeId(0),
            Slot::Primitive(Var::Value { var_type, .. }) => var_type,
            Slot::ObjectRef(o) => {
                return Err(RiddleError::TypeError(numbered_text(
                    "Expected numeric type, got object reference to object with ID ",
                    o.0,
                )));
            },
            Slot::AtomRef(a) => {
                return Err(RiddleError::TypeError(numbered_text(
                    "Expected numeric type, got atom reference to atom with ID ",
                    a.0,
                )));
            },
        };
        let (is_int, is_real) = if t.0 < program.types.len() {
            match &program.types[t.0] {
                Type::Int(_) => (true, false),
                Type::Real(_) => (false, true),
                _ => (false, false),
            }
        } else {
            (false, false)
        };
        all_int = all_int && is_int;
        all_numeric = all_numeric && (is_int || is_real);
        k = k + 1;
    }
    if all_int {
        Ok(TypeId(1))
    } else if all_numeric {
        Ok(TypeId(2))
    } else {
        Err(RiddleError::TypeError("Invalid types for arithmetic operation".to_owned()))
    }
}


/// The solver that a core hands variables and constraints to. Its answers
/// (the handles of the values it makes) are its own: nothing is assumed of them.
pub trait Core {
    /// The calls made on this solver so far, in order, with what they were
    /// given and the handles they gave back. Each solver states its own
    /// history; one written outside Verus is trusted to keep it.
    spec fn calls(&self) -> CallHistory;

    /// A new value of a boolean literal.
    fn new_bool(&mut self, value: bool) -> (r: u64)
        ensures
            final(self).calls() == old(self).calls().push(SolverCall::NewBool(value, r)),
    ;

    /// A new boolean variable.
    fn new_bool_var(&mut self) -> (r: u64)
        ensures
            final(self).calls() == old(self).calls().push(SolverCall::NewBoolVar(r)),
    ;

    /// A new value of an integer literal.
    fn new_int(&mut self, value: i64) -> (r: u64)
        ensures
            final(self).calls() == old(self).calls().push(SolverCall::NewInt(value, r)),
    ;

    /// A new integer variable.
    fn new_int_var(&mut self) -> (r: u64)
        ensures
            final(self).calls() == old(self).calls().push(SolverCall::NewIntVar(r)),
    ;

    /// A new value of the rational `num / den`.
    fn new_real(&mut self, num: i64, den: i64) -> (r: u64)
        ensures
            final(self).calls() == old(self).calls().push(SolverCall::NewReal(num, den, r)),
    ;

    /// A new real variable.
    fn new_real_var(&mut self) -> (r: u64)
        ensures
            final(self).calls() == old(self).calls().push(SolverCall::NewRealVar(r)),
    ;

    /// A new value of a string literal.
    fn new_string(&mut self, value: &str) -> (r: u64)
        ensures
            final(self).calls() == old(self).calls().push(SolverCall::NewString(value@, r)),
    ;

    /// A new string variable.
    fn new_string_var(&mut self) -> (r: u64)
        ensures
            final(self).calls() == old(self).calls().push(SolverCall::NewStringVar(r)),
    ;

    /// The sum of the values.
    fn sum(&mut self, terms: &Vec<Slot>) -> Result<Slot, RiddleError>;

    /// The opposite of the value.
    fn opposite(&mut self, term: Slot) -> Result<Slot, RiddleError>;

    /// The product of the values.
    fn mul(&mut self, factors: &Vec<Slot>) -> Result<Slot, RiddleError>;

    /// The quotient of the values.
    fn div(&mut self, left: Slot, right: Slot) -> Result<Slot, RiddleError>;

    /// States that the clauses hold; whether the solver accepted them.
    fn assert_formula(&mut self, term: &BoolExpr) -> (r: bool)
        ensures
            final(self).calls() == old(self).calls().push(SolverCall::Assert(term@)),
    ;

    /// A variable ranging over the given instances of a class.
    fn new_var(&mut self, class: TypeId, instances: &Vec<ObjectId>) -> (r: Result<u64, RiddleError>)
        ensures
            final(self).calls() == old(self).calls().push(
                SolverCall::NewVar(
                    class,
                    instances@,
                    match r {
                        Ok(h) => Some(h),
                        Err(_) => None,
                    },
                ),
            ),
    ;

    /// Hands the solver a choice between blocks of statements.
    fn new_disjunction(&mut self, disjunction: Disjunction);
}

/// The running state: the solver, and the environments, objects, atoms,
/// boolean formulas and class instances made so far. Environment 0 is the
/// environment of the core.
pub struct State<C> {
    pub solver: C,
    pub envs: Vec<CommonEnv>,
    pub objects: Vec<Object>,
    pub atoms: Vec<Atom>,
    pub formulas: Vec<BoolExpr>,
    pub instances: Vec<(TypeId, ObjectId)>,
}

/// The calls made on a solver, in order.
pub type CallHistory = Seq<SolverCall>;

/// A call made on the solver: a new value of a literal, a new variable of a
/// primitive type, a new variable over the given instances of a class (with
/// its handle when the solver made one), or a formula (in conjunctive normal
/// form) stated to hold.
pub enum SolverCall {
    NewBool(bool, u64),
    NewInt(i64, u64),
    NewReal(i64, i64, u64),
    NewString(Seq<char>, u64),
    NewBoolVar(u64),
    NewIntVar(u64),
    NewRealVar(u64),
    NewStringVar(u64),
    NewVar(TypeId, Seq<ObjectId>, Option<u64>),
    Assert(Formula),
}

/// What looking a value up by its path gives.
pub enum Lookup {
    Found(Slot),
    /// A name of the path is not bound, or an object or atom does not exist.
    Missing,
    /// A value on the path is primitive: nothing can be looked up in it.
    NoEnv,
    /// The path is empty.
    Empty,
}

/// The value of `n` in the object or atom `s`.
pub open spec fn member_of(envs: Seq<CommonEnv>, objects: Seq<Object>, atoms: Seq<Atom>, s: Slot, n: Name) -> Lookup {
    match s {
        Slot::Primitive(_) => Lookup::NoEnv,
        Slot::ObjectRef(o) => if o.0 < objects.len() {
            match env_lookup(envs, objects[o.0 as int].env as int, n) {
                Some(v) => Lookup::Found(v),
                None => Lookup::Missing,
            }
        } else {
            Lookup::Missing
        },
        Slot::AtomRef(a) => if a.0 < atoms.len() {
            match env_lookup(envs, atoms[a.0 as int].env as int, n) {
                Some(v) => Lookup::Found(v),
                None => Lookup::Missing,
            }
        } else {
            Lookup::Missing
        },
    }
}

pub open spec fn walk_path(envs: Seq<CommonEnv>, objects: Seq<Object>, atoms: Seq<Atom>, cur: Slot, rest: Path) -> Lookup
    decreases rest.len(),
{
    if rest.len() == 0 {
        Lookup::Found(cur)
    } else {
        match member_of(envs, objects, atoms, cur, rest[0]) {
            Lookup::Found(v) => walk_path(envs, objects, atoms, v, rest.drop_first()),
            other => other,
        }
    }
}

/// Whether `err` is the error for walking the names `rest` from value `cur`,
/// the path having started with `first`: a primitive value has no
/// environment; an object or atom that does not exist, or a name not bound
/// in it, is not found. The messages name what failed.
pub open spec fn walk_error(
    envs: Seq<CommonEnv>,
    objects: Seq<Object>,
    atoms: Seq<Atom>,
    first: Name,
    cur: Slot,
    rest: Path,
    err: RiddleError,
) -> bool
    decreases rest.len(),
{
    if rest.len() == 0 {
        false
    } else {
        match cur {
            Slot::Primitive(_) => err matches RiddleError::NotAnEnvironment(m) && m@ == "Variable "@ + "'"@ + first + "'"@
                + " in path does not have an environment"@,
            Slot::ObjectRef(o) => if o.0 < objects.len() {
                match env_lookup(envs, objects[o.0 as int].env as int, rest[0]) {
                    Some(v) => walk_error(envs, objects, atoms, first, v, rest.drop_first(), err),
                    None => err matches RiddleError::NotFound(m) && m@ == "Variable "@ + "'"@ + rest[0] + "'"@ + (
                    " in path not found in "@ + ("object "@ + object_text(o) + ""@) + ""@),
                }
            } else {
                err matches RiddleError::NotFound(m) && m@ == "Object "@ + object_text(o) + " not found"@
            },
            Slot::AtomRef(a) => if a.0 < atoms.len() {
                match env_lookup(envs, atoms[a.0 as int].env as int, rest[0]) {
                    Some(v) => walk_error(envs, objects, atoms, first, v, rest.drop_first(), err),
                    None => err matches RiddleError::NotFound(m) && m@ == "Variable "@ + "'"@ + rest[0] + "'"@ + (
                    " in path not found in "@ + ("atom "@ + atom_text(a) + ""@) + ""@),
                }
            } else {
                err matches RiddleError::NotFound(m) && m@ == "Atom "@ + atom_text(a) + " not found"@
            },
        }
    }
}

/// Whether `err` is the error for looking up `path` from environment `e`:
/// an empty path, a first name not bound, or a failed walk (see
/// `walk_error`).
pub open spec fn lookup_error(envs: Seq<CommonEnv>, objects: Seq<Object>, atoms: Seq<Atom>, e: int, path: Path, err: RiddleError) -> bool {
    if path.len() == 0 {
        err matches RiddleError::RuntimeError(m) && m@ == "Empty variable path"@
    } else {
        match env_lookup(envs, e, path[0]) {
            None => err matches RiddleError::NotFound(m) && m@ == path[0],
            Some(v) => walk_error(envs, objects, atoms, path[0], v, path.drop_first(), err),
        }
    }
}

/// The value at `path` seen from environment `e`: its first name looked up
/// in `e`, each following one in the object or atom named before it.
pub open spec fn var_at_path(envs: Seq<CommonEnv>, objects: Seq<Object>, atoms: Seq<Atom>, e: int, path: Path) -> Lookup {
    if path.len() == 0 {
        Lookup::Empty
    } else {
        match env_lookup(envs, e, path[0]) {
            None => Lookup::Missing,
            Some(v) => walk_path(envs, objects, atoms, v, path.drop_first()),
        }
    }
}

/// The environments of `b` extend those of `a`: there may be more, each
/// keeps its parent, and each keeps its bindings, possibly followed by more.
pub open spec fn envs_grow<C>(a: State<C>, b: State<C>) -> bool {
    &&& a.envs@.len() <= b.envs@.len()
    &&& forall|e: int|
        0 <= e < a.envs@.len() ==> (#[trigger] b.envs@[e]).parent == a.envs@[e].parent
            && a.envs@[e].variables@.len() <= b.envs@[e].variables@.len() && b.envs@[e].variables@.subrange(
            0,
            a.envs@[e].variables@.len() as int,
        ) == a.envs@[e].variables@
}

pub proof fn lemma_envs_grow_trans<C>(a: State<C>, b: State<C>, c: State<C>)
    requires
        envs_grow(a, b),
        envs_grow(b, c),
    ensures
        envs_grow(a, c),
{
    assert forall|e: int| 0 <= e < a.envs@.len() implies (#[trigger] c.envs@[e]).parent == a.envs@[e].parent
        && a.envs@[e].variables@.len() <= c.envs@[e].variables@.len() && c.envs@[e].variables@.subrange(
        0,
        a.envs@[e].variables@.len() as int,
    ) == a.envs@[e].variables@ by {
        let va = a.envs@[e].variables@;
        let vb = b.envs@[e].variables@;
        let vc = c.envs@[e].variables@;
        assert(vc.subrange(0, va.len() as int) =~= vc.subrange(0, vb.len() as int).subrange(0, va.len() as int));
    }
}

pub proof fn lemma_envs_grow_refl<C>(a: State<C>, b: State<C>)
    requires
        a.envs == b.envs,
    ensures
        envs_grow(a, b),
{
    assert forall|e: int| 0 <= e < a.envs@.len() implies (#[trigger] b.envs@[e]).parent == a.envs@[e].parent
        && a.envs@[e].variables@.len() <= b.envs@[e].variables@.len() && b.envs@[e].variables@.subrange(
        0,
        a.envs@[e].variables@.len() as int,
    ) == a.envs@[e].variables@ by {
        assert(b.envs@[e].variables@.subrange(0, a.envs@[e].variables@.len() as int) =~= a.envs@[e].variables@);
    }
}

/// A binding, once made, stays visible (possibly shadowed by a later one).
pub proof fn lemma_bound_grows(a: Seq<(String, Slot)>, b: Seq<(String, Slot)>, n: Name)
    requires
        a.len() <= b.len(),
        b.subrange(0, a.len() as int) == a,
        bound(a, n) is Some,
    ensures
        bound(b, n) is Some,
    decreases b.len(),
{
    if b.len() > a.len() {
        if b.last().0@ != n {
            assert(b.drop_last().subrange(0, a.len() as int) =~= b.subrange(0, a.len() as int));
            lemma_bound_grows(a, b.drop_last(), n);
        }
    } else {
        assert(b =~= a);
    }
}

pub open spec fn tau_name() -> Name {
    seq!['t', 'a', 'u']
}

impl<C: Core> State<C> {
    /// Environment 0 exists, each environment falls back only to one made
    /// before it, and each object and atom has its own index as id and an
    /// environment that exists.
    pub open spec fn wf(&self) -> bool {
        &&& self.envs@.len() >= 1
        &&& forall|e: int| 0 <= e < self.envs@.len() ==> ((#[trigger] self.envs@[e]).parent matches Some(p) ==> p < e)
        &&& forall|k: int|
            0 <= k < self.objects@.len() ==> (#[trigger] self.objects@[k]).id.0 == k && self.objects@[k].env
                < self.envs@.len()
        &&& forall|k: int|
            0 <= k < self.atoms@.len() ==> (#[trigger] self.atoms@[k]).id.0 == k && self.atoms@[k].env < self.envs@.len()
    }

    /// A state with the core environment and nothing else.
    pub fn new(solver: C) -> (s: Self)
        ensures
            s.wf(),
            s.envs@.len() == 1,
            s.envs@[0].parent is None,
            s.envs@[0].variables@.len() == 0,
            s.objects@.len() == 0,
            s.atoms@.len() == 0,
            s.formulas@.len() == 0,
            s.instances@.len() == 0,
            s.solver == solver,
    {
        let mut envs: Vec<CommonEnv> = Vec::new();
        envs.push(CommonEnv::new(None));
        State {
            solver,
            envs,
            objects: Vec::new(),
            atoms: Vec::new(),
            formulas: Vec::new(),
            instances: Vec::new(),
        }
    }

    /// The value of `name` in environment `env`, else in the environments it
    /// falls back to.
    pub fn get(&self, env: usize, name: &String) -> (r: Option<Slot>)
        ensures
            r == env_lookup(self.envs@, env as int, name@),
    {
        let mut cur = env;
        loop
            invariant
                env_lookup(self.envs@, cur as int, name@) == env_lookup(self.envs@, env as int, name@),
            decreases cur,
        {
            if cur >= self.envs.len() {
                return None;
            }
            match self.envs[cur].get(name) {
                Some(v) => {
                    return Some(v);
                },
                None => match self.envs[cur].parent {
                    Some(p) => {
                        if p < cur {
                            cur = p;
                        } else {
                            return None;
                        }
                    },
                    None => {
                        return None;
                    },
                },
            }
        }
    }

    /// Binds `name` to `value` in environment `env`.
    pub fn set(&mut self, env: usize, name: String, value: Slot)
        requires
            env < old(self).envs@.len(),
        ensures
            final(self).envs@.len() == old(self).envs@.len(),
            final(self).envs@[env as int].parent == old(self).envs@[env as int].parent,
            final(self).envs@[env as int].variables@ == old(self).envs@[env as int].variables@.push((name, value)),
            forall|e: int| 0 <= e < final(self).envs@.len() && e != env ==> #[trigger] final(self).envs@[e] == old(self).envs@[e],
            final(self).objects == old(self).objects,
            final(self).atoms == old(self).atoms,
            final(self).formulas == old(self).formulas,
            final(self).instances == old(self).instances,
            final(self).solver == old(self).solver,
            final(self).solver == old(self).solver,
            env_lookup(final(self).envs@, env as int, name@) == Some(value),
            old(self).wf() ==> final(self).wf(),
            envs_grow(*old(self), *final(self)),
    {
        let mut e = self.envs.remove(env);
        e.set(name, value);
        self.envs.insert(env, e);
        proof {
            assert forall|k: int| 0 <= k < self.envs@.len() && k != env implies #[trigger] self.envs@[k] == old(self).envs@[k] by {}
            let ov = old(self).envs@[env as int].variables@;
            assert(self.envs@[env as int].variables@.subrange(0, ov.len() as int) =~= ov);
            assert forall|k: int| 0 <= k < old(self).envs@.len() implies (#[trigger] self.envs@[k]).variables@.subrange(
                0,
                old(self).envs@[k].variables@.len() as int,
            ) == old(self).envs@[k].variables@ by {
                if k != env {
                    assert(self.envs@[k].variables@.subrange(0, old(self).envs@[k].variables@.len() as int)
                        =~= old(self).envs@[k].variables@);
                }
            }
        }
    }

    /// Makes an environment that falls back to `parent`.
    pub fn new_env(&mut self, parent: Option<usize>) -> (e: usize)
        requires
            parent matches Some(p) ==> p < old(self).envs@.len(),
        ensures
            e == old(self).envs@.len(),
            final(self).envs@ == old(self).envs@.push(final(self).envs@[e as int]),
            final(self).envs@[e as int].parent == parent,
            final(self).envs@[e as int].variables@.len() == 0,
            final(self).objects == old(self).objects,
            final(self).atoms == old(self).atoms,
            final(self).formulas == old(self).formulas,
            final(self).instances == old(self).instances,
            final(self).solver == old(self).solver,
            final(self).solver == old(self).solver,
            old(self).wf() ==> final(self).wf(),
            envs_grow(*old(self), *final(self)),
    {
        let e = self.envs.len();
        self.envs.push(CommonEnv::new(parent));
        proof {
            assert forall|k: int| 0 <= k < old(self).envs@.len() implies (#[trigger] self.envs@[k]).variables@.subrange(
                0,
                old(self).envs@[k].variables@.len() as int,
            ) == old(self).envs@[k].variables@ by {
                assert(self.envs@[k].variables@.subrange(0, old(self).envs@[k].variables@.len() as int)
                    =~= old(self).envs@[k].variables@);
            }
        }
        e
    }

    /// Makes an object of class `class`, with an environment of its own.
    pub fn new_object(&mut self, class: TypeId) -> (id: ObjectId)
        requires
        ensures
            id.0 == old(self).objects@.len(),
            final(self).objects@ == old(self).objects@.push(Object { id, class, env: old(self).envs@.len() as usize }),
            final(self).envs@.len() == old(self).envs@.len() + 1,
            final(self).envs@[old(self).envs@.len() as int].parent is None,
            final(self).envs@[old(self).envs@.len() as int].variables@.len() == 0,
            forall|e: int| 0 <= e < old(self).envs@.len() ==> #[trigger] final(self).envs@[e] == old(self).envs@[e],
            final(self).atoms == old(self).atoms,
            final(self).formulas == old(self).formulas,
            final(self).instances == old(self).instances,
            final(self).solver == old(self).solver,
            final(self).solver == old(self).solver,
            old(self).wf() ==> final(self).wf(),
    {
        let env = self.new_env(None);
        let id = ObjectId(self.objects.len());
        self.objects.push(Object::new(id, class, env));
        id
    }

    /// The object with id `id`.
    pub fn get_object(&self, id: ObjectId) -> (r: Option<&Object>)
        ensures
            r == (if id.0 < self.objects@.len() { Some(&self.objects@[id.0 as int]) } else { None }),
    {
        if id.0 < self.objects.len() {
            Some(&self.objects[id.0])
        } else {
            None
        }
    }

    /// The atom with id `id`.
    pub fn get_atom(&self, id: AtomId) -> (r: Option<&Atom>)
        ensures
            r == (if id.0 < self.atoms@.len() { Some(&self.atoms@[id.0 as int]) } else { None }),
    {
        if id.0 < self.atoms.len() {
            Some(&self.atoms[id.0])
        } else {
            None
        }
    }

    /// Makes an atom of `predicate` with the arguments `args`. Its environment
    /// binds the arguments and falls back to the environment of the object or
    /// atom given as `tau`, or else to the core's.
    pub fn new_atom(&mut self, predicate: TypeId, fact: bool, args: Vec<(String, Slot)>) -> (id: AtomId)
        requires
            old(self).wf(),
            match bound(args@, tau_name()) {
                Some(Slot::Primitive(_)) => false,
                Some(Slot::ObjectRef(o)) => o.0 < old(self).objects@.len(),
                Some(Slot::AtomRef(a)) => a.0 < old(self).atoms@.len(),
                None => true,
            },
        ensures
            final(self).wf(),
            id.0 == old(self).atoms@.len(),
            final(self).atoms@.len() == old(self).atoms@.len() + 1,
            final(self).atoms@[id.0 as int].id == id,
            final(self).atoms@[id.0 as int].predicate == predicate,
            final(self).atoms@[id.0 as int].fact == fact,
            final(self).atoms@[id.0 as int].env == old(self).envs@.len(),
            forall|k: int| 0 <= k < old(self).atoms@.len() ==> #[trigger] final(self).atoms@[k] == old(self).atoms@[k],
            final(self).envs@.len() == old(self).envs@.len() + 1,
            forall|e: int| 0 <= e < old(self).envs@.len() ==> #[trigger] final(self).envs@[e] == old(self).envs@[e],
            final(self).envs@[old(self).envs@.len() as int].parent == Some(
                match bound(args@, tau_name()) {
                    Some(Slot::ObjectRef(o)) => old(self).objects@[o.0 as int].env,
                    Some(Slot::AtomRef(a)) => old(self).atoms@[a.0 as int].env,
                    _ => 0usize,
                },
            ),
            forall|n: Name| #[trigger] bound(final(self).envs@[old(self).envs@.len() as int].variables@, n) == bound(args@, n),
            final(self).objects == old(self).objects,
            final(self).formulas == old(self).formulas,
            final(self).instances == old(self).instances,
            final(self).solver == old(self).solver,
            final(self).solver == old(self).solver,
    {
        let tau = "tau".to_owned();
        proof {
            reveal_strlit("tau");
            assert(tau@ =~= tau_name());
        }
        let parent: usize = match find_bound(&args, &tau) {
            Some(Slot::ObjectRef(o)) => self.objects[o.0].env,
            Some(Slot::AtomRef(a)) => self.atoms[a.0].env,
            _ => 0,
        };
        let env = self.new_env(Some(parent));
        let ghost e0 = env;
        let mut vars: Vec<(String, Slot)> = args;
        proof {
            assert(self.envs@[env as int].variables@ =~= Seq::<(String, Slot)>::empty());
        }
        let mut e = self.envs.remove(env);
        e.variables = vars;
        self.envs.insert(env, e);
        let id = AtomId(self.atoms.len());
        self.atoms.push(Atom::new(id, predicate, fact, env));
        proof {
            assert forall|k: int| 0 <= k < old(self).envs@.len() implies #[trigger] self.envs@[k] == old(self).envs@[k] by {}
        }
        id
    }
}

/// Looks a value up by its path from an environment: the first name in the
/// environment (and those it falls back to), each following one in the
/// object or atom named before it.
pub fn get_var_by_path<C: Core>(state: &State<C>, env: usize, path: &Vec<String>) -> (r: Result<Slot, RiddleError>)
    ensures
        match r {
            Ok(s) => var_at_path(state.envs@, state.objects@, state.atoms@, env as int, path_view(path@))
                == Lookup::Found(s),
            Err(e) => {
                let l = var_at_path(state.envs@, state.objects@, state.atoms@, env as int, path_view(path@));
                ||| (l is Missing && e is NotFound)
                ||| (l is NoEnv && e is NotAnEnvironment)
                ||| (l is Empty && e is RuntimeError)
            },
        },
        path@.len() == 0 ==> (r matches Err(RiddleError::RuntimeError(m)) && m@ == "Empty variable path"@),
        path@.len() > 0 && env_lookup(state.envs@, env as int, path@[0]@) is None ==> (r matches Err(
            RiddleError::NotFound(n),
        ) && n@ == path@[0]@),
        r matches Err(err) ==> lookup_error(state.envs@, state.objects@, state.atoms@, env as int, path_view(path@), err),
{
    let ghost pv = path_view(path@);
    if path.len() == 0 {
        return Err(RiddleError::RuntimeError("Empty variable path".to_owned()));
    }
    let mut cur = match state.get(env, &path[0]) {
        Some(v) => v,
        None => {
            return Err(RiddleError::NotFound(path[0].clone()));
        },
    };
    let mut i: usize = 1;
    proof {
        assert(pv.drop_first() =~= pv.subrange(1, pv.len() as int));
    }
    while i < path.len()
        invariant
            1 <= i <= path.len(),
            pv == path_view(path@),
            env_lookup(state.envs@, env as int, path@[0]@) is Some,
            forall|err: RiddleError|
                #[trigger] lookup_error(state.envs@, state.objects@, state.atoms@, env as int, pv, err) == walk_error(
                    state.envs@,
                    state.objects@,
                    state.atoms@,
                    pv[0],
                    cur,
                    pv.subrange(i as int, pv.len() as int),
                    err,
                ),
            var_at_path(state.envs@, state.objects@, state.atoms@, env as int, pv) == walk_path(
                state.envs@,
                state.objects@,
                state.atoms@,
                cur,
                pv.subrange(i as int, pv.len() as int),
            ),
        decreases path.len() - i,
    {
        let ghost rest = pv.subrange(i as int, pv.len() as int);
        proof {
            assert(rest[0] == path@[i as int]@);
            assert(rest.drop_first() =~= pv.subrange(i + 1, pv.len() as int));
        }
        let member_env = match cur {
            Slot::Primitive(_) => {
                return Err(RiddleError::NotAnEnvironment(quoted_message(
                    "Variable ",
                    &path[0],
                    " in path does not have an environment",
                )));
            },
            Slot::ObjectRef(o) => match state.get_object(o) {
                Some(obj) => obj.env,
                None => {
                    return Err(RiddleError::NotFound(id_message("Object ", &o.to_string(), " not found")));
                },
            },
            Slot::AtomRef(a) => match state.get_atom(a) {
                Some(atom) => atom.env,
                None => {
                    return Err(RiddleError::NotFound(id_message("Atom ", &a.to_string(), " not found")));
                },
            },
        };
        cur = match state.get(member_env, &path[i]) {
            Some(v) => v,
            None => {
                let owner = match cur {
                    Slot::AtomRef(a) => id_message("atom ", &a.to_string(), ""),
                    Slot::ObjectRef(o) => id_message("object ", &o.to_string(), ""),
                    Slot::Primitive(_) => id_message("variable ", &quoted_message("", &path[0], ""), ""),
                };
                return Err(RiddleError::NotFound(quoted_message("Variable ", &path[i], &id_message(" in path not found in ", &owner, ""))));
            },
        };
        i = i + 1;
    }
    proof {
        assert(pv.subrange(path.len() as int, pv.len() as int) =~= Seq::<Name>::empty());
    }
    Ok(cur)
}


// ---------------------------------------------------------------------------
// Loading declarations.
// ---------------------------------------------------------------------------

/// A copy of a path.
pub fn copy_path(p: &Vec<String>) -> (r: Vec<String>)
    ensures
        path_view(r@) == path_view(p@),
{
    let mut r: Vec<String> = Vec::new();
    let mut i: usize = 0;
    while i < p.len()
        invariant
            i <= p.len(),
            path_view(r@) == path_view(p@).subrange(0, i as int),
        decreases p.len() - i,
    {
        let ghost before = r@;
        let c = p[i].clone();
        proof {
            assert(c@ == p@[i as int]@);
        }
        r.push(c);
        proof {
            assert(r@ == before.push(c));
            assert(path_view(r@) =~= path_view(before).push(c@));
            assert(path_view(p@).subrange(0, i + 1) =~= path_view(p@).subrange(0, i as int).push(c@));
        }
        i = i + 1;
    }
    proof {
        assert(path_view(p@).subrange(0, p.len() as int) =~= path_view(p@));
    }
    r
}

/// A field as declared: its name, its type and its default.
pub type FieldDecl = (Name, Path, Option<SpecExpr>);

/// Whether the `i`th declaration of `list` is named `n`.
pub open spec fn named_at(list: Seq<FieldDecl>, n: Name, i: int) -> bool {
    0 <= i < list.len() && list[i].0 == n
}

/// Whether no two declarations of `list` share a name.
pub open spec fn names_distinct(list: Seq<FieldDecl>) -> bool {
    forall|i: int, j: int| 0 <= i < j < list.len() ==> #[trigger] list[i].0 != #[trigger] list[j].0
}

/// `list` with `d` declared: `d` replaces the declaration of the same name,
/// or else comes last.
pub open spec fn with_decl(list: Seq<FieldDecl>, d: FieldDecl) -> Seq<FieldDecl> {
    if exists|i: int| named_at(list, d.0, i) {
        list.update(choose|i: int| named_at(list, d.0, i), d)
    } else {
        list.push(d)
    }
}

/// `start` with each of `decls` declared in turn: one field per name, a
/// later declaration replacing an earlier one of the same name.
pub open spec fn declare_all(start: Seq<FieldDecl>, decls: Seq<FieldDecl>) -> Seq<FieldDecl>
    decreases decls.len(),
{
    if decls.len() == 0 {
        start
    } else {
        with_decl(declare_all(start, decls.drop_last()), decls.last())
    }
}

/// The fields that typed arguments declare, one per argument.
pub open spec fn arg_decls(args: Seq<(Vec<String>, String)>) -> Seq<FieldDecl> {
    args.map_values(|a: (Vec<String>, String)| (a.1@, path_view(a.0@), None::<SpecExpr>))
}

/// Whether `fields` holds the typed arguments `args`, one field per name,
/// without a default: a later argument replaces an earlier one of the same
/// name.
pub open spec fn declares_args(fields: Seq<Field>, args: Seq<(Vec<String>, String)>) -> bool {
    fields.map_values(|f: Field| field_decl(f)) == declare_all(seq![], arg_decls(args))
}

proof fn lemma_with_decl_distinct(list: Seq<FieldDecl>, d: FieldDecl)
    requires
        names_distinct(list),
    ensures
        names_distinct(with_decl(list, d)),
{
    if exists|i: int| named_at(list, d.0, i) {
        let c = choose|i: int| named_at(list, d.0, i);
        let r = list.update(c, d);
        assert forall|i: int, j: int| 0 <= i < j < r.len() implies #[trigger] r[i].0 != #[trigger] r[j].0 by {
            if i == c {
                assert(list[c].0 == d.0);
                assert(list[c].0 != list[j].0);
            } else if j == c {
                assert(list[i].0 != list[c].0);
            }
        }
    } else {
        let r = list.push(d);
        assert forall|i: int, j: int| 0 <= i < j < r.len() implies #[trigger] r[i].0 != #[trigger] r[j].0 by {
            if j == list.len() {
                assert(!named_at(list, d.0, i));
            }
        }
    }
}

proof fn lemma_declare_all_concat(start: Seq<FieldDecl>, a: Seq<FieldDecl>, b: Seq<FieldDecl>)
    ensures
        declare_all(start, a + b) == declare_all(declare_all(start, a), b),
    decreases b.len(),
{
    if b.len() == 0 {
        assert(a + b =~= a);
    } else {
        lemma_declare_all_concat(start, a, b.drop_last());
        assert((a + b).drop_last() =~= a + b.drop_last());
        assert((a + b).last() == b.last());
    }
}

proof fn lemma_declare_all(start: Seq<FieldDecl>, decls: Seq<FieldDecl>)
    requires
        names_distinct(start),
    ensures
        names_distinct(declare_all(start, decls)),
        forall|j: int|
            0 <= j < decls.len() && (forall|k: int| j < k < decls.len() ==> (#[trigger] decls[k]).0 != decls[j].0)
                ==> declare_all(start, decls).contains(#[trigger] decls[j]),
        forall|x: FieldDecl| #[trigger] declare_all(start, decls).contains(x) ==> start.contains(x) || decls.contains(x),
    decreases decls.len(),
{
    if decls.len() > 0 {
        let p = decls.drop_last();
        let d = decls.last();
        let n = decls.len() - 1;
        lemma_declare_all(start, p);
        let r0 = declare_all(start, p);
        lemma_with_decl_distinct(r0, d);
        let r = with_decl(r0, d);
        assert(r == declare_all(start, decls));
        let found = exists|i: int| named_at(r0, d.0, i);
        let c = choose|i: int| named_at(r0, d.0, i);
        if found {
            assert(r[c] == d);
        } else {
            assert(r[r0.len() as int] == d);
        }
        assert(r.contains(d));
        assert forall|j: int|
            0 <= j < decls.len() && (forall|k: int| j < k < decls.len() ==> (#[trigger] decls[k]).0 != decls[j].0)
                implies r.contains(#[trigger] decls[j]) by {
            if j < n {
                assert(decls[j] == p[j]);
                assert forall|k: int| j < k < p.len() implies (#[trigger] p[k]).0 != p[j].0 by {
                    assert(p[k] == decls[k]);
                }
                assert(r0.contains(p[j]));
                let m = choose|m: int| 0 <= m < r0.len() && r0[m] == p[j];
                assert(decls[n].0 != decls[j].0);
                if found {
                    assert(m != c);
                }
                assert(r[m] == r0[m]);
            }
        }
        assert forall|x: FieldDecl| #[trigger] r.contains(x) implies start.contains(x) || decls.contains(x) by {
            let m = choose|m: int| 0 <= m < r.len() && r[m] == x;
            if x == d {
                assert(decls[n] == d);
            } else {
                if found {
                    assert(m != c);
                } else {
                    assert(m < r0.len());
                }
                assert(r0[m] == x);
                assert(r0.contains(x));
                if p.contains(x) {
                    let q = choose|q: int| 0 <= q < p.len() && p[q] == x;
                    assert(decls[q] == x);
                }
            }
        }
    }
}

/// Declaring fields in turn keeps one field per name: the last declaration
/// of each name is held, and every field held was declared.
pub proof fn law_one_field_per_name(decls: Seq<FieldDecl>)
    ensures
        names_distinct(declare_all(seq![], decls)),
        forall|j: int|
            0 <= j < decls.len() && (forall|k: int| j < k < decls.len() ==> (#[trigger] decls[k]).0 != decls[j].0)
                ==> declare_all(seq![], decls).contains(#[trigger] decls[j]),
        forall|x: FieldDecl| #[trigger] declare_all(seq![], decls).contains(x) ==> decls.contains(x),
{
    lemma_declare_all(seq![], decls);
}

/// Declares `f` among `fields`: it replaces the field of the same name, or
/// else comes last.
fn put_field(fields: &mut Vec<Field>, f: Field)
    requires
        names_distinct(old(fields)@.map_values(|x: Field| field_decl(x))),
    ensures
        final(fields)@.map_values(|x: Field| field_decl(x)) == with_decl(
            old(fields)@.map_values(|x: Field| field_decl(x)),
            field_decl(f),
        ),
        names_distinct(final(fields)@.map_values(|x: Field| field_decl(x))),
{
    let ghost l = old(fields)@.map_values(|x: Field| field_decl(x));
    let ghost d = field_decl(f);
    proof {
        lemma_with_decl_distinct(l, d);
    }
    let mut i: usize = 0;
    while i < fields.len()
        invariant
            i <= fields.len(),
            fields@ == old(fields)@,
            l == old(fields)@.map_values(|x: Field| field_decl(x)),
            d == field_decl(f),
            names_distinct(l),
            forall|k: int| 0 <= k < i ==> !named_at(l, d.0, k),
        decreases fields.len() - i,
    {
        if fields[i].name == f.name {
            proof {
                assert(named_at(l, d.0, i as int));
                let c = choose|j: int| named_at(l, d.0, j);
                assert(named_at(l, d.0, c));
                if c < i {
                    assert(!named_at(l, d.0, c));
                } else if c > i {
                    assert(l[i as int].0 != l[c].0);
                }
                assert(c == i);
            }
            fields.set(i, f);
            proof {
                assert(fields@.map_values(|x: Field| field_decl(x)) =~= l.update(i as int, d));
            }
            return;
        }
        proof {
            assert(l[i as int].0 == fields@[i as int].name@);
        }
        i = i + 1;
    }
    proof {
        assert(!exists|j: int| named_at(l, d.0, j));
    }
    fields.push(f);
    proof {
        assert(fields@.map_values(|x: Field| field_decl(x)) =~= l.push(d));
    }
}

/// Scope `s` of `program` lies in scope `p` and declares the typed
/// arguments `args`, one field per name (a later argument replacing an
/// earlier one of the same name), and nothing else: types, predicates and
/// functions are looked up in `p`, as they are there.
pub open spec fn args_scope_of(program: Program, s: int, p: usize, args: Seq<(Vec<String>, String)>) -> bool {
    &&& 0 <= p < s < program.scopes@.len()
    &&& program.scopes@[s].parent == Some(p)
    &&& declares_args(program.scopes@[s].fields@, args)
    &&& names_distinct(program.scopes@[s].fields@.map_values(|f: Field| field_decl(f)))
    &&& forall|n: Name| #[trigger] scope_type(program.scopes@, s, n) == scope_type(program.scopes@, p as int, n)
    &&& forall|n: Name| #[trigger] scope_predicate(program.scopes@, s, n) == scope_predicate(program.scopes@, p as int, n)
    &&& forall|n: Name, ts: Seq<TypeId>| #[trigger] scope_function(program, s, n, ts) == scope_function(program, p as int, n, ts)
}

/// Makes a scope inside `parent` that declares the typed arguments `args`.
fn args_scope(program: &mut Program, parent: usize, args: &Vec<(Vec<String>, String)>) -> (s: usize)
    requires
        old(program).wf(),
        parent < old(program).scopes@.len(),
    ensures
        s == old(program).scopes@.len(),
        final(program).scopes@ == old(program).scopes@.push(final(program).scopes@[s as int]),
        final(program).types == old(program).types,
        final(program).scopes@[s as int].parent == Some(parent),
        final(program).scopes@[s as int].owner is None,
        declares_args(final(program).scopes@[s as int].fields@, args@),
        final(program).scopes@[s as int].functions@.len() == 0,
        final(program).scopes@[s as int].types@.len() == 0,
        final(program).scopes@[s as int].predicates@.len() == 0,
        final(program).wf(),
        args_scope_of(*final(program), s as int, parent, args@),
{
    let mut scope = CommonScope::new(Some(parent), None);
    proof {
        assert(arg_decls(args@.subrange(0, 0)) =~= seq![]);
        assert(scope.fields@.map_values(|f: Field| field_decl(f)) =~= seq![]);
    }
    let mut i: usize = 0;
    while i < args.len()
        invariant
            i <= args.len(),
            scope.parent == Some(parent),
            scope.owner is None,
            scope.functions@.len() == 0,
            scope.types@.len() == 0,
            scope.predicates@.len() == 0,
            declares_args(scope.fields@, args@.subrange(0, i as int)),
            names_distinct(scope.fields@.map_values(|f: Field| field_decl(f))),
        decreases args.len() - i,
    {
        let name = args[i].1.clone();
        let field_type = copy_path(&args[i].0);
        let ghost before = args@.subrange(0, i as int);
        let ghost after = args@.subrange(0, i + 1);
        proof {
            assert(arg_decls(after).drop_last() =~= arg_decls(before));
            assert(arg_decls(after).last() == (args@[i as int].1@, path_view(args@[i as int].0@), None::<SpecExpr>));
        }
        put_field(&mut scope.fields, Field::new(name, field_type, None));
        i = i + 1;
    }
    proof {
        assert(args@.subrange(0, args.len() as int) =~= args@);
    }
    let s = program.scopes.len();
    program.scopes.push(scope);
    proof {
        let pr = *program;
        assert forall|n: Name| #[trigger] scope_type(pr.scopes@, s as int, n) == scope_type(pr.scopes@, parent as int, n) by {
            law_scope_lookup_falls_back(pr, s as int, parent, n, seq![]);
        }
        assert forall|n: Name| #[trigger] scope_predicate(pr.scopes@, s as int, n) == scope_predicate(pr.scopes@, parent as int, n) by {
            law_scope_lookup_falls_back(pr, s as int, parent, n, seq![]);
        }
        assert forall|n: Name, ts: Seq<TypeId>| #[trigger] scope_function(pr, s as int, n, ts) == scope_function(pr, parent as int, n, ts) by {
            law_scope_lookup_falls_back(pr, s as int, parent, n, ts);
        }
    }
    s
}

impl CommonScope {
    /// Makes the scope of a function inside `parent`, declaring its arguments.
    pub fn from_function(program: &mut Program, parent: usize, args: &Vec<(Vec<String>, String)>) -> (s: usize)
        requires
            old(program).wf(),
            parent < old(program).scopes@.len(),
            ensures
            s == old(program).scopes@.len(),
            final(program).scopes@ == old(program).scopes@.push(final(program).scopes@[s as int]),
            final(program).types == old(program).types,
            final(program).scopes@[s as int].parent == Some(parent),
            final(program).scopes@[s as int].owner is None,
            declares_args(final(program).scopes@[s as int].fields@, args@),
            final(program).scopes@[s as int].functions@.len() == 0,
            final(program).scopes@[s as int].types@.len() == 0,
            final(program).scopes@[s as int].predicates@.len() == 0,
            final(program).wf(),
            args_scope_of(*final(program), s as int, parent, args@),
    {
        args_scope(program, parent, args)
    }

    /// Makes the scope of a constructor inside its class's scope, declaring
    /// its arguments.
    pub fn from_constructor(program: &mut Program, class_scope: usize, args: &Vec<(Vec<String>, String)>) -> (s: usize)
        requires
            old(program).wf(),
            class_scope < old(program).scopes@.len(),
            ensures
            s == old(program).scopes@.len(),
            final(program).scopes@ == old(program).scopes@.push(final(program).scopes@[s as int]),
            final(program).types == old(program).types,
            final(program).scopes@[s as int].parent == Some(class_scope),
            final(program).scopes@[s as int].owner is None,
            declares_args(final(program).scopes@[s as int].fields@, args@),
            final(program).scopes@[s as int].functions@.len() == 0,
            final(program).scopes@[s as int].types@.len() == 0,
            final(program).scopes@[s as int].predicates@.len() == 0,
            final(program).wf(),
            args_scope_of(*final(program), s as int, class_scope, args@),
    {
        args_scope(program, class_scope, args)
    }

    /// Makes the scope of a predicate inside `parent`, declaring its arguments.
    pub fn from_predicate(program: &mut Program, parent: usize, args: &Vec<(Vec<String>, String)>) -> (s: usize)
        requires
            old(program).wf(),
            parent < old(program).scopes@.len(),
            ensures
            s == old(program).scopes@.len(),
            final(program).scopes@ == old(program).scopes@.push(final(program).scopes@[s as int]),
            final(program).types == old(program).types,
            final(program).scopes@[s as int].parent == Some(parent),
            final(program).scopes@[s as int].owner is None,
            declares_args(final(program).scopes@[s as int].fields@, args@),
            final(program).scopes@[s as int].functions@.len() == 0,
            final(program).scopes@[s as int].types@.len() == 0,
            final(program).scopes@[s as int].predicates@.len() == 0,
            final(program).wf(),
            args_scope_of(*final(program), s as int, parent, args@),
    {
        args_scope(program, parent, args)
    }
}

impl Function {
    /// Makes a function from its definition, with a scope inside `parent`.
    pub fn new(program: &mut Program, parent: usize, def: FunctionDef) -> (f: Function)
        requires
            old(program).wf(),
            parent < old(program).scopes@.len(),
            ensures
            f.scope == old(program).scopes@.len(),
            f.name == def.name,
            f.return_type == def.return_type,
            f.args == def.args,
            f.statements == def.statements,
            final(program).scopes@ == old(program).scopes@.push(final(program).scopes@[f.scope as int]),
            final(program).types == old(program).types,
            final(program).scopes@[f.scope as int].parent == Some(parent),
            declares_args(final(program).scopes@[f.scope as int].fields@, def.args@),
            final(program).wf(),
            args_scope_of(*final(program), f.scope as int, parent, def.args@),
    {
        let scope = CommonScope::from_function(program, parent, &def.args);
        Function { scope, name: def.name, return_type: def.return_type, args: def.args, statements: def.statements }
    }
}

impl Constructor {
    /// Makes a constructor from its definition, with a scope inside its class's.
    pub fn new(program: &mut Program, class_scope: usize, def: ConstructorDef) -> (c: Constructor)
        requires
            old(program).wf(),
            class_scope < old(program).scopes@.len(),
            ensures
            c.scope == old(program).scopes@.len(),
            c.args == def.args,
            c.init == def.init,
            c.statements == def.statements,
            final(program).scopes@ == old(program).scopes@.push(final(program).scopes@[c.scope as int]),
            final(program).types == old(program).types,
            final(program).scopes@[c.scope as int].parent == Some(class_scope),
            declares_args(final(program).scopes@[c.scope as int].fields@, def.args@),
            final(program).wf(),
            args_scope_of(*final(program), c.scope as int, class_scope, def.args@),
    {
        let scope = CommonScope::from_constructor(program, class_scope, &def.args);
        Constructor { scope, args: def.args, init: def.init, statements: def.statements }
    }
}

impl Predicate {
    /// Makes a predicate from its definition, with a scope inside `parent`;
    /// `path` is its qualified name.
    pub fn new(program: &mut Program, parent: usize, def: PredicateDef, path: Vec<String>) -> (p: Predicate)
        requires
            old(program).wf(),
            parent < old(program).scopes@.len(),
            ensures
            p.scope == old(program).scopes@.len(),
            p.name == def.name,
            p.path == path,
            p.parents == def.parents,
            p.args == def.args,
            p.statements == def.statements,
            p.atoms@.len() == 0,
            final(program).scopes@ == old(program).scopes@.push(final(program).scopes@[p.scope as int]),
            final(program).types == old(program).types,
            final(program).scopes@[p.scope as int].parent == Some(parent),
            declares_args(final(program).scopes@[p.scope as int].fields@, def.args@),
            final(program).wf(),
            args_scope_of(*final(program), p.scope as int, parent, def.args@),
    {
        let scope = CommonScope::from_predicate(program, parent, &def.args);
        Predicate {
            name: def.name,
            path,
            scope,
            parents: def.parents,
            args: def.args,
            statements: def.statements,
            atoms: Vec::new(),
        }
    }
}


pub open spec fn field_decl(f: Field) -> (Name, Path, Option<SpecExpr>) {
    (f.name@, path_view(f.field_type@), opt_expr_view(f.default))
}

pub open spec fn group_decls(g: (Vec<String>, Vec<(String, Option<Expr>)>)) -> Seq<(Name, Path, Option<SpecExpr>)> {
    g.1@.map_values(|x: (String, Option<Expr>)| (x.0@, path_view(g.0@), opt_expr_view(x.1)))
}

/// The fields that groups of field declarations declare, in order.
pub open spec fn fields_declared(groups: Seq<(Vec<String>, Vec<(String, Option<Expr>)>)>) -> Seq<
    (Name, Path, Option<SpecExpr>),
>
    decreases groups.len(),
{
    if groups.len() == 0 {
        seq![]
    } else {
        fields_declared(groups.drop_last()) + group_decls(groups.last())
    }
}

/// The fields of a class: one per name, a later declaration replacing an
/// earlier one of the same name.
pub open spec fn class_fields(groups: Seq<(Vec<String>, Vec<(String, Option<Expr>)>)>) -> Seq<FieldDecl> {
    declare_all(seq![], fields_declared(groups))
}

/// Declares among the fields of a scope each declaration of a group, in turn.
fn add_field_group(fields: &mut Vec<Field>, group: (Vec<String>, Vec<(String, Option<Expr>)>))
    requires
        names_distinct(old(fields)@.map_values(|f: Field| field_decl(f))),
    ensures
        final(fields)@.map_values(|f: Field| field_decl(f)) == declare_all(
            old(fields)@.map_values(|f: Field| field_decl(f)),
            group_decls(group),
        ),
        names_distinct(final(fields)@.map_values(|f: Field| field_decl(f))),
{
    let ghost g = group;
    let (field_type, inits) = group;
    let ghost target = group_decls(g);
    let ghost base = old(fields)@.map_values(|f: Field| field_decl(f));
    let ghost n = inits.len();
    let mut rest = inits;
    proof {
        assert(target.subrange(0, 0) =~= seq![]);
    }
    while rest.len() > 0
        invariant
            rest.len() <= n,
            n == g.1@.len(),
            target == group_decls(g),
            path_view(field_type@) == path_view(g.0@),
            rest@ == g.1@.subrange(n - rest.len(), n as int),
            fields@.map_values(|f: Field| field_decl(f)) == declare_all(base, target.subrange(0, n - rest.len())),
            names_distinct(fields@.map_values(|f: Field| field_decl(f))),
        decreases rest.len(),
    {
        let ghost rb = rest@;
        let ghost i = n - rest.len();
        let (name, default) = rest.remove(0);
        proof {
            assert(rb[0] == (name, default));
            assert(rest@ =~= rb.subrange(1, rb.len() as int));
            assert(g.1@[i] == (name, default));
            assert(target.subrange(0, i + 1).drop_last() =~= target.subrange(0, i));
            assert(target.subrange(0, i + 1).last() == target[i]);
        }
        let ft = copy_path(&field_type);
        put_field(fields, Field::new(name, ft, default));
    }
    proof {
        assert(target.subrange(0, n as int) =~= target);
    }
}

/// The first `n` scopes and types of `p0` are those of `p`, which has at
/// least as many.
pub open spec fn keeps(p0: Program, p: Program, n_types: int, n_scopes: int) -> bool {
    &&& n_types <= p0.types@.len() <= p.types@.len()
    &&& n_scopes <= p0.scopes@.len() <= p.scopes@.len()
    &&& forall|k: int| 0 <= k < n_types ==> #[trigger] p.types@[k] == p0.types@[k]
    &&& forall|k: int| 0 <= k < n_scopes ==> #[trigger] p.scopes@[k] == p0.scopes@[k]
}

impl CommonScope {
    /// Makes the scope of the members of a class inside `parent`: its fields,
    /// functions, nested classes and predicates. `owner` is the class and
    /// `path` its qualified name.
    #[verifier::rlimit(50)]
    pub fn from_class(
        program: &mut Program,
        parent: usize,
        owner: TypeId,
        path: &Vec<String>,
        fields: Vec<(Vec<String>, Vec<(String, Option<Expr>)>)>,
        functions: Vec<FunctionDef>,
        predicates: Vec<PredicateDef>,
        classes: Vec<ClassDef>,
    ) -> (s: usize)
        requires
            old(program).wf(),
            parent < old(program).scopes@.len(),
        ensures
            s == old(program).scopes@.len(),
            s < final(program).scopes@.len(),
            final(program).wf(),
            keeps(*old(program), *final(program), old(program).types@.len() as int, old(program).scopes@.len() as int),
            final(program).scopes@[s as int].parent == Some(parent),
            final(program).scopes@[s as int].owner == Some(owner),
            final(program).scopes@[s as int].fields@.map_values(|f: Field| field_decl(f)) == class_fields(fields@),
            names_distinct(final(program).scopes@[s as int].fields@.map_values(|f: Field| field_decl(f))),
            final(program).scopes@[s as int].functions@.len() == functions@.len(),
            forall|k: int|
                0 <= k < functions@.len() ==> #[trigger] final(program).scopes@[s as int].functions@[k].name == functions@[k].name,
            final(program).scopes@[s as int].types@.len() == classes@.len(),
            forall|k: int|
                0 <= k < classes@.len() ==> #[trigger] final(program).scopes@[s as int].types@[k].0 == classes@[k].name,
            final(program).scopes@[s as int].predicates@.len() == predicates@.len(),
            forall|k: int|
                0 <= k < predicates@.len() ==> #[trigger] final(program).scopes@[s as int].predicates@[k].0
                    == predicates@[k].name,
            forall|k: int|
                0 <= k < classes@.len() ==> ({
                    let t = (#[trigger] final(program).scopes@[s as int].types@[k]).1;
                    &&& t.0 < final(program).types@.len()
                    &&& final(program).types@[t.0 as int] is Class
                    &&& final(program).types@[t.0 as int]->Class_0.name == classes@[k].name
                }),
            forall|k: int|
                0 <= k < predicates@.len() ==> ({
                    let t = (#[trigger] final(program).scopes@[s as int].predicates@[k]).1;
                    &&& t.0 < final(program).types@.len()
                    &&& final(program).types@[t.0 as int] is Predicate
                    &&& final(program).types@[t.0 as int]->Predicate_0.name == predicates@[k].name
                }),
        decreases classes_view(classes@), 0nat,
    {
        let ghost p0 = *program;
        let ghost cv = classes_view(classes@);
        let ghost fields0 = fields@;
        let ghost functions0 = functions@;
        let ghost predicates0 = predicates@;
        let ghost classes0 = classes@;
        let s = program.scopes.len();
        program.scopes.push(CommonScope::new(Some(parent), Some(owner)));
        proof {
            assert(fields_declared(fields0.subrange(0, 0)) =~= seq![]);
            assert(program.scopes@[s as int].fields@.map_values(|f: Field| field_decl(f)) =~= class_fields(
                fields0.subrange(0, 0),
            ));
        }
        // Fields.
        let ghost ng = fields.len();
        let mut groups = fields;
        while groups.len() > 0
            invariant
                program.wf(),
                s == p0.scopes@.len(),
                keeps(p0, *program, p0.types@.len() as int, s as int),
                program.scopes@.len() == s + 1,
                program.scopes@[s as int].parent == Some(parent),
                program.scopes@[s as int].owner == Some(owner),
                program.scopes@[s as int].functions@.len() == 0,
                program.scopes@[s as int].types@.len() == 0,
                program.scopes@[s as int].predicates@.len() == 0,
                groups.len() <= ng,
                ng == fields0.len(),
                groups@ == fields0.subrange(ng - groups.len(), ng as int),
                program.scopes@[s as int].fields@.map_values(|f: Field| field_decl(f)) == class_fields(
                    fields0.subrange(0, ng - groups.len()),
                ),
                names_distinct(program.scopes@[s as int].fields@.map_values(|f: Field| field_decl(f))),
            decreases groups.len(),
        {
            let ghost gb = groups@;
            let ghost i = ng - groups.len();
            let g = groups.remove(0);
            proof {
                assert(gb[0] == g);
                assert(groups@ =~= gb.subrange(1, gb.len() as int));
                assert(fields0[i] == g);
                let pre = fields0.subrange(0, i + 1);
                assert(pre.drop_last() =~= fields0.subrange(0, i));
                assert(pre.last() == g);
                lemma_declare_all_concat(seq![], fields_declared(fields0.subrange(0, i)), group_decls(g));
            }
            add_field_group(&mut program.scopes[s].fields, g);
        }
        proof {
            assert(fields0.subrange(0, ng as int) =~= fields0);
        }
        let ghost decl = program.scopes@[s as int].fields@;
        // Functions.
        let ghost nf = functions.len();
        let mut fdefs = functions;
        while fdefs.len() > 0
            invariant
                program.wf(),
                s == p0.scopes@.len(),
                keeps(p0, *program, p0.types@.len() as int, s as int),
                s < program.scopes@.len(),
                program.scopes@[s as int].parent == Some(parent),
                program.scopes@[s as int].owner == Some(owner),
                program.scopes@[s as int].fields@ == decl,
                program.scopes@[s as int].types@.len() == 0,
                program.scopes@[s as int].predicates@.len() == 0,
                fdefs.len() <= nf,
                nf == functions0.len(),
                fdefs@ == functions0.subrange(nf - fdefs.len(), nf as int),
                program.scopes@[s as int].functions@.len() == nf - fdefs.len(),
                forall|k: int|
                    0 <= k < nf - fdefs.len() ==> #[trigger] program.scopes@[s as int].functions@[k].name
                        == functions0[k].name,
            decreases fdefs.len(),
        {
            let ghost fb = fdefs@;
            let ghost i = nf - fdefs.len();
            let d = fdefs.remove(0);
            proof {
                assert(fb[0] == d);
                assert(fdefs@ =~= fb.subrange(1, fb.len() as int));
                assert(functions0[i] == d);
            }
            let f = Function::new(program, s, d);
            program.scopes[s].functions.push(f);
        }
        // Nested classes.
        let ghost nc = classes.len();
        let mut cdefs = classes;
        while cdefs.len() > 0
            invariant
                program.wf(),
                s == p0.scopes@.len(),
                keeps(p0, *program, p0.types@.len() as int, s as int),
                s < program.scopes@.len(),
                program.scopes@[s as int].parent == Some(parent),
                program.scopes@[s as int].owner == Some(owner),
                program.scopes@[s as int].fields@ == decl,
                program.scopes@[s as int].functions@.len() == nf,
                forall|k: int| 0 <= k < nf ==> #[trigger] program.scopes@[s as int].functions@[k].name == functions0[k].name,
                program.scopes@[s as int].predicates@.len() == 0,
                cdefs.len() <= nc,
                nc == classes0.len(),
                cv == classes_view(classes0),
                classes0 == classes@,
                cdefs@ == classes0.subrange(nc - cdefs.len(), nc as int),
                program.scopes@[s as int].types@.len() == nc - cdefs.len(),
                forall|k: int|
                    0 <= k < nc - cdefs.len() ==> #[trigger] program.scopes@[s as int].types@[k].0 == classes0[k].name,
                forall|k: int|
                    0 <= k < nc - cdefs.len() ==> ({
                        let t = (#[trigger] program.scopes@[s as int].types@[k]).1;
                        &&& t.0 < program.types@.len()
                        &&& program.types@[t.0 as int] is Class
                        &&& program.types@[t.0 as int]->Class_0.name == classes0[k].name
                    }),
            decreases cdefs.len(),
        {
            let ghost cb = cdefs@;
            let ghost i = nc - cdefs.len();
            let d = cdefs.remove(0);
            proof {
                assert(cb[0] == d);
                assert(cdefs@ =~= cb.subrange(1, cb.len() as int));
                assert(classes0[i] == d);
                assert(cv[i] == class_view(d));
                assert(decreases_to!(cv => cv[i]));
            }
            let name = d.name.clone();
            let ghost pb = *program;
            let t = CommonClass::new(program, s, d, path);
            proof {
                assert forall|k: int| 0 <= k < i implies ({
                    let tt = (#[trigger] program.scopes@[s as int].types@[k]).1;
                    &&& tt.0 < program.types@.len()
                    &&& program.types@[tt.0 as int] is Class
                    &&& program.types@[tt.0 as int]->Class_0.name == classes0[k].name
                }) by {
                    assert(program.scopes@[s as int] == pb.scopes@[s as int]);
                    let tt = pb.scopes@[s as int].types@[k].1;
                    assert(program.types@[tt.0 as int] == pb.types@[tt.0 as int]);
                }
            }
            program.scopes[s].types.push((name, t));
        }
        // Predicates.
        let ghost np = predicates.len();
        let mut pdefs = predicates;
        while pdefs.len() > 0
            invariant
                program.wf(),
                s == p0.scopes@.len(),
                keeps(p0, *program, p0.types@.len() as int, s as int),
                s < program.scopes@.len(),
                program.scopes@[s as int].parent == Some(parent),
                program.scopes@[s as int].owner == Some(owner),
                program.scopes@[s as int].fields@ == decl,
                program.scopes@[s as int].functions@.len() == nf,
                forall|k: int| 0 <= k < nf ==> #[trigger] program.scopes@[s as int].functions@[k].name == functions0[k].name,
                program.scopes@[s as int].types@.len() == nc,
                forall|k: int| 0 <= k < nc ==> #[trigger] program.scopes@[s as int].types@[k].0 == classes0[k].name,
                pdefs.len() <= np,
                np == predicates0.len(),
                pdefs@ == predicates0.subrange(np - pdefs.len(), np as int),
                program.scopes@[s as int].predicates@.len() == np - pdefs.len(),
                forall|k: int|
                    0 <= k < np - pdefs.len() ==> #[trigger] program.scopes@[s as int].predicates@[k].0
                        == predicates0[k].name,
                forall|k: int|
                    0 <= k < nc ==> ({
                        let t = (#[trigger] program.scopes@[s as int].types@[k]).1;
                        &&& t.0 < program.types@.len()
                        &&& program.types@[t.0 as int] is Class
                        &&& program.types@[t.0 as int]->Class_0.name == classes0[k].name
                    }),
                forall|k: int|
                    0 <= k < np - pdefs.len() ==> ({
                        let t = (#[trigger] program.scopes@[s as int].predicates@[k]).1;
                        &&& t.0 < program.types@.len()
                        &&& program.types@[t.0 as int] is Predicate
                        &&& program.types@[t.0 as int]->Predicate_0.name == predicates0[k].name
                    }),
            decreases pdefs.len(),
        {
            let ghost pb = pdefs@;
            let ghost i = np - pdefs.len();
            let d = pdefs.remove(0);
            proof {
                assert(pb[0] == d);
                assert(pdefs@ =~= pb.subrange(1, pb.len() as int));
                assert(predicates0[i] == d);
            }
            let name = d.name.clone();
            let mut ppath = copy_path(path);
            ppath.push(d.name.clone());
            let pr = Predicate::new(program, s, d, ppath);
            let t = TypeId(program.types.len());
            program.types.push(Type::Predicate(pr));
            program.scopes[s].predicates.push((name, t));
        }
        s
    }
}

impl CommonClass {
    /// Makes a class from its definition, inside scope `parent`; `prefix` is
    /// the qualified name of the class it is nested in (empty at the top).
    /// A class without constructors gets one with no arguments and no body.
    #[verifier::rlimit(50)]
    pub fn new(program: &mut Program, parent: usize, def: ClassDef, prefix: &Vec<String>) -> (t: TypeId)
        requires
            old(program).wf(),
            parent < old(program).scopes@.len(),
        ensures
            t.0 == old(program).types@.len(),
            t.0 < final(program).types@.len(),
            final(program).wf(),
            keeps(*old(program), *final(program), old(program).types@.len() as int, old(program).scopes@.len() as int),
            final(program).types@[t.0 as int] is Class,
            ({
                let c = final(program).types@[t.0 as int]->Class_0;
                &&& c.name == def.name
                &&& path_view(c.path@) == path_view(prefix@).push(def.name@)
                &&& c.parents == def.parents
                &&& c.scope == old(program).scopes@.len()
                &&& c.scope < final(program).scopes@.len()
                &&& forall|k: int|
                    0 <= k < def.classes@.len() ==> (scope_type(
                        final(program).scopes@,
                        c.scope as int,
                        (#[trigger] def.classes@[k]).name@,
                    ) matches Some(nt) && nt.0 < final(program).types@.len() && final(program).types@[nt.0 as int] is Class)
                &&& forall|k: int|
                    0 <= k < def.predicates@.len() ==> (scope_predicate(
                        final(program).scopes@,
                        c.scope as int,
                        (#[trigger] def.predicates@[k]).name@,
                    ) matches Some(nt) && nt.0 < final(program).types@.len() && final(program).types@[nt.0 as int] is Predicate)
                &&& final(program).scopes@[c.scope as int].functions@.len() == def.functions@.len()
                &&& forall|k: int|
                    0 <= k < def.functions@.len() ==> #[trigger] final(program).scopes@[c.scope as int].functions@[k].name
                        == def.functions@[k].name
                &&& c.constructors@.len() == (if def.constructors@.len() == 0 { 1 } else { def.constructors@.len() })
                &&& final(program).scopes@[c.scope as int].parent == Some(parent)
                &&& final(program).scopes@[c.scope as int].owner == Some(t)
                &&& final(program).scopes@[c.scope as int].fields@.map_values(|f: Field| field_decl(f))
                    == class_fields(def.fields@)
                &&& names_distinct(final(program).scopes@[c.scope as int].fields@.map_values(|f: Field| field_decl(f)))
                &&& def.constructors@.len() == 0 ==> ({
                    &&& c.constructors@[0].args@.len() == 0
                    &&& c.constructors@[0].init@.len() == 0
                    &&& c.constructors@[0].statements@.len() == 0
                })
                &&& forall|k: int|
                    0 <= k < def.constructors@.len() ==> {
                        &&& (#[trigger] c.constructors@[k]).args == def.constructors@[k].args
                        &&& c.constructors@[k].init == def.constructors@[k].init
                        &&& c.constructors@[k].statements == def.constructors@[k].statements
                    }
            }),
        decreases class_view(def), 1nat,
    {
        let ghost dv = class_view(def);
        let ghost p0 = *program;
        let ghost d0 = def;
        let ClassDef { name, parents, fields, constructors, functions, predicates, classes } = def;
        let mut path = copy_path(prefix);
        let ghost pre = path@;
        path.push(name.clone());
        proof {
            assert(path_view(path@) =~= path_view(pre).push(name@));
        }
        let t = TypeId(program.types.len());
        let placeholder = CommonClass {
            name: name.clone(),
            path: copy_path(&path),
            scope: 0,
            parents: Vec::new(),
            constructors: Vec::new(),
        };
        program.types.push(Type::Class(placeholder));
        proof {
            assert(dv.classes == classes_view(classes@));
            assert(decreases_to!(dv => dv.classes));
        }
        let ghost classes0 = classes@;
        let ghost predicates0 = predicates@;
        let ghost functions0 = functions@;
        let scope = CommonScope::from_class(program, parent, t, &path, fields, functions, predicates, classes);
        let ghost p1 = *program;
        let mut ctor_defs = constructors;
        if ctor_defs.len() == 0 {
            ctor_defs.push(ConstructorDef { args: Vec::new(), init: Vec::new(), statements: Vec::new() });
        }
        let ghost nd = ctor_defs.len();
        let ghost defs0 = ctor_defs@;
        let mut ctors: Vec<Constructor> = Vec::new();
        while ctor_defs.len() > 0
            invariant
                program.wf(),
                keeps(p1, *program, p1.types@.len() as int, p1.scopes@.len() as int),
                scope < p1.scopes@.len(),
                t.0 < p1.types@.len(),
                ctor_defs.len() <= nd,
                nd == defs0.len(),
                ctor_defs@ == defs0.subrange(nd - ctor_defs.len(), nd as int),
                ctors@.len() == nd - ctor_defs.len(),
                forall|m: int|
                    0 <= m < ctors@.len() ==> {
                        &&& (#[trigger] ctors@[m]).args == defs0[m].args
                        &&& ctors@[m].init == defs0[m].init
                        &&& ctors@[m].statements == defs0[m].statements
                    },
            decreases ctor_defs.len(),
        {
            let ghost cb = ctor_defs@;
            let ghost i = nd - ctor_defs.len();
            let d = ctor_defs.remove(0);
            proof {
                assert(cb[0] == d);
                assert(ctor_defs@ =~= cb.subrange(1, cb.len() as int));
                assert(defs0[i] == d);
            }
            let c = Constructor::new(program, scope, d);
            ctors.push(c);
        }
        let ghost p2 = *program;
        program.types[t.0] = Type::Class(CommonClass { name, path, scope, parents, constructors: ctors });
        proof {
            assert(program.scopes == p2.scopes);
            assert(program.scopes@[scope as int] == p1.scopes@[scope as int]);
            assert forall|k: int| 0 <= k < classes0.len() implies (scope_type(
                program.scopes@,
                scope as int,
                (#[trigger] classes0[k]).name@,
            ) matches Some(nt) && nt.0 < program.types@.len() && program.types@[nt.0 as int] is Class) by {
                let v = program.scopes@[scope as int].types@;
                assert(v[k].0 == classes0[k].name);
                crate::execution::lemma_bound_in_tail(v, 0, k, classes0[k].name@);
                let j = choose|j: int| 0 <= j < v.len() && v[j].0@ == classes0[k].name@ && bound(v, classes0[k].name@) == Some(v[j].1);
                let nt = v[j].1;
                assert(p1.types@[nt.0 as int] is Class);
                if nt.0 != t.0 {
                    assert(program.types@[nt.0 as int] == p2.types@[nt.0 as int]);
                    assert(p2.types@[nt.0 as int] == p1.types@[nt.0 as int]);
                }
            }
            assert forall|k: int| 0 <= k < predicates0.len() implies (scope_predicate(
                program.scopes@,
                scope as int,
                (#[trigger] predicates0[k]).name@,
            ) matches Some(nt) && nt.0 < program.types@.len() && program.types@[nt.0 as int] is Predicate) by {
                let v = program.scopes@[scope as int].predicates@;
                assert(v[k].0 == predicates0[k].name);
                crate::execution::lemma_bound_in_tail(v, 0, k, predicates0[k].name@);
                let j = choose|j: int| 0 <= j < v.len() && v[j].0@ == predicates0[k].name@ && bound(v, predicates0[k].name@) == Some(v[j].1);
                let nt = v[j].1;
                assert(p1.types@[nt.0 as int] is Predicate);
                if nt.0 != t.0 {
                    assert(program.types@[nt.0 as int] == p2.types@[nt.0 as int]);
                    assert(p2.types@[nt.0 as int] == p1.types@[nt.0 as int]);
                } else {
                    assert(p1.types@[t.0 as int] is Class);
                }
            }
        }
        t
    }
}

impl CommonScope {
    /// Adds the functions, classes and predicates of a problem to scope `scope`;
    /// its statements are not looked at.
    #[verifier::rlimit(50)]
    pub fn add_problem(program: &mut Program, scope: usize, problem: ProblemDef)
        requires
            old(program).wf(),
            scope < old(program).scopes@.len(),
        ensures
            final(program).wf(),
            keeps(*old(program), *final(program), old(program).types@.len() as int, scope as int),
            forall|k: int|
                scope < k < old(program).scopes@.len() ==> #[trigger] final(program).scopes@[k] == old(program).scopes@[k],
            final(program).scopes@[scope as int].parent == old(program).scopes@[scope as int].parent,
            final(program).scopes@[scope as int].owner == old(program).scopes@[scope as int].owner,
            final(program).scopes@[scope as int].fields == old(program).scopes@[scope as int].fields,
            final(program).scopes@[scope as int].functions@.len() == old(program).scopes@[scope as int].functions@.len()
                + problem.functions@.len(),
            final(program).scopes@[scope as int].types@.len() == old(program).scopes@[scope as int].types@.len()
                + problem.classes@.len(),
            forall|k: int|
                0 <= k < problem.classes@.len() ==> #[trigger] final(program).scopes@[scope as int].types@[old(
                    program,
                ).scopes@[scope as int].types@.len() + k].0 == problem.classes@[k].name,
            final(program).scopes@[scope as int].predicates@.len() == old(program).scopes@[scope as int].predicates@.len()
                + problem.predicates@.len(),
            forall|k: int|
                0 <= k < problem.predicates@.len() ==> #[trigger] final(program).scopes@[scope as int].predicates@[old(
                    program,
                ).scopes@[scope as int].predicates@.len() + k].0 == problem.predicates@[k].name,
            forall|k: int|
                0 <= k < problem.functions@.len() ==> #[trigger] final(program).scopes@[scope as int].functions@[old(
                    program,
                ).scopes@[scope as int].functions@.len() + k].name == problem.functions@[k].name,
            forall|k: int|
                0 <= k < problem.functions@.len() ==> ({
                    let f = #[trigger] final(program).scopes@[scope as int].functions@[old(program).scopes@[scope as int].functions@.len()
                        + k];
                    &&& f.return_type == problem.functions@[k].return_type
                    &&& f.args == problem.functions@[k].args
                    &&& f.statements == problem.functions@[k].statements
                }),
            forall|k: int|
                0 <= k < problem.classes@.len() ==> ({
                    let t = (#[trigger] final(program).scopes@[scope as int].types@[old(program).scopes@[scope as int].types@.len()
                        + k]).1;
                    &&& t.0 < final(program).types@.len()
                    &&& final(program).types@[t.0 as int] is Class
                    &&& final(program).types@[t.0 as int]->Class_0.name == problem.classes@[k].name
                    &&& final(program).types@[t.0 as int]->Class_0.scope < final(program).scopes@.len()
                    &&& final(program).scopes@[final(program).types@[t.0 as int]->Class_0.scope as int].parent == Some(scope)
                }),
            forall|k: int|
                0 <= k < problem.predicates@.len() ==> ({
                    let t = (#[trigger] final(program).scopes@[scope as int].predicates@[old(program).scopes@[scope as int].predicates@.len()
                        + k]).1;
                    &&& t.0 < final(program).types@.len()
                    &&& final(program).types@[t.0 as int] is Predicate
                    &&& final(program).types@[t.0 as int]->Predicate_0.name == problem.predicates@[k].name
                }),
            forall|k: int|
                0 <= k < old(program).scopes@[scope as int].types@.len() ==> #[trigger] final(program).scopes@[scope as int].types@[k]
                    == old(program).scopes@[scope as int].types@[k],
            forall|k: int|
                0 <= k < old(program).scopes@[scope as int].functions@.len() ==> #[trigger] final(program).scopes@[scope as int].functions@[k]
                    == old(program).scopes@[scope as int].functions@[k],
            forall|k: int|
                0 <= k < old(program).scopes@[scope as int].predicates@.len() ==> #[trigger] final(program).scopes@[scope as int].predicates@[k]
                    == old(program).scopes@[scope as int].predicates@[k],
    {
        let ghost p0 = *program;
        let ghost s0 = program.scopes@[scope as int];
        let ProblemDef { functions, predicates, classes, statements: _ } = problem;
        let ghost classes0 = classes@;
        let ghost predicates0 = predicates@;
        let ghost nf = functions.len();
        let ghost functions0 = functions@;
        let mut fdefs = functions;
        while fdefs.len() > 0
            invariant
                program.wf(),
                scope < p0.scopes@.len(),
                keeps(p0, *program, p0.types@.len() as int, scope as int),
                forall|k: int| scope < k < p0.scopes@.len() ==> #[trigger] program.scopes@[k] == p0.scopes@[k],
                program.scopes@[scope as int].parent == s0.parent,
                program.scopes@[scope as int].owner == s0.owner,
                program.scopes@[scope as int].fields == s0.fields,
                program.scopes@[scope as int].types == s0.types,
                program.scopes@[scope as int].predicates == s0.predicates,
                fdefs.len() <= nf,
                nf == functions0.len(),
                fdefs@ == functions0.subrange(nf - fdefs.len(), nf as int),
                program.scopes@[scope as int].functions@.len() == s0.functions@.len() + nf - fdefs.len(),
                forall|k: int| 0 <= k < s0.functions@.len() ==> #[trigger] program.scopes@[scope as int].functions@[k] == s0.functions@[k],
                forall|k: int|
                    0 <= k < nf - fdefs.len() ==> #[trigger] program.scopes@[scope as int].functions@[s0.functions@.len() + k].name
                        == functions0[k].name,
                forall|k: int|
                    0 <= k < nf - fdefs.len() ==> ({
                        let f = #[trigger] program.scopes@[scope as int].functions@[s0.functions@.len() + k];
                        &&& f.return_type == functions0[k].return_type
                        &&& f.args == functions0[k].args
                        &&& f.statements == functions0[k].statements
                    }),
            decreases fdefs.len(),
        {
            let ghost fb = fdefs@;
            let ghost i = nf - fdefs.len();
            let d = fdefs.remove(0);
            proof {
                assert(fb[0] == d);
                assert(fdefs@ =~= fb.subrange(1, fb.len() as int));
                assert(functions0[i] == d);
            }
            let f = Function::new(program, scope, d);
            program.scopes[scope].functions.push(f);
        }
        let ghost funcs1 = program.scopes@[scope as int].functions;
        let ghost nc = classes.len();
        let empty: Vec<String> = Vec::new();
        let mut cdefs = classes;
        while cdefs.len() > 0
            invariant
                program.wf(),
                scope < p0.scopes@.len(),
                keeps(p0, *program, p0.types@.len() as int, scope as int),
                forall|k: int| scope < k < p0.scopes@.len() ==> #[trigger] program.scopes@[k] == p0.scopes@[k],
                program.scopes@[scope as int].parent == s0.parent,
                program.scopes@[scope as int].owner == s0.owner,
                program.scopes@[scope as int].fields == s0.fields,
                program.scopes@[scope as int].predicates == s0.predicates,
                program.scopes@[scope as int].functions@.len() == s0.functions@.len() + nf,
                program.scopes@[scope as int].functions == funcs1,
                forall|k: int| 0 <= k < s0.types@.len() ==> #[trigger] program.scopes@[scope as int].types@[k] == s0.types@[k],
                forall|k: int|
                    0 <= k < nc - cdefs.len() ==> ({
                        let t = (#[trigger] program.scopes@[scope as int].types@[s0.types@.len() + k]).1;
                        &&& t.0 < program.types@.len()
                        &&& program.types@[t.0 as int] is Class
                        &&& program.types@[t.0 as int]->Class_0.name == classes0[k].name
                        &&& scope < program.types@[t.0 as int]->Class_0.scope < program.scopes@.len()
                        &&& program.scopes@[program.types@[t.0 as int]->Class_0.scope as int].parent == Some(scope)
                    }),
                cdefs.len() <= nc,
                nc == classes0.len(),
                cdefs@ == classes0.subrange(nc - cdefs.len(), nc as int),
                program.scopes@[scope as int].types@.len() == s0.types@.len() + nc - cdefs.len(),
                forall|k: int|
                    0 <= k < nc - cdefs.len() ==> #[trigger] program.scopes@[scope as int].types@[s0.types@.len() + k].0
                        == classes0[k].name,
            decreases cdefs.len(),
        {
            let ghost cb = cdefs@;
            let ghost i = nc - cdefs.len();
            let d = cdefs.remove(0);
            proof {
                assert(cb[0] == d);
                assert(cdefs@ =~= cb.subrange(1, cb.len() as int));
                assert(classes0[i] == d);
            }
            let name = d.name.clone();
            let ghost pb = *program;
            let t = CommonClass::new(program, scope, d, &empty);
            proof {
                assert forall|k: int| 0 <= k < i implies ({
                    let tt = (#[trigger] program.scopes@[scope as int].types@[s0.types@.len() + k]).1;
                    &&& tt.0 < program.types@.len()
                    &&& program.types@[tt.0 as int] is Class
                    &&& program.types@[tt.0 as int]->Class_0.name == classes0[k].name
                    &&& scope < program.types@[tt.0 as int]->Class_0.scope < program.scopes@.len()
                    &&& program.scopes@[program.types@[tt.0 as int]->Class_0.scope as int].parent == Some(scope)
                }) by {
                    assert(program.scopes@[scope as int] == pb.scopes@[scope as int]);
                    let tt = pb.scopes@[scope as int].types@[s0.types@.len() + k].1;
                    assert(program.types@[tt.0 as int] == pb.types@[tt.0 as int]);
                    let cs = pb.types@[tt.0 as int]->Class_0.scope as int;
                    assert(program.scopes@[cs] == pb.scopes@[cs]);
                }
            }
            let ghost pa = *program;
            program.scopes[scope].types.push((name, t));
            proof {
                assert(program.scopes@ =~= pa.scopes@.update(scope as int, program.scopes@[scope as int]));
                assert forall|k: int| 0 <= k < i + 1 implies ({
                    let tt = (#[trigger] program.scopes@[scope as int].types@[s0.types@.len() + k]).1;
                    &&& tt.0 < program.types@.len()
                    &&& program.types@[tt.0 as int] is Class
                    &&& program.types@[tt.0 as int]->Class_0.name == classes0[k].name
                    &&& scope < program.types@[tt.0 as int]->Class_0.scope < program.scopes@.len()
                    &&& program.scopes@[program.types@[tt.0 as int]->Class_0.scope as int].parent == Some(scope)
                }) by {
                    assert(program.types == pa.types);
                    assert(program.scopes@.len() == pa.scopes@.len());
                    let tt = program.scopes@[scope as int].types@[s0.types@.len() + k].1;
                    if k < i {
                        assert(program.scopes@[scope as int].types@[s0.types@.len() + k] == pa.scopes@[scope as int].types@[s0.types@.len() + k]);
                        let pt = pa.scopes@[scope as int].types@[s0.types@.len() + k].1;
                        assert(scope < pa.types@[pt.0 as int]->Class_0.scope < pa.scopes@.len());
                    } else {
                        assert(program.scopes@[scope as int].types@[s0.types@.len() + k].1 == t);
                        assert(p0.scopes@.len() <= pb.scopes@.len());
                        assert(pa.types@[t.0 as int]->Class_0.scope == pb.scopes@.len());
                    }
                    let cs = program.types@[tt.0 as int]->Class_0.scope as int;
                    assert(cs != scope);
                    assert(program.scopes@[cs] == pa.scopes@[cs]);
                }
            }
        }
        let ghost np = predicates.len();
        let mut pdefs = predicates;
        while pdefs.len() > 0
            invariant
                program.wf(),
                scope < p0.scopes@.len(),
                keeps(p0, *program, p0.types@.len() as int, scope as int),
                forall|k: int| scope < k < p0.scopes@.len() ==> #[trigger] program.scopes@[k] == p0.scopes@[k],
                program.scopes@[scope as int].parent == s0.parent,
                program.scopes@[scope as int].owner == s0.owner,
                program.scopes@[scope as int].fields == s0.fields,
                program.scopes@[scope as int].functions@.len() == s0.functions@.len() + nf,
                program.scopes@[scope as int].types@.len() == s0.types@.len() + nc,
                forall|k: int|
                    0 <= k < nc ==> #[trigger] program.scopes@[scope as int].types@[s0.types@.len() + k].0 == classes0[k].name,
                program.scopes@[scope as int].functions == funcs1,
                forall|k: int| 0 <= k < s0.types@.len() ==> #[trigger] program.scopes@[scope as int].types@[k] == s0.types@[k],
                forall|k: int| 0 <= k < s0.predicates@.len() ==> #[trigger] program.scopes@[scope as int].predicates@[k] == s0.predicates@[k],
                forall|k: int|
                    0 <= k < nc ==> ({
                        let t = (#[trigger] program.scopes@[scope as int].types@[s0.types@.len() + k]).1;
                        &&& t.0 < program.types@.len()
                        &&& program.types@[t.0 as int] is Class
                        &&& program.types@[t.0 as int]->Class_0.name == classes0[k].name
                        &&& scope < program.types@[t.0 as int]->Class_0.scope < program.scopes@.len()
                        &&& program.scopes@[program.types@[t.0 as int]->Class_0.scope as int].parent == Some(scope)
                    }),
                pdefs.len() <= np,
                np == predicates0.len(),
                pdefs@ == predicates0.subrange(np - pdefs.len(), np as int),
                program.scopes@[scope as int].predicates@.len() == s0.predicates@.len() + np - pdefs.len(),
                forall|k: int|
                    0 <= k < np - pdefs.len() ==> #[trigger] program.scopes@[scope as int].predicates@[s0.predicates@.len()
                        + k].0 == predicates0[k].name,
                forall|k: int|
                    0 <= k < np - pdefs.len() ==> ({
                        let t = (#[trigger] program.scopes@[scope as int].predicates@[s0.predicates@.len() + k]).1;
                        &&& t.0 < program.types@.len()
                        &&& program.types@[t.0 as int] is Predicate
                        &&& program.types@[t.0 as int]->Predicate_0.name == predicates0[k].name
                    }),
            decreases pdefs.len(),
        {
            let ghost pb = pdefs@;
            let ghost i = np - pdefs.len();
            let d = pdefs.remove(0);
            proof {
                assert(pb[0] == d);
                assert(pdefs@ =~= pb.subrange(1, pb.len() as int));
                assert(predicates0[i] == d);
            }
            let name = d.name.clone();
            let mut ppath: Vec<String> = Vec::new();
            ppath.push(d.name.clone());
            let pr = Predicate::new(program, scope, d, ppath);
            let t = TypeId(program.types.len());
            program.types.push(Type::Predicate(pr));
            program.scopes[scope].predicates.push((name, t));
        }
    }
}

} // verus!

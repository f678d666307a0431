//! Types, classes, predicates, functions and scopes of a loaded problem, as
//! plain data; the core keeps them in tables and refers to them by index.
use crate::env::{AtomId, TypeId};
use crate::grammar::{name_bool, name_int, name_real, name_string};
use crate::language::{Expr, Name, Statement, opt_expr_view, path_view, stmts_view, typed_args_view};
use vstd::prelude::*;

verus! {

/// The built-in boolean type.
pub struct BoolType;

/// The built-in integer type.
pub struct IntType;

/// The built-in real type.
pub struct RealType;

/// The built-in string type.
pub struct StringType;

impl BoolType {
    /// Creates the built-in boolean type.
    pub fn new() -> Self {
        BoolType
    }

    pub fn name(&self) -> (r: &'static str)
        ensures
            r@ == name_bool(),
    {
        proof {
            reveal_strlit("bool");
        }
        "bool"
    }
}

impl IntType {
    /// Creates the built-in integer type.
    pub fn new() -> Self {
        IntType
    }

    pub fn name(&self) -> (r: &'static str)
        ensures
            r@ == name_int(),
    {
        proof {
            reveal_strlit("int");
        }
        "int"
    }
}

impl RealType {
    /// Creates the built-in real type.
    pub fn new() -> Self {
        RealType
    }

    pub fn name(&self) -> (r: &'static str)
        ensures
            r@ == name_real(),
    {
        proof {
            reveal_strlit("real");
        }
        "real"
    }
}

impl StringType {
    /// Creates the built-in string type.
    pub fn new() -> Self {
        StringType
    }

    pub fn name(&self) -> (r: &'static str)
        ensures
            r@ == name_string(),
    {
        proof {
            reveal_strlit("string");
        }
        "string"
    }
}

/// A field declaration: its name, the path of its type and its default value.
pub struct Field {
    pub name: String,
    pub field_type: Vec<String>,
    pub default: Option<Expr>,
}

impl Field {
    /// Creates a field descriptor.
    pub fn new(name: String, field_type: Vec<String>, default: Option<Expr>) -> (f: Self)
        ensures
            f.name@ == name@,
            path_view(f.field_type@) == path_view(field_type@),
            opt_expr_view(f.default) == opt_expr_view(default),
    {
        Field { name, field_type, default }
    }

    pub fn name(&self) -> (r: &String)
        ensures
            r@ == self.name@,
    {
        &self.name
    }

    pub fn field_type(&self) -> (r: &Vec<String>)
        ensures
            path_view(r@) == path_view(self.field_type@),
    {
        &self.field_type
    }

    pub fn default(&self) -> (r: &Option<Expr>)
        ensures
            opt_expr_view(*r) == opt_expr_view(self.default),
    {
        &self.default
    }
}

/// A constructor of a class: its scope (holding its arguments), its typed
/// arguments, the initialisers of parent classes and its body.
pub struct Constructor {
    pub scope: usize,
    pub args: Vec<(Vec<String>, String)>,
    pub init: Vec<(Vec<String>, Vec<Expr>)>,
    pub statements: Vec<Statement>,
}

impl Constructor {
    pub fn args(&self) -> (r: &Vec<(Vec<String>, String)>)
        ensures
            typed_args_view(r@) == typed_args_view(self.args@),
    {
        &self.args
    }

    pub fn statements(&self) -> (r: &Vec<Statement>)
        ensures
            stmts_view(r@) == stmts_view(self.statements@),
    {
        &self.statements
    }
}

/// A function: its scope (holding its arguments), name, return type (`None`
/// for `void`), typed arguments and body.
pub struct Function {
    pub scope: usize,
    pub name: String,
    pub return_type: Option<Vec<String>>,
    pub args: Vec<(Vec<String>, String)>,
    pub statements: Vec<Statement>,
}

impl Function {
    pub fn name(&self) -> (r: &String)
        ensures
            r@ == self.name@,
    {
        &self.name
    }

    pub fn return_type(&self) -> (r: &Option<Vec<String>>)
        ensures
            r == &self.return_type,
    {
        &self.return_type
    }

    pub fn args(&self) -> (r: &Vec<(Vec<String>, String)>)
        ensures
            typed_args_view(r@) == typed_args_view(self.args@),
    {
        &self.args
    }

    pub fn statements(&self) -> (r: &Vec<Statement>)
        ensures
            stmts_view(r@) == stmts_view(self.statements@),
    {
        &self.statements
    }
}

/// A class: its name, its qualified path (the names of the classes it is
/// nested in, then its own), the scope of its members, its parents and its
/// constructors.
pub struct CommonClass {
    pub name: String,
    pub path: Vec<String>,
    pub scope: usize,
    pub parents: Vec<Vec<String>>,
    pub constructors: Vec<Constructor>,
}

impl CommonClass {
    pub fn parents(&self) -> (r: &Vec<Vec<String>>)
        ensures
            r == &self.parents,
    {
        &self.parents
    }

    pub fn constructors(&self) -> (r: &Vec<Constructor>)
        ensures
            r == &self.constructors,
    {
        &self.constructors
    }
}

/// A predicate: its name, qualified path, scope (holding its arguments),
/// parents, typed arguments, body, and the atoms recorded for it.
pub struct Predicate {
    pub name: String,
    pub path: Vec<String>,
    pub scope: usize,
    pub parents: Vec<Vec<String>>,
    pub args: Vec<(Vec<String>, String)>,
    pub statements: Vec<Statement>,
    pub atoms: Vec<AtomId>,
}

impl Predicate {
    pub fn parents(&self) -> (r: &Vec<Vec<String>>)
        ensures
            r == &self.parents,
    {
        &self.parents
    }

    pub fn args(&self) -> (r: &Vec<(Vec<String>, String)>)
        ensures
            typed_args_view(r@) == typed_args_view(self.args@),
    {
        &self.args
    }

    pub fn statements(&self) -> (r: &Vec<Statement>)
        ensures
            stmts_view(r@) == stmts_view(self.statements@),
    {
        &self.statements
    }

    pub fn atoms(&self) -> (r: &Vec<AtomId>)
        ensures
            r@ == self.atoms@,
    {
        &self.atoms
    }
}

/// A type of the language.
pub enum Type {
    Bool(BoolType),
    Int(IntType),
    Real(RealType),
    String(StringType),
    Class(CommonClass),
    Predicate(Predicate),
}

pub open spec fn name_of_type(t: Type) -> Name {
    match t {
        Type::Bool(_) => name_bool(),
        Type::Int(_) => name_int(),
        Type::Real(_) => name_real(),
        Type::String(_) => name_string(),
        Type::Class(c) => c.name@,
        Type::Predicate(p) => p.name@,
    }
}

impl Type {
    /// The name the type is declared with.
    pub fn name(&self) -> (r: &str)
        ensures
            r@ == name_of_type(*self),
    {
        match self {
            Type::Bool(t) => t.name(),
            Type::Int(t) => t.name(),
            Type::Real(t) => t.name(),
            Type::String(t) => t.name(),
            Type::Class(c) => c.name.as_str(),
            Type::Predicate(p) => p.name.as_str(),
        }
    }
}

/// The declarations of a scope: its enclosing scope, the class or predicate
/// it belongs to, and its fields, functions, types and predicates. A name
/// declared again shadows the earlier declaration.
pub struct CommonScope {
    pub parent: Option<usize>,
    pub owner: Option<TypeId>,
    pub fields: Vec<Field>,
    pub functions: Vec<Function>,
    pub types: Vec<(String, TypeId)>,
    pub predicates: Vec<(String, TypeId)>,
}

impl CommonScope {
    /// Creates an empty scope inside `parent`.
    pub fn new(parent: Option<usize>, owner: Option<TypeId>) -> (s: Self)
        ensures
            s.parent == parent,
            s.owner == owner,
            s.fields@.len() == 0,
            s.functions@.len() == 0,
            s.types@.len() == 0,
            s.predicates@.len() == 0,
    {
        CommonScope {
            parent,
            owner,
            fields: Vec::new(),
            functions: Vec::new(),
            types: Vec::new(),
            predicates: Vec::new(),
        }
    }
}

/// The binding of `n` in a list of bindings: the last one made.
pub open spec fn bound<T>(v: Seq<(String, T)>, n: Name) -> Option<T>
    decreases v.len(),
{
    if v.len() == 0 {
        None
    } else if v.last().0@ == n {
        Some(v.last().1)
    } else {
        bound(v.drop_last(), n)
    }
}

/// Looks up the last binding of `name` in `v`.
pub fn find_bound<T: Copy>(v: &Vec<(String, T)>, name: &String) -> (r: Option<T>)
    ensures
        r == bound(v@, name@),
{
    let mut i: usize = v.len();
    proof {
        assert(v@.subrange(0, v@.len() as int) =~= v@);
    }
    while i > 0
        invariant
            i <= v.len(),
            bound(v@, name@) == bound(v@.subrange(0, i as int), name@),
        decreases i,
    {
        let ghost s = v@.subrange(0, i as int);
        proof {
            assert(s.drop_last() =~= v@.subrange(0, i - 1));
            assert(s.last() == v@[i - 1]);
        }
        if v[i - 1].0 == *name {
            return Some(v[i - 1].1);
        }
        i = i - 1;
    }
    None
}

} // verus!

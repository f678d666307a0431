use vstd::prelude::*;

verus! {

/// An expression of the RiDDLe language, as the parser builds it.
#[derive(Debug, PartialEq)]
pub enum Expr {
    Bool(bool),
    Int(String),
    Real(String, String),
    String(String),
    QualifiedId { ids: Vec<String> },
    Sum { terms: Vec<Expr> },
    Opposite { term: Box<Expr> },
    Not { term: Box<Expr> },
    Mul { factors: Vec<Expr> },
    Div { left: Box<Expr>, right: Box<Expr> },
    Function { name: Vec<String>, args: Vec<Expr> },
    Eq { left: Box<Expr>, right: Box<Expr> },
    Neq { left: Box<Expr>, right: Box<Expr> },
    Lt { left: Box<Expr>, right: Box<Expr> },
    Leq { left: Box<Expr>, right: Box<Expr> },
    Gt { left: Box<Expr>, right: Box<Expr> },
    Geq { left: Box<Expr>, right: Box<Expr> },
    Or { terms: Vec<Expr> },
    And { terms: Vec<Expr> },
    NewObject { class_name: Vec<String>, args: Vec<Expr> },
}

/// A statement of the RiDDLe language.
#[derive(Debug, PartialEq)]
pub enum Statement {
    Expr(Expr),
    LocalField { field_type: Vec<String>, fields: Vec<(String, Option<Expr>)> },
    Assign { name: Vec<String>, value: Expr },
    ForAll { var_type: Vec<String>, var_name: String, statements: Vec<Statement> },
    Disjunction { disjuncts: Vec<(Vec<Statement>, Expr)> },
    Formula { is_fact: bool, name: String, tau: Vec<String>, predicate_name: String, args: Vec<(String, Expr)> },
    Return { value: Expr },
}

/// A choice between blocks of statements, each with its cost, to be made in
/// scope `scope` and environment `env`.
pub struct Disjunction {
    pub scope: usize,
    pub env: usize,
    pub disjuncts: Vec<(Vec<Statement>, Expr)>,
}

/// A parsed constructor: typed arguments, parent initialisers and body.
#[derive(Debug, PartialEq)]
pub struct ConstructorDef {
    pub args: Vec<(Vec<String>, String)>,
    pub init: Vec<(Vec<String>, Vec<Expr>)>,
    pub statements: Vec<Statement>,
}

/// A parsed function: return type (`None` for `void`), name, typed arguments and body.
#[derive(Debug, PartialEq)]
pub struct FunctionDef {
    pub return_type: Option<Vec<String>>,
    pub name: String,
    pub args: Vec<(Vec<String>, String)>,
    pub statements: Vec<Statement>,
}

/// A parsed predicate: name, typed arguments, parent predicates and body.
#[derive(Debug, PartialEq)]
pub struct PredicateDef {
    pub name: String,
    pub args: Vec<(Vec<String>, String)>,
    pub parents: Vec<Vec<String>>,
    pub statements: Vec<Statement>,
}

/// A parsed class with its members.
#[derive(Debug, PartialEq)]
pub struct ClassDef {
    pub name: String,
    pub parents: Vec<Vec<String>>,
    pub fields: Vec<(Vec<String>, Vec<(String, Option<Expr>)>)>,
    pub constructors: Vec<ConstructorDef>,
    pub functions: Vec<FunctionDef>,
    pub predicates: Vec<PredicateDef>,
    pub classes: Vec<ClassDef>,
}

/// A parsed problem: top-level declarations and statements.
#[derive(Debug, PartialEq)]
pub struct ProblemDef {
    pub functions: Vec<FunctionDef>,
    pub predicates: Vec<PredicateDef>,
    pub classes: Vec<ClassDef>,
    pub statements: Vec<Statement>,
}

// ---------------------------------------------------------------------------
// Mathematical models of the syntax tree: strings become character sequences,
// vectors become sequences.
// ---------------------------------------------------------------------------

pub type Name = Seq<char>;

pub type Path = Seq<Seq<char>>;

pub enum SpecExpr {
    Bool(bool),
    Int(Name),
    Real(Name, Name),
    String(Name),
    QualifiedId { ids: Path },
    Sum { terms: Seq<SpecExpr> },
    Opposite { term: Box<SpecExpr> },
    Not { term: Box<SpecExpr> },
    Mul { factors: Seq<SpecExpr> },
    Div { left: Box<SpecExpr>, right: Box<SpecExpr> },
    Function { name: Path, args: Seq<SpecExpr> },
    Eq { left: Box<SpecExpr>, right: Box<SpecExpr> },
    Neq { left: Box<SpecExpr>, right: Box<SpecExpr> },
    Lt { left: Box<SpecExpr>, right: Box<SpecExpr> },
    Leq { left: Box<SpecExpr>, right: Box<SpecExpr> },
    Gt { left: Box<SpecExpr>, right: Box<SpecExpr> },
    Geq { left: Box<SpecExpr>, right: Box<SpecExpr> },
    Or { terms: Seq<SpecExpr> },
    And { terms: Seq<SpecExpr> },
    NewObject { class_name: Path, args: Seq<SpecExpr> },
}

pub enum SpecStatement {
    Expr(SpecExpr),
    LocalField { field_type: Path, fields: Seq<(Name, Option<SpecExpr>)> },
    Assign { name: Path, value: SpecExpr },
    ForAll { var_type: Path, var_name: Name, statements: Seq<SpecStatement> },
    Disjunction { disjuncts: Seq<(Seq<SpecStatement>, SpecExpr)> },
    Formula { is_fact: bool, name: Name, tau: Path, predicate_name: Name, args: Seq<(Name, SpecExpr)> },
    Return { value: SpecExpr },
}

pub struct SpecConstructorDef {
    pub args: Seq<(Path, Name)>,
    pub init: Seq<(Path, Seq<SpecExpr>)>,
    pub statements: Seq<SpecStatement>,
}

pub struct SpecFunctionDef {
    pub return_type: Option<Path>,
    pub name: Name,
    pub args: Seq<(Path, Name)>,
    pub statements: Seq<SpecStatement>,
}

pub struct SpecPredicateDef {
    pub name: Name,
    pub args: Seq<(Path, Name)>,
    pub parents: Seq<Path>,
    pub statements: Seq<SpecStatement>,
}

pub struct SpecClassDef {
    pub name: Name,
    pub parents: Seq<Path>,
    pub fields: Seq<(Path, Seq<(Name, Option<SpecExpr>)>)>,
    pub constructors: Seq<SpecConstructorDef>,
    pub functions: Seq<SpecFunctionDef>,
    pub predicates: Seq<SpecPredicateDef>,
    pub classes: Seq<SpecClassDef>,
}

pub struct SpecProblemDef {
    pub functions: Seq<SpecFunctionDef>,
    pub predicates: Seq<SpecPredicateDef>,
    pub classes: Seq<SpecClassDef>,
    pub statements: Seq<SpecStatement>,
}

pub open spec fn path_view(p: Seq<String>) -> Path {
    p.map_values(|s: String| s@)
}

pub open spec fn paths_view(p: Seq<Vec<String>>) -> Seq<Path> {
    p.map_values(|v: Vec<String>| path_view(v@))
}

pub open spec fn typed_args_view(a: Seq<(Vec<String>, String)>) -> Seq<(Path, Name)> {
    a.map_values(|x: (Vec<String>, String)| (path_view(x.0@), x.1@))
}

pub open spec fn expr_view(e: Expr) -> SpecExpr
    decreases e,
{
    match e {
        Expr::Bool(b) => SpecExpr::Bool(b),
        Expr::Int(s) => SpecExpr::Int(s@),
        Expr::Real(n, d) => SpecExpr::Real(n@, d@),
        Expr::String(s) => SpecExpr::String(s@),
        Expr::QualifiedId { ids } => SpecExpr::QualifiedId { ids: path_view(ids@) },
        Expr::Sum { terms } => SpecExpr::Sum { terms: exprs_view(terms@) },
        Expr::Opposite { term } => SpecExpr::Opposite { term: Box::new(expr_view(*term)) },
        Expr::Not { term } => SpecExpr::Not { term: Box::new(expr_view(*term)) },
        Expr::Mul { factors } => SpecExpr::Mul { factors: exprs_view(factors@) },
        Expr::Div { left, right } => SpecExpr::Div {
            left: Box::new(expr_view(*left)),
            right: Box::new(expr_view(*right)),
        },
        Expr::Function { name, args } => SpecExpr::Function {
            name: path_view(name@),
            args: exprs_view(args@),
        },
        Expr::Eq { left, right } => SpecExpr::Eq {
            left: Box::new(expr_view(*left)),
            right: Box::new(expr_view(*right)),
        },
        Expr::Neq { left, right } => SpecExpr::Neq {
            left: Box::new(expr_view(*left)),
            right: Box::new(expr_view(*right)),
        },
        Expr::Lt { left, right } => SpecExpr::Lt {
            left: Box::new(expr_view(*left)),
            right: Box::new(expr_view(*right)),
        },
        Expr::Leq { left, right } => SpecExpr::Leq {
            left: Box::new(expr_view(*left)),
            right: Box::new(expr_view(*right)),
        },
        Expr::Gt { left, right } => SpecExpr::Gt {
            left: Box::new(expr_view(*left)),
            right: Box::new(expr_view(*right)),
        },
        Expr::Geq { left, right } => SpecExpr::Geq {
            left: Box::new(expr_view(*left)),
            right: Box::new(expr_view(*right)),
        },
        Expr::Or { terms } => SpecExpr::Or { terms: exprs_view(terms@) },
        Expr::And { terms } => SpecExpr::And { terms: exprs_view(terms@) },
        Expr::NewObject { class_name, args } => SpecExpr::NewObject {
            class_name: path_view(class_name@),
            args: exprs_view(args@),
        },
    }
}

pub open spec fn exprs_view(s: Seq<Expr>) -> Seq<SpecExpr>
    decreases s,
{
    Seq::new(
        s.len(),
        |i: int|
            if 0 <= i < s.len() {
                expr_view(s[i])
            } else {
                SpecExpr::Bool(false)
            },
    )
}

impl View for Expr {
    type V = SpecExpr;

    open spec fn view(&self) -> SpecExpr {
        expr_view(*self)
    }
}

pub open spec fn opt_expr_view(e: Option<Expr>) -> Option<SpecExpr> {
    match e {
        Some(e) => Some(expr_view(e)),
        None => None,
    }
}

pub open spec fn inits_view(s: Seq<(String, Option<Expr>)>) -> Seq<(Name, Option<SpecExpr>)> {
    s.map_values(|x: (String, Option<Expr>)| (x.0@, opt_expr_view(x.1)))
}

pub open spec fn named_exprs_view(s: Seq<(String, Expr)>) -> Seq<(Name, SpecExpr)> {
    s.map_values(|x: (String, Expr)| (x.0@, expr_view(x.1)))
}

pub open spec fn stmt_view(s: Statement) -> SpecStatement
    decreases s,
{
    match s {
        Statement::Expr(e) => SpecStatement::Expr(expr_view(e)),
        Statement::LocalField { field_type, fields } => SpecStatement::LocalField {
            field_type: path_view(field_type@),
            fields: inits_view(fields@),
        },
        Statement::Assign { name, value } => SpecStatement::Assign {
            name: path_view(name@),
            value: expr_view(value),
        },
        Statement::ForAll { var_type, var_name, statements } => SpecStatement::ForAll {
            var_type: path_view(var_type@),
            var_name: var_name@,
            statements: stmts_view(statements@),
        },
        Statement::Disjunction { disjuncts } => SpecStatement::Disjunction {
            disjuncts: disjuncts_view(disjuncts@),
        },
        Statement::Formula { is_fact, name, tau, predicate_name, args } => SpecStatement::Formula {
            is_fact,
            name: name@,
            tau: path_view(tau@),
            predicate_name: predicate_name@,
            args: named_exprs_view(args@),
        },
        Statement::Return { value } => SpecStatement::Return { value: expr_view(value) },
    }
}

pub open spec fn stmts_view(s: Seq<Statement>) -> Seq<SpecStatement>
    decreases s,
{
    Seq::new(
        s.len(),
        |i: int|
            if 0 <= i < s.len() {
                stmt_view(s[i])
            } else {
                SpecStatement::Expr(SpecExpr::Bool(false))
            },
    )
}

pub open spec fn disjuncts_view(s: Seq<(Vec<Statement>, Expr)>) -> Seq<(Seq<SpecStatement>, SpecExpr)>
    decreases s,
{
    Seq::new(
        s.len(),
        |i: int|
            if 0 <= i < s.len() {
                (stmts_view(s[i].0@), expr_view(s[i].1))
            } else {
                (seq![], SpecExpr::Bool(false))
            },
    )
}

impl View for Statement {
    type V = SpecStatement;

    open spec fn view(&self) -> SpecStatement {
        stmt_view(*self)
    }
}

pub open spec fn exprs_list_view(s: Seq<(Vec<String>, Vec<Expr>)>) -> Seq<(Path, Seq<SpecExpr>)> {
    s.map_values(|x: (Vec<String>, Vec<Expr>)| (path_view(x.0@), exprs_view(x.1@)))
}

pub open spec fn constructor_view(c: ConstructorDef) -> SpecConstructorDef {
    SpecConstructorDef {
        args: typed_args_view(c.args@),
        init: exprs_list_view(c.init@),
        statements: stmts_view(c.statements@),
    }
}

pub open spec fn opt_path_view(p: Option<Vec<String>>) -> Option<Path> {
    match p {
        Some(v) => Some(path_view(v@)),
        None => None,
    }
}

pub open spec fn function_view(f: FunctionDef) -> SpecFunctionDef {
    SpecFunctionDef {
        return_type: opt_path_view(f.return_type),
        name: f.name@,
        args: typed_args_view(f.args@),
        statements: stmts_view(f.statements@),
    }
}

pub open spec fn predicate_view(p: PredicateDef) -> SpecPredicateDef {
    SpecPredicateDef {
        name: p.name@,
        args: typed_args_view(p.args@),
        parents: paths_view(p.parents@),
        statements: stmts_view(p.statements@),
    }
}

pub open spec fn field_groups_view(s: Seq<(Vec<String>, Vec<(String, Option<Expr>)>)>) -> Seq<
    (Path, Seq<(Name, Option<SpecExpr>)>),
> {
    s.map_values(|x: (Vec<String>, Vec<(String, Option<Expr>)>)| (path_view(x.0@), inits_view(x.1@)))
}

pub open spec fn class_view(c: ClassDef) -> SpecClassDef
    decreases c,
{
    SpecClassDef {
        name: c.name@,
        parents: paths_view(c.parents@),
        fields: field_groups_view(c.fields@),
        constructors: c.constructors@.map_values(|x: ConstructorDef| constructor_view(x)),
        functions: c.functions@.map_values(|x: FunctionDef| function_view(x)),
        predicates: c.predicates@.map_values(|x: PredicateDef| predicate_view(x)),
        classes: classes_view(c.classes@),
    }
}

pub open spec fn classes_view(s: Seq<ClassDef>) -> Seq<SpecClassDef>
    decreases s,
{
    Seq::new(
        s.len(),
        |i: int|
            if 0 <= i < s.len() {
                class_view(s[i])
            } else {
                SpecClassDef {
                    name: seq![],
                    parents: seq![],
                    fields: seq![],
                    constructors: seq![],
                    functions: seq![],
                    predicates: seq![],
                    classes: seq![],
                }
            },
    )
}

pub open spec fn problem_view(p: ProblemDef) -> SpecProblemDef {
    SpecProblemDef {
        functions: p.functions@.map_values(|x: FunctionDef| function_view(x)),
        predicates: p.predicates@.map_values(|x: PredicateDef| predicate_view(x)),
        classes: classes_view(p.classes@),
        statements: stmts_view(p.statements@),
    }
}

} // verus!

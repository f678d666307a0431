use vstd::prelude::*;

pub mod runtime;
pub mod declarations;
pub mod env;
pub mod execution;
pub mod grammar;
pub mod language;
pub mod lexer;
pub mod parser;
pub mod scope;
pub mod statements;
pub mod text;

use crate::grammar::{class_at, constructor_at, expr_at, function_at, predicate_at, problem_at, stmt_at};
use crate::language::{
    ClassDef, ConstructorDef, Expr, FunctionDef, PredicateDef, ProblemDef, Statement, class_view,
    constructor_view, function_view, predicate_view, problem_view,
};
use crate::lexer::{Lexer, tokenize_spec};
use crate::parser::Parser;

verus! {

/// The errors that reading or running a RiDDLe problem can give.
#[derive(Debug)]
pub enum RiddleError {
    NotAnEnvironment(String),
    NotAClass(String),
    NotAPredicate(String),
    TypeError(String),
    NotFound(String),
    InconsistencyError(String),
    RuntimeError(String),
}

/// Parses a whole problem: `Ok` exactly when the grammar accepts the items of
/// the text, with the declarations and statements it reads.
pub fn parse_problem(input: &str) -> (r: Result<ProblemDef, RiddleError>)
    requires
        input@.len() < usize::MAX,
    ensures
        match r {
            Ok(p) => problem_at(tokenize_spec(input@)).0 == Some(problem_view(p)),
            Err(_) => problem_at(tokenize_spec(input@)).0 is None,
        },
{
    Parser::new(Lexer::new(input)).parse_problem()
}

/// Parses a class declaration at the start of the text (what follows it is not read).
pub fn parse_class(input: &str) -> (r: Result<ClassDef, RiddleError>)
    requires
        input@.len() < usize::MAX,
    ensures
        match r {
            Ok(c) => class_at(tokenize_spec(input@)).0 == Some(class_view(c)),
            Err(_) => class_at(tokenize_spec(input@)).0 is None,
        },
{
    Parser::new(Lexer::new(input)).parse_class()
}

/// Parses a constructor declaration at the start of the text.
pub fn parse_constructor(input: &str) -> (r: Result<ConstructorDef, RiddleError>)
    requires
        input@.len() < usize::MAX,
    ensures
        match r {
            Ok(c) => constructor_at(tokenize_spec(input@)).0 == Some(constructor_view(c)),
            Err(_) => constructor_at(tokenize_spec(input@)).0 is None,
        },
{
    Parser::new(Lexer::new(input)).parse_constructor()
}

/// Parses a function declaration at the start of the text.
pub fn parse_function(input: &str) -> (r: Result<FunctionDef, RiddleError>)
    requires
        input@.len() < usize::MAX,
    ensures
        match r {
            Ok(f) => function_at(tokenize_spec(input@)).0 == Some(function_view(f)),
            Err(_) => function_at(tokenize_spec(input@)).0 is None,
        },
{
    Parser::new(Lexer::new(input)).parse_function()
}

/// Parses a predicate declaration at the start of the text.
pub fn parse_predicate(input: &str) -> (r: Result<PredicateDef, RiddleError>)
    requires
        input@.len() < usize::MAX,
    ensures
        match r {
            Ok(p) => predicate_at(tokenize_spec(input@)).0 == Some(predicate_view(p)),
            Err(_) => predicate_at(tokenize_spec(input@)).0 is None,
        },
{
    Parser::new(Lexer::new(input)).parse_predicate()
}

/// Parses a statement at the start of the text.
pub fn parse_statement(input: &str) -> (r: Result<Statement, RiddleError>)
    requires
        input@.len() < usize::MAX,
    ensures
        match r {
            Ok(s) => stmt_at(tokenize_spec(input@)).0 == Some(s@),
            Err(_) => stmt_at(tokenize_spec(input@)).0 is None,
        },
{
    Parser::new(Lexer::new(input)).parse_statement()
}

/// Parses an expression at the start of the text.
pub fn parse_expression(input: &str) -> (r: Result<Expr, RiddleError>)
    requires
        input@.len() < usize::MAX,
    ensures
        match r {
            Ok(e) => expr_at(tokenize_spec(input@)).0 == Some(e@),
            Err(_) => expr_at(tokenize_spec(input@)).0 is None,
        },
{
    Parser::new(Lexer::new(input)).parse_expression()
}

} // verus!

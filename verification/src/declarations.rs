//! Parsing of declarations (constructors, functions, predicates, classes) and
//! of whole problems, each function held to its grammar function.
use crate::grammar::{
    Items, arg_list_at, block_at, class_at, constructor_at, empty_class, empty_problem,
    field_group_at, function_at, init_list_at, is_function_at, is_type_token, members_at,
    opt_parents_at, parents_at, peek_at, predicate_at, problem_at, problem_items_at,
    scan_type_path_at, typed_args_at,
};
use crate::language::{
    ClassDef, ConstructorDef, Expr, FunctionDef, Name, Path, PredicateDef, ProblemDef, SpecClassDef,
    SpecConstructorDef, SpecExpr, SpecFunctionDef, SpecPredicateDef, SpecProblemDef, Statement,
    class_view, classes_view, constructor_view, exprs_list_view, exprs_view, field_groups_view,
    function_view, inits_view, path_view, paths_view, predicate_view, problem_view, stmts_view,
    typed_args_view,
};
use crate::lexer::{SpecToken, Token};
use crate::parser::{Parser, runtime_error};
use crate::statements::{single_name, stmts_push};
use crate::RiddleError;
use vstd::prelude::*;

verus! {

pub open spec fn typed_args_outcome(
    r: Result<Vec<(Vec<String>, String)>, RiddleError>,
    expected: (Option<Seq<(Path, Name)>>, Items),
    after: Items,
) -> bool {
    match r {
        Ok(v) => expected.0 == Some(typed_args_view(v@)) && after == expected.1,
        Err(_) => expected.0 is None,
    }
}

pub open spec fn paths_outcome(
    r: Result<Vec<Vec<String>>, RiddleError>,
    expected: (Option<Seq<Path>>, Items),
    after: Items,
) -> bool {
    match r {
        Ok(v) => expected.0 == Some(paths_view(v@)) && after == expected.1,
        Err(_) => expected.0 is None,
    }
}

pub open spec fn inits_list_outcome(
    r: Result<Vec<(Vec<String>, Vec<Expr>)>, RiddleError>,
    expected: (Option<Seq<(Path, Seq<SpecExpr>)>>, Items),
    after: Items,
) -> bool {
    match r {
        Ok(v) => expected.0 == Some(exprs_list_view(v@)) && after == expected.1,
        Err(_) => expected.0 is None,
    }
}

pub open spec fn block_outcome(
    r: Result<Vec<Statement>, RiddleError>,
    expected: (Option<Seq<crate::language::SpecStatement>>, Items),
    after: Items,
) -> bool {
    match r {
        Ok(v) => expected.0 == Some(stmts_view(v@)) && after == expected.1,
        Err(_) => expected.0 is None,
    }
}

pub open spec fn constructor_outcome(
    r: Result<ConstructorDef, RiddleError>,
    expected: (Option<SpecConstructorDef>, Items),
    after: Items,
) -> bool {
    match r {
        Ok(c) => expected.0 == Some(constructor_view(c)) && after == expected.1,
        Err(_) => expected.0 is None,
    }
}

pub open spec fn function_outcome(
    r: Result<FunctionDef, RiddleError>,
    expected: (Option<SpecFunctionDef>, Items),
    after: Items,
) -> bool {
    match r {
        Ok(f) => expected.0 == Some(function_view(f)) && after == expected.1,
        Err(_) => expected.0 is None,
    }
}

pub open spec fn predicate_outcome(
    r: Result<PredicateDef, RiddleError>,
    expected: (Option<SpecPredicateDef>, Items),
    after: Items,
) -> bool {
    match r {
        Ok(p) => expected.0 == Some(predicate_view(p)) && after == expected.1,
        Err(_) => expected.0 is None,
    }
}

pub open spec fn class_outcome(
    r: Result<ClassDef, RiddleError>,
    expected: (Option<SpecClassDef>, Items),
    after: Items,
) -> bool {
    match r {
        Ok(c) => expected.0 == Some(class_view(c)) && after == expected.1,
        Err(_) => expected.0 is None,
    }
}

pub open spec fn problem_outcome(
    r: Result<ProblemDef, RiddleError>,
    expected: (Option<SpecProblemDef>, Items),
    after: Items,
) -> bool {
    match r {
        Ok(p) => expected.0 == Some(problem_view(p)) && after == expected.1,
        Err(_) => expected.0 is None,
    }
}

fn typed_args_push(v: &mut Vec<(Vec<String>, String)>, ty: Vec<String>, n: String)
    ensures
        typed_args_view(final(v)@) == typed_args_view(old(v)@).push((path_view(ty@), n@)),
{
    let ghost t = path_view(ty@);
    v.push((ty, n));
    proof {
        assert(typed_args_view(v@) =~= typed_args_view(old(v)@).push((t, n@)));
    }
}

fn paths_push(v: &mut Vec<Vec<String>>, p: Vec<String>)
    ensures
        paths_view(final(v)@) == paths_view(old(v)@).push(path_view(p@)),
{
    let ghost t = path_view(p@);
    v.push(p);
    proof {
        assert(paths_view(v@) =~= paths_view(old(v)@).push(t));
    }
}

fn inits_list_push(v: &mut Vec<(Vec<String>, Vec<Expr>)>, p: Vec<String>, es: Vec<Expr>)
    ensures
        exprs_list_view(final(v)@) == exprs_list_view(old(v)@).push((path_view(p@), exprs_view(es@))),
{
    let ghost t = (path_view(p@), exprs_view(es@));
    v.push((p, es));
    proof {
        assert(exprs_list_view(v@) =~= exprs_list_view(old(v)@).push(t));
    }
}

fn class_push_field(c: &mut ClassDef, f: (Vec<String>, Vec<(String, Option<Expr>)>))
    ensures
        class_view(*final(c)) == (SpecClassDef {
            fields: class_view(*old(c)).fields.push((path_view(f.0@), inits_view(f.1@))),
            ..class_view(*old(c))
        }),
{
    let ghost t = (path_view(f.0@), inits_view(f.1@));
    c.fields.push(f);
    proof {
        assert(field_groups_view(c.fields@) =~= field_groups_view(old(c).fields@).push(t));
    }
}

fn class_push_constructor(c: &mut ClassDef, d: ConstructorDef)
    ensures
        class_view(*final(c)) == (SpecClassDef {
            constructors: class_view(*old(c)).constructors.push(constructor_view(d)),
            ..class_view(*old(c))
        }),
{
    let ghost t = constructor_view(d);
    c.constructors.push(d);
    proof {
        assert(c.constructors@.map_values(|x: ConstructorDef| constructor_view(x))
            =~= old(c).constructors@.map_values(|x: ConstructorDef| constructor_view(x)).push(t));
    }
}

fn class_push_function(c: &mut ClassDef, d: FunctionDef)
    ensures
        class_view(*final(c)) == (SpecClassDef {
            functions: class_view(*old(c)).functions.push(function_view(d)),
            ..class_view(*old(c))
        }),
{
    let ghost t = function_view(d);
    c.functions.push(d);
    proof {
        assert(c.functions@.map_values(|x: FunctionDef| function_view(x))
            =~= old(c).functions@.map_values(|x: FunctionDef| function_view(x)).push(t));
    }
}

fn class_push_predicate(c: &mut ClassDef, d: PredicateDef)
    ensures
        class_view(*final(c)) == (SpecClassDef {
            predicates: class_view(*old(c)).predicates.push(predicate_view(d)),
            ..class_view(*old(c))
        }),
{
    let ghost t = predicate_view(d);
    c.predicates.push(d);
    proof {
        assert(c.predicates@.map_values(|x: PredicateDef| predicate_view(x))
            =~= old(c).predicates@.map_values(|x: PredicateDef| predicate_view(x)).push(t));
    }
}

fn class_push_class(c: &mut ClassDef, d: ClassDef)
    ensures
        class_view(*final(c)) == (SpecClassDef {
            classes: class_view(*old(c)).classes.push(class_view(d)),
            ..class_view(*old(c))
        }),
{
    let ghost t = class_view(d);
    c.classes.push(d);
    proof {
        assert(classes_view(c.classes@) =~= classes_view(old(c).classes@).push(t));
    }
}

fn problem_push_class(p: &mut ProblemDef, d: ClassDef)
    ensures
        problem_view(*final(p)) == (SpecProblemDef {
            classes: problem_view(*old(p)).classes.push(class_view(d)),
            ..problem_view(*old(p))
        }),
{
    let ghost t = class_view(d);
    p.classes.push(d);
    proof {
        assert(classes_view(p.classes@) =~= classes_view(old(p).classes@).push(t));
    }
}

fn problem_push_predicate(p: &mut ProblemDef, d: PredicateDef)
    ensures
        problem_view(*final(p)) == (SpecProblemDef {
            predicates: problem_view(*old(p)).predicates.push(predicate_view(d)),
            ..problem_view(*old(p))
        }),
{
    let ghost t = predicate_view(d);
    p.predicates.push(d);
    proof {
        assert(p.predicates@.map_values(|x: PredicateDef| predicate_view(x))
            =~= old(p).predicates@.map_values(|x: PredicateDef| predicate_view(x)).push(t));
    }
}

fn problem_push_function(p: &mut ProblemDef, d: FunctionDef)
    ensures
        problem_view(*final(p)) == (SpecProblemDef {
            functions: problem_view(*old(p)).functions.push(function_view(d)),
            ..problem_view(*old(p))
        }),
{
    let ghost t = function_view(d);
    p.functions.push(d);
    proof {
        assert(p.functions@.map_values(|x: FunctionDef| function_view(x))
            =~= old(p).functions@.map_values(|x: FunctionDef| function_view(x)).push(t));
    }
}

fn problem_push_statement(p: &mut ProblemDef, d: Statement)
    ensures
        problem_view(*final(p)) == (SpecProblemDef {
            statements: problem_view(*old(p)).statements.push(d@),
            ..problem_view(*old(p))
        }),
{
    stmts_push(&mut p.statements, d);
}

impl Parser {
    /// Whether the `n`-th item ahead is a type keyword or a name (a `peek`).
    fn peek_is_type(&mut self, n: usize) -> (b: bool)
        ensures
            final(self)@ == peek_at(old(self)@, n as int).1,
            b == is_type_token(peek_at(old(self)@, n as int).0),
            final(self)@.len() <= old(self)@.len(),
            b ==> n < usize::MAX,
    {
        match self.peek(n) {
            Ok(Some((_, Token::Bool, _))) => true,
            Ok(Some((_, Token::Int, _))) => true,
            Ok(Some((_, Token::Real, _))) => true,
            Ok(Some((_, Token::String, _))) => true,
            Ok(Some((_, Token::Identifier(_), _))) => true,
            _ => false,
        }
    }

    /// Counts how far a dotted path of type names reaches from the next item.
    fn scan_type_path(&mut self) -> (la: usize)
        ensures
            scan_type_path_at(old(self)@, 0) == (la as int, final(self)@),
            final(self)@.len() <= old(self)@.len(),
    {
        let mut la: usize = 0;
        loop
            invariant_except_break
                scan_type_path_at(self@, la as int) == scan_type_path_at(old(self)@, 0),
            invariant
                self@.len() <= old(self)@.len(),
            ensures
                scan_type_path_at(old(self)@, 0) == (la as int, self@),
                self@.len() <= old(self)@.len(),
            decreases self@.len() - la,
        {
            proof {
                reveal_with_fuel(scan_type_path_at, 1);
                reveal(peek_at);
            }
            if !self.peek_is_type(la) {
                break;
            }
            la = la + 1;
            if self.peek_is(la, Token::Dot) {
                la = la + 1;
            } else {
                break;
            }
        }
        la
    }

    /// Whether a name and a `(` follow the `la` items of a type path (two `peek`s).
    fn is_function(&mut self, la: usize) -> (b: bool)
        ensures
            is_function_at(old(self)@, la as int) == (b, final(self)@),
            final(self)@.len() <= old(self)@.len(),
    {
        proof {
            reveal(is_function_at);
        }
        if self.peek_is_ident(la) {
            self.peek_is(la + 1, Token::LParen)
        } else {
            false
        }
    }

    /// Parses `(type name (',' type name)*)?` up to a `)`.
    fn parse_typed_args(&mut self, what: &str) -> (r: Result<Vec<(Vec<String>, String)>, RiddleError>)
        ensures
            typed_args_outcome(r, typed_args_at(old(self)@, seq![]), final(self)@),
            r is Ok ==> final(self)@.len() <= old(self)@.len(),
    {
        let mut args: Vec<(Vec<String>, String)> = Vec::new();
        proof {
            assert(typed_args_view(args@) =~= Seq::<(Path, Name)>::empty());
        }
        loop
            invariant_except_break
                typed_args_at(self@, typed_args_view(args@)) == typed_args_at(old(self)@, seq![]),
            invariant
                self@.len() <= old(self)@.len(),
            ensures
                typed_args_at(old(self)@, seq![]) == (Some(typed_args_view(args@)), self@),
                self@.len() <= old(self)@.len(),
            decreases self@.len(),
        {
            proof {
                reveal_with_fuel(typed_args_at, 1);
            }
            if self.peek_is(0, Token::RParen) {
                break;
            }
            let ty = self.parse_type("Expected identifier after '.' in type")?;
            let name = match self.next() {
                Ok(Some((_, Token::Identifier(name), _))) => name,
                _ => {
                    return Err(runtime_error(what));
                },
            };
            typed_args_push(&mut args, ty, name);
            if self.peek_is(0, Token::Comma) {
                self.expect(Token::Comma)?;
            } else {
                break;
            }
        }
        Ok(args)
    }

    /// Parses `'(' typed-args ')'`.
    fn parse_arg_list(&mut self, what: &str) -> (r: Result<Vec<(Vec<String>, String)>, RiddleError>)
        ensures
            typed_args_outcome(r, arg_list_at(old(self)@), final(self)@),
            r is Ok ==> final(self)@.len() < old(self)@.len(),
    {
        proof {
            reveal(arg_list_at);
        }
        self.expect(Token::LParen)?;
        let args = self.parse_typed_args(what)?;
        self.expect(Token::RParen)?;
        Ok(args)
    }

    /// Parses `path (',' path)*`.
    fn parse_parents(&mut self, what: &str, what_dot: &str) -> (r: Result<Vec<Vec<String>>, RiddleError>)
        ensures
            paths_outcome(r, parents_at(old(self)@, seq![]), final(self)@),
            r is Ok ==> final(self)@.len() < old(self)@.len(),
    {
        let mut parents: Vec<Vec<String>> = Vec::new();
        proof {
            assert(paths_view(parents@) =~= Seq::<Path>::empty());
        }
        loop
            invariant
                parents_at(self@, paths_view(parents@)) == parents_at(old(self)@, seq![]),
                self@.len() <= old(self)@.len(),
            decreases self@.len(),
        {
            proof {
                reveal_with_fuel(parents_at, 1);
            }
            let ids = match self.next() {
                Ok(Some((_, Token::Identifier(name), _))) => single_name(name),
                _ => {
                    return Err(runtime_error(what));
                },
            };
            let ids = self.dotted_tail(ids, what_dot)?;
            paths_push(&mut parents, ids);
            if self.peek_is(0, Token::Comma) {
                self.expect(Token::Comma)?;
            } else {
                return Ok(parents);
            }
        }
    }

    /// Parses `(':' parents)?`.
    fn parse_opt_parents(&mut self, what: &str, what_dot: &str) -> (r: Result<Vec<Vec<String>>, RiddleError>)
        ensures
            paths_outcome(r, opt_parents_at(old(self)@), final(self)@),
            r is Ok ==> final(self)@.len() <= old(self)@.len(),
    {
        proof {
            reveal(opt_parents_at);
        }
        if self.peek_is(0, Token::Colon) {
            self.expect(Token::Colon)?;
            self.parse_parents(what, what_dot)
        } else {
            let parents: Vec<Vec<String>> = Vec::new();
            proof {
                assert(paths_view(parents@) =~= Seq::<Path>::empty());
            }
            Ok(parents)
        }
    }

    /// Parses the initialisers of a constructor, after its `:`, up to a `{`.
    fn parse_init_list(&mut self) -> (r: Result<Vec<(Vec<String>, Vec<Expr>)>, RiddleError>)
        ensures
            inits_list_outcome(r, init_list_at(old(self)@, seq![]), final(self)@),
            r is Ok ==> final(self)@.len() <= old(self)@.len(),
    {
        let mut init: Vec<(Vec<String>, Vec<Expr>)> = Vec::new();
        proof {
            assert(exprs_list_view(init@) =~= Seq::<(Path, Seq<SpecExpr>)>::empty());
        }
        loop
            invariant_except_break
                init_list_at(self@, exprs_list_view(init@)) == init_list_at(old(self)@, seq![]),
            invariant
                self@.len() <= old(self)@.len(),
            ensures
                init_list_at(old(self)@, seq![]) == (Some(exprs_list_view(init@)), self@),
                self@.len() <= old(self)@.len(),
            decreases self@.len(),
        {
            proof {
                reveal_with_fuel(init_list_at, 1);
            }
            if self.peek_is(0, Token::LBrace) {
                break;
            }
            let ids = match self.next() {
                Ok(Some((_, Token::Identifier(name), _))) => single_name(name),
                _ => {
                    return Err(runtime_error("Unexpected token in constructor initialization"));
                },
            };
            let ids = self.dotted_tail(ids, "Expected identifier after '.' in constructor initialization")?;
            self.expect(Token::LParen)?;
            let exprs = self.parse_args()?;
            self.expect(Token::RParen)?;
            inits_list_push(&mut init, ids, exprs);
            if self.peek_is(0, Token::Comma) {
                self.expect(Token::Comma)?;
            } else {
                break;
            }
        }
        Ok(init)
    }

    /// Parses `'{' statements '}'`.
    fn parse_block(&mut self) -> (r: Result<Vec<Statement>, RiddleError>)
        ensures
            block_outcome(r, block_at(old(self)@), final(self)@),
            r is Ok ==> final(self)@.len() < old(self)@.len(),
    {
        proof {
            reveal(block_at);
        }
        self.expect(Token::LBrace)?;
        let statements = self.parse_statements()?;
        self.expect(Token::RBrace)?;
        Ok(statements)
    }

    /// Parses a constructor: `name '(' typed-args ')' (':' initialisers)? '{' statements '}'`.
    pub fn parse_constructor(&mut self) -> (r: Result<ConstructorDef, RiddleError>)
        ensures
            constructor_outcome(r, constructor_at(old(self)@), final(self)@),
            r is Ok ==> final(self)@.len() < old(self)@.len(),
    {
        proof {
            reveal(constructor_at);
        }
        match self.next() {
            Ok(Some((_, Token::Identifier(_), _))) => {},
            _ => {
                return Err(runtime_error("Expected constructor name"));
            },
        }
        let args = self.parse_arg_list("Expected identifier in constructor arguments")?;
        let init = if self.peek_is(0, Token::Colon) {
            self.expect(Token::Colon)?;
            self.parse_init_list()?
        } else {
            let init: Vec<(Vec<String>, Vec<Expr>)> = Vec::new();
            proof {
                assert(exprs_list_view(init@) =~= Seq::<(Path, Seq<SpecExpr>)>::empty());
            }
            init
        };
        let statements = self.parse_block()?;
        Ok(ConstructorDef { args, init, statements })
    }

    /// Parses a function: `(type | 'void') name '(' typed-args ')' '{' statements '}'`.
    pub fn parse_function(&mut self) -> (r: Result<FunctionDef, RiddleError>)
        ensures
            function_outcome(r, function_at(old(self)@), final(self)@),
            r is Ok ==> final(self)@.len() < old(self)@.len(),
    {
        proof {
            reveal(function_at);
        }
        let ghost r0 = self@;
        let kind: u8 = match self.peek(0) {
            Ok(Some((_, Token::Bool, _))) => 1,
            Ok(Some((_, Token::Int, _))) => 1,
            Ok(Some((_, Token::Real, _))) => 1,
            Ok(Some((_, Token::String, _))) => 1,
            Ok(Some((_, Token::Identifier(_), _))) => 1,
            Ok(Some((_, Token::Void, _))) => 2,
            _ => 0,
        };
        proof {
            let p = peek_at(r0, 0).0;
            assert((kind == 1) == is_type_token(p));
            assert((kind == 2) == (p == Some(SpecToken::Void)));
        }
        let return_type = if kind == 1 {
            Some(self.parse_type("Expected identifier after '.' in return type")?)
        } else if kind == 2 {
            self.expect(Token::Void)?;
            None
        } else {
            return Err(runtime_error("Expected return type or 'void'"));
        };
        let name = match self.next() {
            Ok(Some((_, Token::Identifier(name), _))) => name,
            _ => {
                return Err(runtime_error("Expected function name"));
            },
        };
        let args = self.parse_arg_list("Expected identifier in function arguments")?;
        let statements = self.parse_block()?;
        Ok(FunctionDef { return_type, name, args, statements })
    }

    /// Parses a predicate: `'predicate' name '(' typed-args ')' (':' parents)? '{' statements '}'`.
    pub fn parse_predicate(&mut self) -> (r: Result<PredicateDef, RiddleError>)
        ensures
            predicate_outcome(r, predicate_at(old(self)@), final(self)@),
            r is Ok ==> final(self)@.len() < old(self)@.len(),
    {
        proof {
            reveal(predicate_at);
        }
        self.expect(Token::Predicate)?;
        let name = match self.next() {
            Ok(Some((_, Token::Identifier(name), _))) => name,
            _ => {
                return Err(runtime_error("Expected identifier after 'predicate'"));
            },
        };
        let args = self.parse_arg_list("Expected identifier in predicate arguments")?;
        let parents = self.parse_opt_parents(
            "Expected parent predicate name",
            "Expected identifier after '.' in parent predicate name",
        )?;
        let statements = self.parse_block()?;
        Ok(PredicateDef { name, args, parents, statements })
    }

    /// Parses a group of fields: `type name init (',' name init)* ';'`.
    fn parse_field_group(&mut self) -> (r: Result<(Vec<String>, Vec<(String, Option<Expr>)>), RiddleError>)
        ensures
            match r {
                Ok(f) => field_group_at(old(self)@) == (
                    Some((path_view(f.0@), inits_view(f.1@))),
                    final(self)@,
                ),
                Err(_) => field_group_at(old(self)@).0 is None,
            },
            r is Ok ==> final(self)@.len() < old(self)@.len(),
    {
        proof {
            reveal(field_group_at);
        }
        let ty = self.parse_type("Expected identifier after '.' in type")?;
        let fields = self.parse_local_fields()?;
        Ok((ty, fields))
    }

    /// Parses a class: `'class' name (':' parents)? '{' member* '}'`.
    pub fn parse_class(&mut self) -> (r: Result<ClassDef, RiddleError>)
        ensures
            class_outcome(r, class_at(old(self)@), final(self)@),
            r is Ok ==> final(self)@.len() < old(self)@.len(),
        decreases old(self)@.len(), 0nat,
    {
        proof {
            reveal_with_fuel(class_at, 1);
            reveal_with_fuel(members_at, 1);
        }
        self.expect(Token::Class)?;
        let name = match self.next() {
            Ok(Some((_, Token::Identifier(name), _))) => name,
            _ => {
                return Err(runtime_error("Expected class name"));
            },
        };
        let parents = self.parse_opt_parents(
            "Expected parent class name",
            "Expected identifier after '.' in parent class name",
        )?;
        self.expect(Token::LBrace)?;
        let c = ClassDef {
            name,
            parents,
            fields: Vec::new(),
            constructors: Vec::new(),
            functions: Vec::new(),
            predicates: Vec::new(),
            classes: Vec::new(),
        };
        proof {
            assert(field_groups_view(c.fields@) =~= seq![]);
            assert(c.constructors@.map_values(|x: ConstructorDef| constructor_view(x)) =~= seq![]);
            assert(c.functions@.map_values(|x: FunctionDef| function_view(x)) =~= seq![]);
            assert(c.predicates@.map_values(|x: PredicateDef| predicate_view(x)) =~= seq![]);
            assert(classes_view(c.classes@) =~= seq![]);
            assert(class_view(c) == empty_class(c.name@, paths_view(c.parents@)));
        }
        self.parse_members(c)
    }

    /// Parses the members of a class up to its closing `}`, adding them to `c`.
    #[verifier::rlimit(50)]
    fn parse_members(&mut self, c: ClassDef) -> (r: Result<ClassDef, RiddleError>)
        ensures
            class_outcome(r, members_at(old(self)@, class_view(c)), final(self)@),
            r is Ok ==> final(self)@.len() < old(self)@.len(),
        decreases old(self)@.len(), 1nat,
    {
        let ghost c0 = class_view(c);
        let mut acc = c;
        loop
            invariant
                members_at(self@, class_view(acc)) == members_at(old(self)@, c0),
                c0 == class_view(c),
                class_view(acc).name == c0.name,
                acc.name@ == c0.name,
                self@.len() <= old(self)@.len(),
            decreases self@.len(),
        {
            proof {
                reveal_with_fuel(members_at, 1);
                reveal_with_fuel(class_at, 1);
            }
            let ghost r = self@;
            if self.peek_is(0, Token::RBrace) {
                self.expect(Token::RBrace)?;
                return Ok(acc);
            }
            let ghost r0 = self@;
            let kind: u8 = match self.peek(0) {
                Ok(Some((_, Token::Predicate, _))) => 1,
                Ok(Some((_, Token::Void, _))) => 2,
                Ok(Some((_, Token::Class, _))) => 3,
                _ => 0,
            };
            proof {
                let p = peek_at(r0, 0).0;
                assert((kind == 1) == (p == Some(SpecToken::Predicate)));
                assert((kind == 2) == (p == Some(SpecToken::Void)));
                assert((kind == 3) == (p == Some(SpecToken::Class)));
            }
            if kind == 3 {
                let d = self.parse_class()?;
                class_push_class(&mut acc, d);
            } else if kind == 1 {
                let d = self.parse_predicate()?;
                class_push_predicate(&mut acc, d);
            } else if kind == 2 {
                let d = self.parse_function()?;
                class_push_function(&mut acc, d);
            } else {
                let ghost r1 = self@;
                let la = self.scan_type_path();
                let ghost s1 = self@;
                let is_constructor = if la == 1 {
                    match self.peek(0) {
                        Ok(Some((_, Token::Identifier(id), _))) => *id == acc.name,
                        _ => false,
                    }
                } else {
                    false
                };
                proof {
                    if la == 1 {
                        let q = peek_at(s1, 0).0;
                        assert(is_constructor == (q == Some(SpecToken::Identifier(c0.name))));
                    }
                }
                if is_constructor {
                    let d = self.parse_constructor()?;
                    class_push_constructor(&mut acc, d);
                } else if self.is_function(la) {
                    let d = self.parse_function()?;
                    class_push_function(&mut acc, d);
                } else {
                    let d = self.parse_field_group()?;
                    class_push_field(&mut acc, d);
                }
            }
        }
    }

    /// Parses a problem: classes, predicates, functions and statements up to the
    /// end of the input.
    #[verifier::rlimit(50)]
    pub fn parse_problem(&mut self) -> (r: Result<ProblemDef, RiddleError>)
        ensures
            problem_outcome(r, problem_at(old(self)@), final(self)@),
    {
        let mut pd = ProblemDef {
            functions: Vec::new(),
            predicates: Vec::new(),
            classes: Vec::new(),
            statements: Vec::new(),
        };
        proof {
            assert(pd.functions@.map_values(|x: FunctionDef| function_view(x)) =~= seq![]);
            assert(pd.predicates@.map_values(|x: PredicateDef| predicate_view(x)) =~= seq![]);
            assert(classes_view(pd.classes@) =~= seq![]);
            assert(stmts_view(pd.statements@) =~= seq![]);
            assert(problem_view(pd) == empty_problem());
        }
        loop
            invariant
                problem_items_at(self@, problem_view(pd)) == problem_at(old(self)@),
            decreases self@.len(),
        {
            proof {
                reveal_with_fuel(problem_items_at, 1);
            }
            let ghost r0 = self@;
            let kind: u8 = match self.peek(0) {
                Ok(Some((_, Token::Class, _))) => 1,
                Ok(Some((_, Token::Predicate, _))) => 2,
                Ok(Some((_, Token::Void, _))) => 3,
                Ok(Some(_)) => 4,
                _ => 0,
            };
            proof {
                let p = peek_at(r0, 0).0;
                assert((kind == 0) == (p is None));
                assert((kind == 1) == (p == Some(SpecToken::Class)));
                assert((kind == 2) == (p == Some(SpecToken::Predicate)));
                assert((kind == 3) == (p == Some(SpecToken::Void)));
            }
            if kind == 0 {
                return Ok(pd);
            } else if kind == 1 {
                let d = self.parse_class()?;
                problem_push_class(&mut pd, d);
            } else if kind == 2 {
                let d = self.parse_predicate()?;
                problem_push_predicate(&mut pd, d);
            } else if kind == 3 {
                let d = self.parse_function()?;
                problem_push_function(&mut pd, d);
            } else {
                let la = self.scan_path();
                if self.is_function(la) {
                    let d = self.parse_function()?;
                    problem_push_function(&mut pd, d);
                } else {
                    let d = self.parse_statement()?;
                    problem_push_statement(&mut pd, d);
                }
            }
        }
    }
}

} // verus!

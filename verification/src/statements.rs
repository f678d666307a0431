//! Parsing of statements, each function held to its grammar function.
use crate::grammar::{
    Items, assign_at, builtin_local_at, builtin_type, cost_at, disj_at, disj_body_at,
    expr_stmt_at, fields_tail_at, for_at, formula_args_at,
    formula_at, init_at, lemma_dotted_tail_len, lemma_peek_then_next, local_fields_at,
    name_bool, name_int, name_real, name_string, peek_at, return_at,
    scan_path_at, stmt_at, stmt_list_at, type_name_at, typed_local_at,
};
use crate::language::{
    Expr, Name, Path, SpecExpr, SpecStatement, Statement, disjuncts_view, inits_view,
    named_exprs_view, opt_expr_view, path_view, stmts_view,
};
use crate::lexer::{SpecToken, Token};
use crate::parser::{
    Parser, builtin_path, lexer_error_message, push_name, runtime_error, unexpected_token_message,
};
use crate::RiddleError;
use vstd::prelude::*;

verus! {

/// The parse result `r`, leaving the parser at `after`, is what the grammar
/// function gave: the same statement and the same items left, or an error
/// exactly when the grammar gives none.
pub open spec fn stmt_outcome(
    r: Result<Statement, RiddleError>,
    expected: (Option<SpecStatement>, Items),
    after: Items,
) -> bool {
    match r {
        Ok(s) => expected.0 == Some(s@) && after == expected.1,
        Err(_) => expected.0 is None,
    }
}

pub open spec fn stmts_outcome(
    r: Result<Vec<Statement>, RiddleError>,
    expected: (Option<Seq<SpecStatement>>, Items),
    after: Items,
) -> bool {
    match r {
        Ok(v) => expected.0 == Some(stmts_view(v@)) && after == expected.1,
        Err(_) => expected.0 is None,
    }
}

pub open spec fn path_outcome(
    r: Result<Vec<String>, RiddleError>,
    expected: (Option<Path>, Items),
    after: Items,
) -> bool {
    match r {
        Ok(v) => expected.0 == Some(path_view(v@)) && after == expected.1,
        Err(_) => expected.0 is None,
    }
}

pub open spec fn init_outcome(
    r: Result<Option<Expr>, RiddleError>,
    expected: (Option<Option<SpecExpr>>, Items),
    after: Items,
) -> bool {
    match r {
        Ok(e) => expected.0 == Some(opt_expr_view(e)) && after == expected.1,
        Err(_) => expected.0 is None,
    }
}

pub open spec fn fields_outcome(
    r: Result<Vec<(String, Option<Expr>)>, RiddleError>,
    expected: (Option<Seq<(Name, Option<SpecExpr>)>>, Items),
    after: Items,
) -> bool {
    match r {
        Ok(v) => expected.0 == Some(inits_view(v@)) && after == expected.1,
        Err(_) => expected.0 is None,
    }
}

pub open spec fn named_outcome(
    r: Result<Vec<(String, Expr)>, RiddleError>,
    expected: (Option<Seq<(Name, SpecExpr)>>, Items),
    after: Items,
) -> bool {
    match r {
        Ok(v) => expected.0 == Some(named_exprs_view(v@)) && after == expected.1,
        Err(_) => expected.0 is None,
    }
}

pub open spec fn expr_result(r: Result<Expr, RiddleError>, expected: (Option<SpecExpr>, Items), after: Items) -> bool {
    match r {
        Ok(e) => expected.0 == Some(e@) && after == expected.1,
        Err(_) => expected.0 is None,
    }
}

pub(crate) fn single_name(s: String) -> (v: Vec<String>)
    ensures
        path_view(v@) == seq![s@],
{
    let mut v: Vec<String> = Vec::new();
    push_name(&mut v, s);
    proof {
        assert(path_view(v@) =~= seq![s@]);
    }
    v
}

/// The one-name path that a built-in type keyword stands for.
pub(crate) fn builtin_type_name(t: &Token) -> (r: Option<Vec<String>>)
    ensures
        r is Some <==> builtin_type(t@) is Some,
        r is Some ==> path_view(r->0@) == seq![builtin_type(t@)->0],
{
    match t {
        Token::Bool => {
            let p = builtin_path("bool");
            proof {
                reveal_strlit("bool");
                assert("bool"@ =~= name_bool());
            }
            Some(p)
        },
        Token::Int => {
            let p = builtin_path("int");
            proof {
                reveal_strlit("int");
                assert("int"@ =~= name_int());
            }
            Some(p)
        },
        Token::Real => {
            let p = builtin_path("real");
            proof {
                reveal_strlit("real");
                assert("real"@ =~= name_real());
            }
            Some(p)
        },
        Token::String => {
            let p = builtin_path("string");
            proof {
                reveal_strlit("string");
                assert("string"@ =~= name_string());
            }
            Some(p)
        },
        _ => None,
    }
}

pub(crate) fn stmts_push(v: &mut Vec<Statement>, s: Statement)
    ensures
        stmts_view(final(v)@) == stmts_view(old(v)@).push(s@),
{
    v.push(s);
    proof {
        assert(stmts_view(v@) =~= stmts_view(old(v)@).push(s@));
    }
}

fn inits_push(v: &mut Vec<(String, Option<Expr>)>, n: String, e: Option<Expr>)
    ensures
        inits_view(final(v)@) == inits_view(old(v)@).push((n@, opt_expr_view(e))),
{
    v.push((n, e));
    proof {
        assert(inits_view(v@) =~= inits_view(old(v)@).push((n@, opt_expr_view(e))));
    }
}

fn named_push(v: &mut Vec<(String, Expr)>, n: String, e: Expr)
    ensures
        named_exprs_view(final(v)@) == named_exprs_view(old(v)@).push((n@, e@)),
{
    v.push((n, e));
    proof {
        assert(named_exprs_view(v@) =~= named_exprs_view(old(v)@).push((n@, e@)));
    }
}

fn disjuncts_push(v: &mut Vec<(Vec<Statement>, Expr)>, ss: Vec<Statement>, c: Expr)
    ensures
        disjuncts_view(final(v)@) == disjuncts_view(old(v)@).push((stmts_view(ss@), c@)),
{
    let ghost sv = stmts_view(ss@);
    v.push((ss, c));
    proof {
        assert(disjuncts_view(v@) =~= disjuncts_view(old(v)@).push((sv, c@)));
    }
}

impl Parser {
    /// Parses a type: a built-in type keyword or a dotted path of names.
    pub(crate) fn parse_type(&mut self, what: &str) -> (r: Result<Vec<String>, RiddleError>)
        ensures
            path_outcome(r, type_name_at(old(self)@), final(self)@),
            r is Ok ==> final(self)@.len() < old(self)@.len(),
    {
        proof {
            reveal(type_name_at);
        }
        match self.next() {
            Ok(Some((_, Token::Identifier(name), _))) => {
                let ids = single_name(name);
                self.dotted_tail(ids, what)
            },
            Ok(Some((_, t, _))) => match builtin_type_name(&t) {
                Some(p) => Ok(p),
                None => Err(RiddleError::RuntimeError(unexpected_token_message("Unexpected token in type: ", &t))),
            },
            Ok(None) => Err(runtime_error("Unexpected end of input while parsing type")),
            Err(e) => Err(RiddleError::RuntimeError(lexer_error_message(&e))),
        }
    }

    /// Parses an optional `= expression`.
    fn parse_init(&mut self) -> (r: Result<Option<Expr>, RiddleError>)
        ensures
            init_outcome(r, init_at(old(self)@), final(self)@),
            r is Ok ==> final(self)@.len() <= old(self)@.len(),
    {
        proof {
            reveal(init_at);
        }
        if self.peek_is(0, Token::Equal) {
            self.expect(Token::Equal)?;
            let e = self.parse_expression()?;
            Ok(Some(e))
        } else {
            Ok(None)
        }
    }

    /// Parses `(',' name init)*` after the fields read so far.
    fn parse_fields_tail(&mut self, fields: Vec<(String, Option<Expr>)>) -> (r: Result<
        Vec<(String, Option<Expr>)>,
        RiddleError,
    >)
        ensures
            fields_outcome(r, fields_tail_at(old(self)@, inits_view(fields@)), final(self)@),
            r is Ok ==> final(self)@.len() <= old(self)@.len(),
    {
        let ghost f0 = inits_view(fields@);
        let mut acc = fields;
        loop
            invariant_except_break
                fields_tail_at(self@, inits_view(acc@)) == fields_tail_at(old(self)@, f0),
            invariant
                self@.len() <= old(self)@.len(),
                f0 == inits_view(fields@),
            ensures
                fields_tail_at(old(self)@, f0) == (Some(inits_view(acc@)), self@),
                self@.len() <= old(self)@.len(),
                f0 == inits_view(fields@),
            decreases self@.len(),
        {
            proof {
                reveal_with_fuel(fields_tail_at, 1);
            }
            if !self.peek_is(0, Token::Comma) {
                break;
            }
            self.expect(Token::Comma)?;
            let name = match self.next() {
                Ok(Some((_, Token::Identifier(name), _))) => name,
                _ => {
                    return Err(runtime_error("Expected variable name"));
                },
            };
            let init = self.parse_init()?;
            inits_push(&mut acc, name, init);
        }
        Ok(acc)
    }

    /// Parses `name init (',' name init)* ';'`.
    pub(crate) fn parse_local_fields(&mut self) -> (r: Result<Vec<(String, Option<Expr>)>, RiddleError>)
        ensures
            fields_outcome(r, local_fields_at(old(self)@), final(self)@),
            r is Ok ==> final(self)@.len() < old(self)@.len(),
    {
        proof {
            reveal(local_fields_at);
        }
        let name = match self.next() {
            Ok(Some((_, Token::Identifier(name), _))) => name,
            _ => {
                return Err(runtime_error("Expected variable name"));
            },
        };
        let init = self.parse_init()?;
        let mut fields: Vec<(String, Option<Expr>)> = Vec::new();
        inits_push(&mut fields, name, init);
        proof {
            assert(inits_view(fields@) =~= seq![(name@, opt_expr_view(init))]);
        }
        let fields = self.parse_fields_tail(fields)?;
        self.expect(Token::Semicolon)?;
        Ok(fields)
    }

    /// Parses statements up to (not including) a `}`.
    pub(crate) fn parse_statements(&mut self) -> (r: Result<Vec<Statement>, RiddleError>)
        ensures
            stmts_outcome(r, stmt_list_at(old(self)@, seq![]), final(self)@),
            r is Ok ==> final(self)@.len() <= old(self)@.len(),
        decreases old(self)@.len(), 17nat,
    {
        let mut stmts: Vec<Statement> = Vec::new();
        proof {
            assert(stmts_view(stmts@) =~= Seq::<SpecStatement>::empty());
        }
        loop
            invariant_except_break
                stmt_list_at(self@, stmts_view(stmts@)) == stmt_list_at(old(self)@, seq![]),
            invariant
                self@.len() <= old(self)@.len(),
            ensures
                stmt_list_at(old(self)@, seq![]) == (Some(stmts_view(stmts@)), self@),
                self@.len() <= old(self)@.len(),
            decreases self@.len(),
        {
            proof {
                reveal_with_fuel(stmt_list_at, 1);
                reveal_with_fuel(stmt_at, 1);
            }
            if self.peek_is(0, Token::RBrace) {
                break;
            }
            let s = self.parse_statement()?;
            stmts_push(&mut stmts, s);
        }
        Ok(stmts)
    }

    /// Parses a statement.
    #[verifier::rlimit(50)]
    pub fn parse_statement(&mut self) -> (r: Result<Statement, RiddleError>)
        ensures
            stmt_outcome(r, stmt_at(old(self)@), final(self)@),
            r is Ok ==> final(self)@.len() < old(self)@.len(),
        decreases old(self)@.len(), 16nat,
    {
        proof {
            reveal_with_fuel(stmt_at, 1);
            reveal_with_fuel(disj_at, 1);
            reveal_with_fuel(for_at, 1);
        }
        let ghost r0 = self@;
        let kind: u8 = match self.peek(0) {
            Ok(Some((_, Token::Bool, _))) => 1,
            Ok(Some((_, Token::Int, _))) => 1,
            Ok(Some((_, Token::Real, _))) => 1,
            Ok(Some((_, Token::String, _))) => 1,
            Ok(Some((_, Token::Identifier(_), _))) => 2,
            Ok(Some((_, Token::LBrace, _))) => 3,
            Ok(Some((_, Token::For, _))) => 4,
            Ok(Some((_, Token::Return, _))) => 5,
            Ok(Some((_, Token::Fact, _))) => 6,
            Ok(Some((_, Token::Goal, _))) => 6,
            _ => 0,
        };
        let ghost p = peek_at(r0, 0).0;
        proof {
            assert((kind == 1) == (p is Some && builtin_type(p->0) is Some));
            assert((kind == 2) == (p matches Some(SpecToken::Identifier(_))));
            assert((kind == 3) == (p == Some(SpecToken::LBrace)));
            assert((kind == 4) == (p == Some(SpecToken::For)));
            assert((kind == 5) == (p == Some(SpecToken::Return)));
            assert((kind == 6) == (p == Some(SpecToken::Fact) || p == Some(SpecToken::Goal)));
        }
        if kind == 1 {
            proof {
                lemma_peek_then_next(r0);
            }
            let t = self.next();
            let ty = match t {
                Ok(Some((_, t, _))) => builtin_type_name(&t),
                _ => None,
            };
            match ty {
                Some(ty) => {
                    proof {
                        reveal(builtin_local_at);
                    }
                    let fields = self.parse_local_fields()?;
                    Ok(Statement::LocalField { field_type: ty, fields })
                },
                None => Err(runtime_error("Expected a type")),
            }
        } else if kind == 2 {
            let ghost r1 = self@;
            let la = self.scan_path();
            let ghost r2 = self@;
            let q: u8 = match self.peek(la) {
                Ok(Some((_, Token::Equal, _))) => 1,
                Ok(Some((_, Token::Identifier(_), _))) => 2,
                _ => 0,
            };
            proof {
                let qq = peek_at(r2, la as int).0;
                assert((q == 1) == (qq == Some(SpecToken::Equal)));
                assert((q == 2) == (qq matches Some(SpecToken::Identifier(_))));
            }
            if q == 1 {
                self.parse_assign()
            } else if q == 2 {
                self.parse_typed_local()
            } else {
                self.parse_expr_statement()
            }
        } else if kind == 3 {
            self.parse_disjunction()
        } else if kind == 4 {
            self.parse_for()
        } else if kind == 5 {
            self.parse_return()
        } else if kind == 6 {
            self.parse_formula()
        } else {
            self.parse_expr_statement()
        }
    }

    /// Counts how far a dotted path of names reaches from the next item.
    pub(crate) fn scan_path(&mut self) -> (la: usize)
        ensures
            scan_path_at(old(self)@, 0) == (la as int, final(self)@),
            final(self)@.len() <= old(self)@.len(),
    {
        let mut la: usize = 0;
        loop
            invariant_except_break
                scan_path_at(self@, la as int) == scan_path_at(old(self)@, 0),
            invariant
                self@.len() <= old(self)@.len(),
            ensures
                scan_path_at(old(self)@, 0) == (la as int, self@),
                self@.len() <= old(self)@.len(),
            decreases self@.len() - la,
        {
            proof {
                reveal_with_fuel(scan_path_at, 1);
                reveal(peek_at);
            }
            let ghost r = self@;
            if !self.peek_is_ident(la) {
                break;
            }
            la = la + 1;
            let ghost r1 = self@;
            if self.peek_is(la, Token::Dot) {
                la = la + 1;
            } else {
                break;
            }
        }
        la
    }

    /// Parses `path '=' expression ';'`.
    fn parse_assign(&mut self) -> (r: Result<Statement, RiddleError>)
        ensures
            stmt_outcome(r, assign_at(old(self)@), final(self)@),
            r is Ok ==> final(self)@.len() < old(self)@.len(),
    {
        proof {
            reveal(assign_at);
        }
        let ids = match self.next() {
            Ok(Some((_, Token::Identifier(name), _))) => single_name(name),
            _ => {
                return Err(runtime_error("Expected identifier"));
            },
        };
        let ids = self.dotted_tail(ids, "Expected identifier after '.'")?;
        self.expect(Token::Equal)?;
        let value = self.parse_expression()?;
        self.expect(Token::Semicolon)?;
        Ok(Statement::Assign { name: ids, value })
    }

    /// Parses `path name init (',' name init)* ';'`.
    fn parse_typed_local(&mut self) -> (r: Result<Statement, RiddleError>)
        ensures
            stmt_outcome(r, typed_local_at(old(self)@), final(self)@),
            r is Ok ==> final(self)@.len() < old(self)@.len(),
    {
        proof {
            reveal(typed_local_at);
        }
        let ids = match self.next() {
            Ok(Some((_, Token::Identifier(name), _))) => single_name(name),
            _ => {
                return Err(runtime_error("Expected identifier"));
            },
        };
        let ids = self.dotted_tail(ids, "Expected identifier after '.'")?;
        let fields = self.parse_local_fields()?;
        Ok(Statement::LocalField { field_type: ids, fields })
    }

    /// Parses `expression ';'`.
    fn parse_expr_statement(&mut self) -> (r: Result<Statement, RiddleError>)
        ensures
            stmt_outcome(r, expr_stmt_at(old(self)@), final(self)@),
            r is Ok ==> final(self)@.len() < old(self)@.len(),
    {
        proof {
            reveal(expr_stmt_at);
        }
        let expr = self.parse_expression()?;
        self.expect(Token::Semicolon)?;
        Ok(Statement::Expr(expr))
    }

    /// Parses `'return' expression ';'`.
    fn parse_return(&mut self) -> (r: Result<Statement, RiddleError>)
        ensures
            stmt_outcome(r, return_at(old(self)@), final(self)@),
            r is Ok ==> final(self)@.len() < old(self)@.len(),
    {
        proof {
            reveal(return_at);
        }
        self.expect(Token::Return)?;
        let value = self.parse_expression()?;
        self.expect(Token::Semicolon)?;
        Ok(Statement::Return { value })
    }

    /// Parses `(name ':' expression (',' name ':' expression)*)?` up to a `)`.
    fn parse_formula_args(&mut self) -> (r: Result<Vec<(String, Expr)>, RiddleError>)
        ensures
            named_outcome(r, formula_args_at(old(self)@, seq![]), final(self)@),
            r is Ok ==> final(self)@.len() <= old(self)@.len(),
    {
        let mut args: Vec<(String, Expr)> = Vec::new();
        proof {
            assert(named_exprs_view(args@) =~= Seq::<(Name, SpecExpr)>::empty());
        }
        loop
            invariant_except_break
                formula_args_at(self@, named_exprs_view(args@)) == formula_args_at(old(self)@, seq![]),
            invariant
                self@.len() <= old(self)@.len(),
            ensures
                formula_args_at(old(self)@, seq![]) == (Some(named_exprs_view(args@)), self@),
                self@.len() <= old(self)@.len(),
            decreases self@.len(),
        {
            proof {
                reveal_with_fuel(formula_args_at, 1);
            }
            if self.peek_is(0, Token::RParen) {
                break;
            }
            let name = match self.next() {
                Ok(Some((_, Token::Identifier(name), _))) => name,
                _ => {
                    return Err(runtime_error("Expected identifier in formula arguments"));
                },
            };
            self.expect(Token::Colon)?;
            let e = self.parse_expression()?;
            named_push(&mut args, name, e);
            if self.peek_is(0, Token::Comma) {
                self.expect(Token::Comma)?;
            } else {
                break;
            }
        }
        Ok(args)
    }

    /// Parses `('fact' | 'goal') name '=' 'new' path '(' formula-args ')' ';'`.
    #[verifier::rlimit(30)]
    fn parse_formula(&mut self) -> (r: Result<Statement, RiddleError>)
        ensures
            stmt_outcome(r, formula_at(old(self)@), final(self)@),
            r is Ok ==> final(self)@.len() < old(self)@.len(),
    {
        proof {
            reveal(formula_at);
        }
        let is_fact = match self.next() {
            Ok(Some((_, Token::Fact, _))) => true,
            _ => false,
        };
        let name = match self.next() {
            Ok(Some((_, Token::Identifier(name), _))) => name,
            _ => {
                return Err(runtime_error("Expected identifier after 'fact' or 'goal'"));
            },
        };
        self.expect(Token::Equal)?;
        self.expect(Token::New)?;
        let ids = match self.next() {
            Ok(Some((_, Token::Identifier(name), _))) => single_name(name),
            _ => {
                return Err(runtime_error("Expected identifier after 'new'"));
            },
        };
        let ghost r5 = self@;
        let ghost ids0 = path_view(ids@);
        let path = match self.dotted_tail(ids, "Expected identifier after '.'") {
            Ok(p) => p,
            Err(_) => {
                return Err(RiddleError::TypeError("Expected identifier after '.'".to_owned()));
            },
        };
        proof {
            lemma_dotted_tail_len(r5, ids0);
        }
        let ghost full = path_view(path@);
        let mut tau = path;
        let predicate_name = match tau.pop() {
            Some(n) => n,
            None => {
                return Err(runtime_error("Predicate name cannot be empty"));
            },
        };
        proof {
            assert(path_view(tau@) =~= full.drop_last());
        }
        self.expect(Token::LParen)?;
        let args = self.parse_formula_args()?;
        self.expect(Token::RParen)?;
        self.expect(Token::Semicolon)?;
        Ok(Statement::Formula { is_fact, name, tau, predicate_name, args })
    }

    /// Parses an optional cost `'[' expression ']'`; the cost is `1` without one.
    fn parse_cost(&mut self) -> (r: Result<Expr, RiddleError>)
        ensures
            expr_result(r, cost_at(old(self)@), final(self)@),
            r is Ok ==> final(self)@.len() <= old(self)@.len(),
    {
        proof {
            reveal(cost_at);
        }
        if self.peek_is(0, Token::LBracket) {
            self.expect(Token::LBracket)?;
            let cost = self.parse_expression()?;
            self.expect(Token::RBracket)?;
            Ok(cost)
        } else {
            let one = "1".to_owned();
            proof {
                reveal_strlit("1");
                assert(one@ =~= seq!['1']);
            }
            Ok(Expr::Int(one))
        }
    }

    /// Parses a disjunction, `'{' statements '}' cost? ('or' '{' statements '}' cost?)*`.
    fn parse_disjunction(&mut self) -> (r: Result<Statement, RiddleError>)
        ensures
            stmt_outcome(r, disj_at(old(self)@), final(self)@),
            r is Ok ==> final(self)@.len() < old(self)@.len(),
        decreases old(self)@.len(), 15nat,
    {
        proof {
            reveal_with_fuel(disj_at, 1);
            reveal_with_fuel(disj_body_at, 1);
        }
        self.expect(Token::LBrace)?;
        self.parse_disjuncts()
    }

    /// Parses the branches of a disjunction after its first `{`.
    fn parse_disjuncts(&mut self) -> (r: Result<Statement, RiddleError>)
        ensures
            stmt_outcome(r, disj_body_at(old(self)@, seq![]), final(self)@),
            r is Ok ==> final(self)@.len() < old(self)@.len(),
        decreases old(self)@.len(), 18nat,
    {
        let mut branches: Vec<(Vec<Statement>, Expr)> = Vec::new();
        proof {
            assert(disjuncts_view(branches@) =~= Seq::<(Seq<SpecStatement>, SpecExpr)>::empty());
        }
        loop
            invariant
                disj_body_at(self@, disjuncts_view(branches@)) == disj_body_at(old(self)@, seq![]),
                self@.len() <= old(self)@.len(),
            decreases self@.len(),
        {
            proof {
                reveal_with_fuel(disj_body_at, 1);
                reveal_with_fuel(stmt_list_at, 1);
            }
            let statements = self.parse_statements()?;
            self.expect(Token::RBrace)?;
            let cost = self.parse_cost()?;
            disjuncts_push(&mut branches, statements, cost);
            if self.peek_is(0, Token::Or) {
                self.expect(Token::Or)?;
                self.expect(Token::LBrace)?;
            } else {
                return Ok(Statement::Disjunction { disjuncts: branches });
            }
        }
    }

    /// Parses `'for' '(' path name ')' '{' statements '}'`.
    #[verifier::rlimit(30)]
    fn parse_for(&mut self) -> (r: Result<Statement, RiddleError>)
        ensures
            stmt_outcome(r, for_at(old(self)@), final(self)@),
            r is Ok ==> final(self)@.len() < old(self)@.len(),
        decreases old(self)@.len(), 15nat,
    {
        proof {
            reveal_with_fuel(for_at, 1);
            reveal_with_fuel(stmt_list_at, 1);
        }
        self.expect(Token::For)?;
        self.expect(Token::LParen)?;
        let ids = match self.next() {
            Ok(Some((_, Token::Identifier(name), _))) => single_name(name),
            _ => {
                return Err(runtime_error("Expected identifier"));
            },
        };
        let var_type = self.dotted_tail(ids, "Expected identifier after '.'")?;
        let var_name = match self.next() {
            Ok(Some((_, Token::Identifier(name), _))) => name,
            _ => {
                return Err(runtime_error("Expected variable name in for loop"));
            },
        };
        self.expect(Token::RParen)?;
        self.expect(Token::LBrace)?;
        let statements = self.parse_statements()?;
        self.expect(Token::RBrace)?;
        Ok(Statement::ForAll { var_type, var_name, statements })
    }
}

} // verus!

use crate::grammar::{
    Items, add_at, add_tail, and_at, and_of, and_tail, args_at, call_or_id_at, dotted_tail_at, eq_at,
    expect_at, expr_at, first_dot, is_plain, lemma_first_err_found, lemma_first_err_none,
    literal_expr, mul_at, mul_tail, name_this, new_at, next_at, next_view, not_at, or_at, or_of,
    or_tail, paren_at, peek_at, peek_view, primary_at, real_literal, rel_at, sum_of, zeros,
};
use crate::language::{Expr, SpecExpr, exprs_view, path_view};
use crate::lexer::{
    LexItem, Lexer, LexerError, Location, SpecLexItem, SpecToken, Token, item_view, items_view,
    lemma_lex_step_progress, lex_items, str_chars, string_from_chars,
};
use crate::text::{decimal, push_decimal, push_str};
use crate::RiddleError;
use vstd::prelude::*;

verus! {

/// The text that Rust's `Debug` gives a string: quoted, with escapes.
pub uninterp spec fn str_debug_text(s: Seq<char>) -> Seq<char>;

/// The text that Rust's `Debug` gives a character: quoted, with escapes.
pub uninterp spec fn char_debug_text(c: char) -> Seq<char>;

/// Renders a string as Rust's `Debug` for `str` does, with `format!`.
/// Claimed: the text depends on the string alone (it is named
/// `str_debug_text`); what the quoting and escaping are is not stated.
#[verifier::external_body]
fn str_debug(s: &str) -> (r: String)
    ensures
        r@ == str_debug_text(s@),
{
    format!("{:?}", s)
}

/// Renders a character as Rust's `Debug` for `char` does, with `format!`.
/// Claimed: the text depends on the character alone (it is named
/// `char_debug_text`); what the quoting and escaping are is not stated.
#[verifier::external_body]
fn char_debug(c: char) -> (r: String)
    ensures
        r@ == char_debug_text(c),
{
    format!("{:?}", c)
}

/// How a token reads in messages: the name of its kind, and its payload in
/// brackets, as Rust writes such a value for debugging (`Identifier("x")`,
/// `BoolLiteral(true)`, `Semicolon`).
pub open spec fn token_text(t: SpecToken) -> Seq<char> {
    match t {
        SpecToken::Identifier(s) => "Identifier("@ + str_debug_text(s) + ")"@,
        SpecToken::IntLiteral(s) => "IntLiteral("@ + str_debug_text(s) + ")"@,
        SpecToken::RealLiteral(s) => "RealLiteral("@ + str_debug_text(s) + ")"@,
        SpecToken::StringLiteral(s) => "StringLiteral("@ + str_debug_text(s) + ")"@,
        SpecToken::BoolLiteral(b) => if b { "BoolLiteral(true)"@ } else { "BoolLiteral(false)"@ },
        SpecToken::Plus => "Plus"@,
        SpecToken::Minus => "Minus"@,
        SpecToken::Asterisk => "Asterisk"@,
        SpecToken::Slash => "Slash"@,
        SpecToken::Amp => "Amp"@,
        SpecToken::Bar => "Bar"@,
        SpecToken::Dot => "Dot"@,
        SpecToken::LParen => "LParen"@,
        SpecToken::RParen => "RParen"@,
        SpecToken::LBracket => "LBracket"@,
        SpecToken::RBracket => "RBracket"@,
        SpecToken::LBrace => "LBrace"@,
        SpecToken::RBrace => "RBrace"@,
        SpecToken::Comma => "Comma"@,
        SpecToken::Colon => "Colon"@,
        SpecToken::Equal => "Equal"@,
        SpecToken::EqualEqual => "EqualEqual"@,
        SpecToken::Not => "Not"@,
        SpecToken::NotEqual => "NotEqual"@,
        SpecToken::LessThan => "LessThan"@,
        SpecToken::LessEqual => "LessEqual"@,
        SpecToken::GreaterThan => "GreaterThan"@,
        SpecToken::GreaterEqual => "GreaterEqual"@,
        SpecToken::Semicolon => "Semicolon"@,
        SpecToken::Bool => "Bool"@,
        SpecToken::Int => "Int"@,
        SpecToken::Real => "Real"@,
        SpecToken::String => "String"@,
        SpecToken::Class => "Class"@,
        SpecToken::Predicate => "Predicate"@,
        SpecToken::New => "New"@,
        SpecToken::For => "For"@,
        SpecToken::This => "This"@,
        SpecToken::Void => "Void"@,
        SpecToken::Return => "Return"@,
        SpecToken::Fact => "Fact"@,
        SpecToken::Goal => "Goal"@,
        SpecToken::Or => "Or"@,
        SpecToken::Eof => "Eof"@,
    }
}

/// How a location reads: `Location { line: L, column: C }`.
pub open spec fn location_text(at: Location) -> Seq<char> {
    "Location { line: "@ + decimal(at.line as nat) + ", column: "@ + decimal(at.column as nat) + " }"@
}

/// How a lexer error reads in messages:
/// `InvalidCharacter('c', Location { .. })` or
/// `UnterminatedString(Location { .. })`.
pub open spec fn lexer_error_text(e: LexerError) -> Seq<char> {
    match e {
        LexerError::InvalidCharacter(c, at) => "InvalidCharacter("@ + char_debug_text(c) + ", "@ + location_text(at) + ")"@,
        LexerError::UnterminatedString(at) => "UnterminatedString("@ + location_text(at) + ")"@,
    }
}

/// Appends how a location reads.
fn push_location(out: &mut Vec<char>, at: &Location)
    ensures
        final(out)@ == old(out)@ + location_text(*at),
{
    push_str(out, "Location { line: ");
    push_decimal(out, at.line);
    push_str(out, ", column: ");
    push_decimal(out, at.column);
    push_str(out, " }");
}

/// Appends a kind's name with its opening bracket, a string payload, and
/// the closing bracket.
fn push_with_text(out: &mut Vec<char>, kind: &str, s: &String)
    ensures
        final(out)@ == old(out)@ + kind@ + str_debug_text(s@) + ")"@,
{
    push_str(out, kind);
    push_str(out, str_debug(s.as_str()).as_str());
    push_str(out, ")");
}

impl Token {
    /// How the token reads in messages (see `token_text`).
    pub fn debug_text(&self) -> (r: String)
        ensures
            r@ == token_text(self@),
    {
        match self {
            Token::Identifier(s) => {
                let mut out: Vec<char> = Vec::new();
                push_with_text(&mut out, "Identifier(", s);
                proof {
                    assert(out@ =~= "Identifier("@ + str_debug_text(s@) + ")"@);
                }
                string_from_chars(&out)
            },
            Token::IntLiteral(s) => {
                let mut out: Vec<char> = Vec::new();
                push_with_text(&mut out, "IntLiteral(", s);
                proof {
                    assert(out@ =~= "IntLiteral("@ + str_debug_text(s@) + ")"@);
                }
                string_from_chars(&out)
            },
            Token::RealLiteral(s) => {
                let mut out: Vec<char> = Vec::new();
                push_with_text(&mut out, "RealLiteral(", s);
                proof {
                    assert(out@ =~= "RealLiteral("@ + str_debug_text(s@) + ")"@);
                }
                string_from_chars(&out)
            },
            Token::StringLiteral(s) => {
                let mut out: Vec<char> = Vec::new();
                push_with_text(&mut out, "StringLiteral(", s);
                proof {
                    assert(out@ =~= "StringLiteral("@ + str_debug_text(s@) + ")"@);
                }
                string_from_chars(&out)
            },
            Token::BoolLiteral(b) => if *b { "BoolLiteral(true)".to_owned() } else { "BoolLiteral(false)".to_owned() },
            Token::Plus => "Plus".to_owned(),
            Token::Minus => "Minus".to_owned(),
            Token::Asterisk => "Asterisk".to_owned(),
            Token::Slash => "Slash".to_owned(),
            Token::Amp => "Amp".to_owned(),
            Token::Bar => "Bar".to_owned(),
            Token::Dot => "Dot".to_owned(),
            Token::LParen => "LParen".to_owned(),
            Token::RParen => "RParen".to_owned(),
            Token::LBracket => "LBracket".to_owned(),
            Token::RBracket => "RBracket".to_owned(),
            Token::LBrace => "LBrace".to_owned(),
            Token::RBrace => "RBrace".to_owned(),
            Token::Comma => "Comma".to_owned(),
            Token::Colon => "Colon".to_owned(),
            Token::Equal => "Equal".to_owned(),
            Token::EqualEqual => "EqualEqual".to_owned(),
            Token::Not => "Not".to_owned(),
            Token::NotEqual => "NotEqual".to_owned(),
            Token::LessThan => "LessThan".to_owned(),
            Token::LessEqual => "LessEqual".to_owned(),
            Token::GreaterThan => "GreaterThan".to_owned(),
            Token::GreaterEqual => "GreaterEqual".to_owned(),
            Token::Semicolon => "Semicolon".to_owned(),
            Token::Bool => "Bool".to_owned(),
            Token::Int => "Int".to_owned(),
            Token::Real => "Real".to_owned(),
            Token::String => "String".to_owned(),
            Token::Class => "Class".to_owned(),
            Token::Predicate => "Predicate".to_owned(),
            Token::New => "New".to_owned(),
            Token::For => "For".to_owned(),
            Token::This => "This".to_owned(),
            Token::Void => "Void".to_owned(),
            Token::Return => "Return".to_owned(),
            Token::Fact => "Fact".to_owned(),
            Token::Goal => "Goal".to_owned(),
            Token::Or => "Or".to_owned(),
            Token::Eof => "Eof".to_owned(),
        }
    }
}

impl LexerError {
    /// How the error reads in messages (see `lexer_error_text`).
    pub fn debug_text(&self) -> (r: String)
        ensures
            r@ == lexer_error_text(*self),
    {
        let mut out: Vec<char> = Vec::new();
        match self {
            LexerError::InvalidCharacter(c, at) => {
                push_str(&mut out, "InvalidCharacter(");
                push_str(&mut out, char_debug(*c).as_str());
                push_str(&mut out, ", ");
                push_location(&mut out, at);
                push_str(&mut out, ")");
                proof {
                    assert(out@ =~= "InvalidCharacter("@ + char_debug_text(*c) + ", "@ + location_text(*at) + ")"@);
                }
            },
            LexerError::UnterminatedString(at) => {
                push_str(&mut out, "UnterminatedString(");
                push_location(&mut out, at);
                push_str(&mut out, ")");
                proof {
                    assert(out@ =~= "UnterminatedString("@ + location_text(*at) + ")"@);
                }
            },
        }
        string_from_chars(&out)
    }
}

/// The message for a token other than the one expected, from the renderings
/// of the two tokens and where the second starts.
fn syntax_error_message(expected: &String, found: &String, at: &Location) -> (r: String)
    ensures
        r@ == "Syntax Error: Expected "@ + expected@ + ", found "@ + found@ + " at line "@ + decimal(
            at.line as nat,
        ) + ", column "@ + decimal(at.column as nat),
{
    let mut out: Vec<char> = Vec::new();
    push_str(&mut out, "Syntax Error: Expected ");
    push_str(&mut out, expected.as_str());
    push_str(&mut out, ", found ");
    push_str(&mut out, found.as_str());
    push_str(&mut out, " at line ");
    push_decimal(&mut out, at.line);
    push_str(&mut out, ", column ");
    push_decimal(&mut out, at.column);
    string_from_chars(&out)
}

/// The message for an expected token missing at the end of the input.
fn end_of_input_message(expected: &String) -> (r: String)
    ensures
        r@ == "Syntax Error: Expected "@ + expected@ + ", found end of input"@,
{
    let mut out: Vec<char> = Vec::new();
    push_str(&mut out, "Syntax Error: Expected ");
    push_str(&mut out, expected.as_str());
    push_str(&mut out, ", found end of input");
    string_from_chars(&out)
}

/// The message that reports a lexer error: `Lexer Error: ` and how the error
/// reads (see `lexer_error_text`).
pub(crate) fn lexer_error_message(e: &LexerError) -> (r: String)
    ensures
        r@ == "Lexer Error: "@ + lexer_error_text(*e),
{
    let mut out: Vec<char> = Vec::new();
    push_str(&mut out, "Lexer Error: ");
    push_str(&mut out, e.debug_text().as_str());
    string_from_chars(&out)
}

/// The message that reports an unexpected token: `prefix` and how the token
/// reads (see `token_text`).
pub(crate) fn unexpected_token_message(prefix: &str, t: &Token) -> (r: String)
    ensures
        r@ == prefix@ + token_text(t@),
{
    let mut out: Vec<char> = Vec::new();
    push_str(&mut out, prefix);
    push_str(&mut out, t.debug_text().as_str());
    string_from_chars(&out)
}

/// The message for a real literal without digits after its point.
fn invalid_real_message(value: &String) -> (r: String)
    ensures
        r@ == "Invalid real literal: "@ + value@,
{
    let mut out: Vec<char> = Vec::new();
    push_str(&mut out, "Invalid real literal: ");
    push_str(&mut out, value.as_str());
    string_from_chars(&out)
}

pub(crate) fn runtime_error(msg: &str) -> (e: RiddleError)
    ensures
        e is RuntimeError,
{
    RiddleError::RuntimeError(msg.to_owned())
}

pub(crate) fn builtin_path(name: &str) -> (p: Vec<String>)
    ensures
        path_view(p@) == seq![name@],
{
    let mut p: Vec<String> = Vec::new();
    p.push(name.to_owned());
    proof {
        assert(path_view(p@) =~= seq![name@]);
    }
    p
}

pub(crate) fn push_name(ids: &mut Vec<String>, s: String)
    ensures
        path_view(final(ids)@) == path_view(old(ids)@).push(s@),
{
    ids.push(s);
    proof {
        assert(path_view(ids@) =~= path_view(old(ids)@).push(s@));
    }
}


pub open spec fn spec_token_kind(t: SpecToken) -> u8 {
    match t {
        SpecToken::Identifier(_) => 0,
        SpecToken::BoolLiteral(_) => 1,
        SpecToken::IntLiteral(_) => 2,
        SpecToken::RealLiteral(_) => 3,
        SpecToken::StringLiteral(_) => 4,
        SpecToken::Plus => 5,
        SpecToken::Minus => 6,
        SpecToken::Asterisk => 7,
        SpecToken::Slash => 8,
        SpecToken::Amp => 9,
        SpecToken::Bar => 10,
        SpecToken::Dot => 11,
        SpecToken::LParen => 12,
        SpecToken::RParen => 13,
        SpecToken::LBracket => 14,
        SpecToken::RBracket => 15,
        SpecToken::LBrace => 16,
        SpecToken::RBrace => 17,
        SpecToken::Comma => 18,
        SpecToken::Colon => 19,
        SpecToken::Equal => 20,
        SpecToken::EqualEqual => 21,
        SpecToken::Not => 22,
        SpecToken::NotEqual => 23,
        SpecToken::LessThan => 24,
        SpecToken::LessEqual => 25,
        SpecToken::GreaterThan => 26,
        SpecToken::GreaterEqual => 27,
        SpecToken::Semicolon => 28,
        SpecToken::Bool => 29,
        SpecToken::Int => 30,
        SpecToken::Real => 31,
        SpecToken::String => 32,
        SpecToken::Class => 33,
        SpecToken::Predicate => 34,
        SpecToken::New => 35,
        SpecToken::For => 36,
        SpecToken::This => 37,
        SpecToken::Void => 38,
        SpecToken::Return => 39,
        SpecToken::Fact => 40,
        SpecToken::Goal => 41,
        SpecToken::Or => 42,
        SpecToken::Eof => 43,
    }
}

fn token_kind(t: &Token) -> (k: u8)
    ensures
        k == spec_token_kind(t@),
{
    match t {
        Token::Identifier(_) => 0,
        Token::BoolLiteral(_) => 1,
        Token::IntLiteral(_) => 2,
        Token::RealLiteral(_) => 3,
        Token::StringLiteral(_) => 4,
        Token::Plus => 5,
        Token::Minus => 6,
        Token::Asterisk => 7,
        Token::Slash => 8,
        Token::Amp => 9,
        Token::Bar => 10,
        Token::Dot => 11,
        Token::LParen => 12,
        Token::RParen => 13,
        Token::LBracket => 14,
        Token::RBracket => 15,
        Token::LBrace => 16,
        Token::RBrace => 17,
        Token::Comma => 18,
        Token::Colon => 19,
        Token::Equal => 20,
        Token::EqualEqual => 21,
        Token::Not => 22,
        Token::NotEqual => 23,
        Token::LessThan => 24,
        Token::LessEqual => 25,
        Token::GreaterThan => 26,
        Token::GreaterEqual => 27,
        Token::Semicolon => 28,
        Token::Bool => 29,
        Token::Int => 30,
        Token::Real => 31,
        Token::String => 32,
        Token::Class => 33,
        Token::Predicate => 34,
        Token::New => 35,
        Token::For => 36,
        Token::This => 37,
        Token::Void => 38,
        Token::Return => 39,
        Token::Fact => 40,
        Token::Goal => 41,
        Token::Or => 42,
        Token::Eof => 43,
    }
}

/// Whether `a` is the payload-free token `b`.
fn same_kind(a: &Token, b: &Token) -> (r: bool)
    requires
        is_plain(b@),
    ensures
        r == (a@ == b@),
{
    let r = token_kind(a) == token_kind(b);
    proof {
        if r {
            match a@ {
                SpecToken::Identifier(_) => {},
                SpecToken::BoolLiteral(_) => {},
                SpecToken::IntLiteral(_) => {},
                SpecToken::RealLiteral(_) => {},
                SpecToken::StringLiteral(_) => {},
                _ => {},
            }
        }
    }
    r
}

/// Splits a real literal at its first `.` into `wholefraction` over `10^digits`.
fn real_literal_expr(value: String) -> (r: Option<Expr>)
    ensures
        match r {
            Some(e) => real_literal(value@) == Some(e@),
            None => real_literal(value@) is None,
        },
{
    let chars = str_chars(value.as_str());
    let mut k: usize = 0;
    while k < chars.len()
        invariant
            k <= chars.len(),
            chars@ == value@,
            first_dot(value@, k as int) == first_dot(value@, 0),
        ensures
            k <= chars.len(),
            first_dot(value@, 0) == k,
        decreases chars.len() - k,
    {
        if chars[k] == '.' {
            break;
        }
        k = k + 1;
    }
    if k >= chars.len() {
        return Some(Expr::Int(value));
    }
    let mut number: Vec<char> = Vec::new();
    let mut i: usize = 0;
    while i < chars.len()
        invariant
            k < chars.len(),
            i <= chars.len(),
            chars@ == value@,
            number@ == if i <= k {
                chars@.subrange(0, i as int)
            } else {
                chars@.subrange(0, k as int) + chars@.subrange(k + 1, i as int)
            },
        decreases chars.len() - i,
    {
        if i != k {
            number.push(chars[i]);
        }
        i = i + 1;
        assert(number@ =~= if i <= k {
            chars@.subrange(0, i as int)
        } else {
            chars@.subrange(0, k as int) + chars@.subrange(k + 1, i as int)
        });
    }
    let digits = chars.len() - k - 1;
    if digits == 0 {
        return None;
    }
    let mut scale: Vec<char> = Vec::new();
    scale.push('1');
    let mut j: usize = 0;
    while j < digits
        invariant
            j <= digits,
            scale@ == seq!['1'] + zeros(j as nat),
        decreases digits - j,
    {
        scale.push('0');
        j = j + 1;
        assert(scale@ =~= seq!['1'] + zeros(j as nat));
    }
    Some(Expr::Real(string_from_chars(&number), string_from_chars(&scale)))
}

fn exprs_push(v: &mut Vec<Expr>, e: Expr)
    ensures
        exprs_view(final(v)@) == exprs_view(old(v)@).push(e@),
        final(v)@.len() == old(v)@.len() + 1,
{
    v.push(e);
    proof {
        assert(exprs_view(v@) =~= exprs_view(old(v)@).push(e@));
    }
}

fn exprs_single(e: Expr) -> (v: Vec<Expr>)
    ensures
        exprs_view(v@) == seq![e@],
        v@.len() == 1,
{
    let mut v: Vec<Expr> = Vec::new();
    exprs_push(&mut v, e);
    proof {
        assert(exprs_view(v@) =~= seq![e@]);
    }
    v
}

fn unwrap_single(v: Vec<Expr>) -> (e: Expr)
    requires
        v@.len() == 1,
    ensures
        e@ == exprs_view(v@)[0],
{
    let mut v = v;
    v.remove(0)
}


/// The expression of a literal token; other tokens are unexpected here.
fn literal_to_expr(token: Token) -> (r: Result<Expr, RiddleError>)
    ensures
        match r {
            Ok(e) => literal_expr(token@) == Some(e@),
            Err(_) => literal_expr(token@) is None,
        },
{
    match token {
        Token::BoolLiteral(value) => Ok(Expr::Bool(value)),
        Token::IntLiteral(value) => Ok(Expr::Int(value)),
        Token::RealLiteral(value) => {
            let msg = invalid_real_message(&value);
            match real_literal_expr(value) {
                Some(e) => Ok(e),
                None => Err(RiddleError::RuntimeError(msg)),
            }
        },
        Token::StringLiteral(value) => Ok(Expr::String(value)),
        other => Err(RiddleError::RuntimeError(unexpected_token_message("Unexpected token: ", &other))),
    }
}

/// The parse result `r`, leaving the parser at `after`, is what the grammar
/// function gave (`expected`): the same tree and the same items left, or an
/// error exactly when the grammar gives none.
pub open spec fn expr_outcome(r: Result<Expr, RiddleError>, expected: (Option<SpecExpr>, Items), after: Items) -> bool {
    match r {
        Ok(e) => expected.0 == Some(e@) && after == expected.1,
        Err(_) => expected.0 is None,
    }
}

pub open spec fn exprs_outcome(
    r: Result<Vec<Expr>, RiddleError>,
    expected: (Option<Seq<SpecExpr>>, Items),
    after: Items,
) -> bool {
    match r {
        Ok(v) => expected.0 == Some(exprs_view(v@)) && after == expected.1,
        Err(_) => expected.0 is None,
    }
}

/// A recursive-descent parser for RiDDLe, reading the items of a lexer.
///
/// The items not read yet are the lookahead buffer (tokens already pulled from
/// the lexer) followed by the items still held back, kept in reverse order so
/// that the next one is popped from the end.
pub struct Parser {
    rest: Vec<LexItem>,
    lookahead: Vec<(Location, Token, Location)>,
}

pub open spec fn la_view(s: Seq<(Location, Token, Location)>) -> Items {
    s.map_values(|x: (Location, Token, Location)| Ok::<_, LexerError>((x.0, x.1@, x.2)))
}

impl View for Parser {
    type V = Items;

    closed spec fn view(&self) -> Items {
        la_view(self.lookahead@) + Seq::new(
            self.rest@.len(),
            |i: int| item_view(self.rest@[self.rest@.len() - 1 - i]),
        )
    }
}

impl Parser {
    /// Creates a parser over everything that the lexer yields from its position on.
    pub fn new(lexer: Lexer) -> (p: Self)
        requires
            lexer.wf(),
        ensures
            p@ == lex_items(lexer.text(), lexer.position()),
    {
        let mut lexer = lexer;
        let ghost s = lexer.text();
        let ghost p0 = lexer.position();
        let mut items: Vec<LexItem> = Vec::new();
        proof {
            lexer.lemma_wf();
        }
        loop
            invariant
                lexer.wf(),
                lexer.text() == s,
                0 <= lexer.position() <= s.len(),
                items_view(items@) + lex_items(s, lexer.position()) == lex_items(s, p0),
            ensures
                items_view(items@) == lex_items(s, p0),
            decreases s.len() - lexer.position(),
        {
            let ghost p = lexer.position();
            proof {
                lemma_lex_step_progress(s, p);
            }
            match lexer.next() {
                Some(item) => {
                    let ghost before = items@;
                    items.push(item);
                    proof {
                        lexer.lemma_wf();
                        assert(items_view(items@) =~= items_view(before).push(item_view(item)));
                        assert(lex_items(s, p) == seq![item_view(item)] + lex_items(s, lexer.position()));
                        assert(items_view(items@) + lex_items(s, lexer.position()) =~= items_view(before)
                            + lex_items(s, p));
                    }
                },
                None => {
                    proof {
                        assert(lex_items(s, p) == Seq::<SpecLexItem>::empty());
                        assert(items_view(items@) =~= items_view(items@) + lex_items(s, p));
                    }
                    break;
                },
            }
        }
        let ghost all = items_view(items@);
        let mut rest: Vec<LexItem> = Vec::new();
        while items.len() > 0
            invariant
                all == lex_items(s, p0),
                items_view(items@) + Seq::new(rest@.len(), |i: int| item_view(rest@[rest@.len() - 1 - i]))
                    =~= all,
            decreases items.len(),
        {
            let it = items.pop().unwrap();
            rest.push(it);
            proof {
                assert(items_view(items@) + Seq::new(
                    rest@.len(),
                    |i: int| item_view(rest@[rest@.len() - 1 - i]),
                ) =~= all);
            }
        }
        let p = Parser { rest, lookahead: Vec::new() };
        proof {
            assert(p@ =~= all);
        }
        p
    }

    proof fn lemma_view_split(&self)
        ensures
            self@.len() == self.lookahead@.len() + self.rest@.len(),
            forall|i: int| 0 <= i < self.lookahead@.len() ==> #[trigger] self@[i] == Ok::<_, LexerError>(
                (self.lookahead@[i].0, self.lookahead@[i].1@, self.lookahead@[i].2),
            ),
            forall|i: int|
                self.lookahead@.len() <= i < self@.len() ==> #[trigger] self@[i] == item_view(
                    self.rest@[self.rest@.len() - 1 - (i - self.lookahead@.len())],
                ),
    {
    }

    /// Looks at the `n`-th item ahead without consuming it. A lexer error met while
    /// filling the lookahead buffer is dropped and reported as `Err`.
    pub fn peek(&mut self, n: usize) -> (r: Result<Option<&(Location, Token, Location)>, LexerError>)
        ensures
            final(self)@ == peek_at(old(self)@, n as int).1,
            peek_view(r) == peek_at(old(self)@, n as int).0,
            final(self)@.len() <= old(self)@.len(),
            peek_view(r) is Some ==> n < usize::MAX,
    {
        proof {
            self.lemma_view_split();
            reveal(peek_at);
        }
        while self.lookahead.len() <= n
            invariant
                self@ == old(self)@,
                forall|j: int| 0 <= j < self.lookahead@.len() ==> #[trigger] old(self)@[j] is Ok,
            ensures
                self@ == old(self)@,
                forall|j: int| 0 <= j < self.lookahead@.len() ==> #[trigger] old(self)@[j] is Ok,
                self.lookahead@.len() <= n ==> self.rest@.len() == 0,
            decreases self.rest@.len(),
        {
            proof {
                self.lemma_view_split();
                reveal(peek_at);
            }
            match self.rest.pop() {
                Some(Ok(x)) => {
                    let ghost la = self.lookahead@;
                    self.lookahead.push(x);
                    proof {
                        assert(la_view(self.lookahead@) =~= la_view(la).push(Ok((x.0, x.1@, x.2))));
                        assert(self@ =~= old(self)@);
                        self.lemma_view_split();
                    }
                },
                Some(Err(e)) => {
                    let k = self.lookahead.len();
                    proof {
                        let ghost rr = old(self)@;
                        assert(rr[k as int] is Err);
                        lemma_first_err_found(rr, 0, k as int, n as int);
                        assert(self@ =~= rr.remove(k as int));
                    }
                    return Err(e);
                },
                None => {
                    break;
                },
            }
        }
        proof {
            self.lemma_view_split();
            lemma_first_err_none(old(self)@, 0, n as int);
        }
        if n < self.lookahead.len() {
            Ok(Some(&self.lookahead[n]))
        } else {
            Ok(None)
        }
    }

    /// Consumes the next item.
    pub fn next(&mut self) -> (r: Result<Option<(Location, Token, Location)>, LexerError>)
        ensures
            final(self)@ == next_at(old(self)@).1,
            next_view(r) == next_at(old(self)@).0,
            final(self)@.len() <= old(self)@.len(),
            old(self)@.len() > 0 ==> final(self)@.len() < old(self)@.len(),
            next_view(r) is Some ==> final(self)@.len() < old(self)@.len(),
    {
        proof {
            self.lemma_view_split();
            reveal(next_at);
        }
        if self.lookahead.len() > 0 {
            let x = self.lookahead.remove(0);
            proof {
                assert(self@ =~= old(self)@.drop_first());
            }
            Ok(Some(x))
        } else {
            match self.rest.pop() {
                Some(Ok(x)) => {
                    proof {
                        assert(self@ =~= old(self)@.drop_first());
                    }
                    Ok(Some(x))
                },
                Some(Err(e)) => {
                    proof {
                        assert(self@ =~= old(self)@.drop_first());
                    }
                    Err(e)
                },
                None => Ok(None),
            }
        }
    }

    /// Whether the `n`-th item ahead is the payload-free token `k` (a `peek`).
    pub(crate) fn peek_is(&mut self, n: usize, k: Token) -> (b: bool)
        requires
            is_plain(k@),
        ensures
            final(self)@ == peek_at(old(self)@, n as int).1,
            b == (peek_at(old(self)@, n as int).0 == Some(k@)),
            final(self)@.len() <= old(self)@.len(),
            b ==> n < usize::MAX,
    {
        match self.peek(n) {
            Ok(Some(x)) => same_kind(&x.1, &k),
            _ => false,
        }
    }

    /// Whether the `n`-th item ahead is an identifier (a `peek`).
    pub(crate) fn peek_is_ident(&mut self, n: usize) -> (b: bool)
        ensures
            final(self)@ == peek_at(old(self)@, n as int).1,
            b == (peek_at(old(self)@, n as int).0 matches Some(SpecToken::Identifier(_))),
            final(self)@.len() <= old(self)@.len(),
            b ==> n < usize::MAX,
    {
        match self.peek(n) {
            Ok(Some((_, Token::Identifier(_), _))) => true,
            _ => false,
        }
    }

    pub(crate) fn expect(&mut self, expected: Token) -> (r: Result<(Location, Token, Location), RiddleError>)
        requires
            is_plain(expected@),
        ensures
            ({
                let e = expect_at(old(self)@, expected@);
                match r {
                    Ok(_) => e == Some(final(self)@),
                    Err(_) => e is None,
                }
            }),
            final(self)@.len() <= old(self)@.len(),
            r is Ok ==> final(self)@.len() < old(self)@.len(),
    {
        proof {
            reveal(expect_at);
            reveal(next_at);
        }
        let next_token = self.next();
        match next_token {
            Ok(Some((start, token, end))) => {
                if same_kind(&token, &expected) {
                    Ok((start, token, end))
                } else {
                    Err(RiddleError::RuntimeError(syntax_error_message(&expected.debug_text(), &token.debug_text(), &start)))
                }
            },
            Ok(None) => Err(RiddleError::RuntimeError(end_of_input_message(&expected.debug_text()))),
            Err(e) => Err(RiddleError::RuntimeError(lexer_error_message(&e))),
        }
    }

    /// Reads `.name` parts after the first name of a dotted path.
    pub(crate) fn dotted_tail(&mut self, first: Vec<String>, what: &str) -> (r: Result<Vec<String>, RiddleError>)
        ensures
            ({
                let (res, rest) = dotted_tail_at(old(self)@, path_view(first@));
                match r {
                    Ok(v) => res == Some(path_view(v@)) && final(self)@ == rest,
                    Err(_) => res is None,
                }
            }),
            final(self)@.len() <= old(self)@.len(),
    {
        proof {
            reveal_with_fuel(dotted_tail_at, 1);
        }
        let ghost ids0 = first@;
        let mut ids = first;
        loop
            invariant
                ids0 == first@,
                dotted_tail_at(self@, path_view(ids@)) == dotted_tail_at(old(self)@, path_view(ids0)),
                self@.len() <= old(self)@.len(),
            decreases self@.len(),
        {
            proof {
                reveal_with_fuel(dotted_tail_at, 1);
            }
            let ghost r0 = self@;
            let is_dot = self.peek_is(0, Token::Dot);
            proof {
                assert(is_dot == (peek_at(r0, 0).0 == Some(SpecToken::Dot)));
            }
            if !is_dot {
                assert(dotted_tail_at(r0, path_view(ids@)) == (Some(path_view(ids@)), self@));
                return Ok(ids);
            }
            self.expect(Token::Dot)?;
            match self.next() {
                Ok(Some((_, Token::Identifier(next_name), _))) => {
                    push_name(&mut ids, next_name);
                },
                _ => {
                    return Err(runtime_error(what));
                },
            }
        }
    }

    /// Parses an expression.
    pub fn parse_expression(&mut self) -> (r: Result<Expr, RiddleError>)
        ensures
            expr_outcome(r, expr_at(old(self)@), final(self)@),
            r is Ok ==> final(self)@.len() < old(self)@.len(),
        decreases old(self)@.len(), 13nat,
    {
        proof {
            reveal_with_fuel(expr_at, 1);
            reveal_with_fuel(or_at, 1);
        }
        self.parse_or_expression()
    }

    #[verifier::rlimit(30)]
    fn parse_or_expression(&mut self) -> (r: Result<Expr, RiddleError>)
        ensures
            expr_outcome(r, or_at(old(self)@), final(self)@),
            r is Ok ==> final(self)@.len() < old(self)@.len(),
        decreases old(self)@.len(), 12nat,
    {
        proof {
            reveal_with_fuel(or_at, 1);
            reveal_with_fuel(and_at, 1);
            reveal_with_fuel(or_tail, 1);
        }
        let first = self.parse_and_expression()?;
        let ghost r1 = self@;
        let ghost t0 = first@;
        let mut terms = exprs_single(first);
        loop
            invariant_except_break
                or_tail(self@, exprs_view(terms@)) == or_tail(r1, seq![t0]),
            invariant
                or_at(old(self)@) == or_of(or_tail(r1, seq![t0])),
                self@.len() <= r1.len() < old(self)@.len(),
                terms@.len() >= 1,
            ensures
                or_at(old(self)@) == or_of(or_tail(r1, seq![t0])),
                or_tail(r1, seq![t0]) == (Some(exprs_view(terms@)), self@),
                self@.len() <= r1.len() < old(self)@.len(),
                terms@.len() >= 1,
            decreases self@.len(),
        {
            proof {
                reveal_with_fuel(or_tail, 1);
                reveal_with_fuel(and_at, 1);
            }
            let is_bar = self.peek_is(0, Token::Bar);
            if !is_bar {
                break;
            }
            self.expect(Token::Bar)?;
            let t = self.parse_and_expression()?;
            exprs_push(&mut terms, t);
        }
        if terms.len() == 1 {
            Ok(unwrap_single(terms))
        } else {
            Ok(Expr::Or { terms })
        }
    }

    #[verifier::rlimit(30)]
    fn parse_and_expression(&mut self) -> (r: Result<Expr, RiddleError>)
        ensures
            expr_outcome(r, and_at(old(self)@), final(self)@),
            r is Ok ==> final(self)@.len() < old(self)@.len(),
        decreases old(self)@.len(), 10nat,
    {
        proof {
            reveal_with_fuel(and_at, 1);
            reveal_with_fuel(eq_at, 1);
            reveal_with_fuel(and_tail, 1);
        }
        let first = self.parse_equality_expression()?;
        let ghost r1 = self@;
        let ghost t0 = first@;
        let mut terms = exprs_single(first);
        loop
            invariant_except_break
                and_tail(self@, exprs_view(terms@)) == and_tail(r1, seq![t0]),
            invariant
                and_at(old(self)@) == and_of(and_tail(r1, seq![t0])),
                self@.len() <= r1.len() < old(self)@.len(),
                terms@.len() >= 1,
            ensures
                and_at(old(self)@) == and_of(and_tail(r1, seq![t0])),
                and_tail(r1, seq![t0]) == (Some(exprs_view(terms@)), self@),
                self@.len() <= r1.len() < old(self)@.len(),
                terms@.len() >= 1,
            decreases self@.len(),
        {
            proof {
                reveal_with_fuel(and_tail, 1);
                reveal_with_fuel(eq_at, 1);
            }
            let is_amp = self.peek_is(0, Token::Amp);
            if !is_amp {
                break;
            }
            self.expect(Token::Amp)?;
            let t = self.parse_equality_expression()?;
            exprs_push(&mut terms, t);
        }
        if terms.len() == 1 {
            Ok(unwrap_single(terms))
        } else {
            Ok(Expr::And { terms })
        }
    }

    /// Parses an equality expression (`==`, `!=`).
    #[verifier::rlimit(30)]
    pub fn parse_equality_expression(&mut self) -> (r: Result<Expr, RiddleError>)
        ensures
            expr_outcome(r, eq_at(old(self)@), final(self)@),
            r is Ok ==> final(self)@.len() < old(self)@.len(),
        decreases old(self)@.len(), 8nat,
    {
        proof {
            reveal_with_fuel(eq_at, 1);
            reveal_with_fuel(rel_at, 1);
        }
        let left = self.parse_relational_expression()?;
        let ghost r1 = self@;
        let op: u8 = match self.peek(0) {
            Ok(Some((_, Token::EqualEqual, _))) => 1,
            Ok(Some((_, Token::NotEqual, _))) => 2,
            _ => 0,
        };
        proof {
            let p = peek_at(r1, 0).0;
            assert((op == 1) == (p == Some(SpecToken::EqualEqual)));
            assert((op == 2) == (p == Some(SpecToken::NotEqual)));
        }
        if op == 1 {
            self.expect(Token::EqualEqual)?;
            let right = self.parse_relational_expression()?;
            Ok(Expr::Eq { left: Box::new(left), right: Box::new(right) })
        } else if op == 2 {
            self.expect(Token::NotEqual)?;
            let right = self.parse_relational_expression()?;
            Ok(Expr::Neq { left: Box::new(left), right: Box::new(right) })
        } else {
            Ok(left)
        }
    }

    #[verifier::rlimit(30)]
    fn parse_relational_expression(&mut self) -> (r: Result<Expr, RiddleError>)
        ensures
            expr_outcome(r, rel_at(old(self)@), final(self)@),
            r is Ok ==> final(self)@.len() < old(self)@.len(),
        decreases old(self)@.len(), 7nat,
    {
        proof {
            reveal_with_fuel(rel_at, 1);
            reveal_with_fuel(add_at, 1);
        }
        let left = self.parse_additive_expression()?;
        let ghost r1 = self@;
        let op: u8 = match self.peek(0) {
            Ok(Some((_, Token::LessThan, _))) => 1,
            Ok(Some((_, Token::LessEqual, _))) => 2,
            Ok(Some((_, Token::GreaterThan, _))) => 3,
            Ok(Some((_, Token::GreaterEqual, _))) => 4,
            _ => 0,
        };
        proof {
            let p = peek_at(r1, 0).0;
            assert((op == 1) == (p == Some(SpecToken::LessThan)));
            assert((op == 2) == (p == Some(SpecToken::LessEqual)));
            assert((op == 3) == (p == Some(SpecToken::GreaterThan)));
            assert((op == 4) == (p == Some(SpecToken::GreaterEqual)));
        }
        if op == 1 {
            self.expect(Token::LessThan)?;
            let right = self.parse_additive_expression()?;
            Ok(Expr::Lt { left: Box::new(left), right: Box::new(right) })
        } else if op == 2 {
            self.expect(Token::LessEqual)?;
            let right = self.parse_additive_expression()?;
            Ok(Expr::Leq { left: Box::new(left), right: Box::new(right) })
        } else if op == 3 {
            self.expect(Token::GreaterThan)?;
            let right = self.parse_additive_expression()?;
            Ok(Expr::Gt { left: Box::new(left), right: Box::new(right) })
        } else if op == 4 {
            self.expect(Token::GreaterEqual)?;
            let right = self.parse_additive_expression()?;
            Ok(Expr::Geq { left: Box::new(left), right: Box::new(right) })
        } else {
            Ok(left)
        }
    }

    /// Parses a sum of terms (`+`, `-`).
    #[verifier::rlimit(30)]
    pub fn parse_additive_expression(&mut self) -> (r: Result<Expr, RiddleError>)
        ensures
            expr_outcome(r, add_at(old(self)@), final(self)@),
            r is Ok ==> final(self)@.len() < old(self)@.len(),
        decreases old(self)@.len(), 6nat,
    {
        proof {
            reveal_with_fuel(add_at, 1);
            reveal_with_fuel(mul_at, 1);
            reveal_with_fuel(add_tail, 1);
        }
        let first = self.parse_multiplicative_expression()?;
        let ghost r1 = self@;
        let ghost t0 = first@;
        let mut terms = exprs_single(first);
        loop
            invariant_except_break
                add_tail(self@, exprs_view(terms@)) == add_tail(r1, seq![t0]),
            invariant
                add_at(old(self)@) == sum_of(add_tail(r1, seq![t0])),
                self@.len() <= r1.len() < old(self)@.len(),
                terms@.len() >= 1,
            ensures
                add_at(old(self)@) == sum_of(add_tail(r1, seq![t0])),
                add_tail(r1, seq![t0]) == (Some(exprs_view(terms@)), self@),
                self@.len() <= r1.len() < old(self)@.len(),
                terms@.len() >= 1,
            decreases self@.len(),
        {
            proof {
                reveal_with_fuel(add_tail, 1);
                reveal_with_fuel(mul_at, 1);
            }
            let ghost rh = self@;
            let op: u8 = match self.peek(0) {
                Ok(Some((_, Token::Plus, _))) => 1,
                Ok(Some((_, Token::Minus, _))) => 2,
                _ => 0,
            };
            proof {
                let p = peek_at(rh, 0).0;
                assert((op == 1) == (p == Some(SpecToken::Plus)));
                assert((op == 2) == (p == Some(SpecToken::Minus)));
            }
            if op == 0 {
                break;
            }
            if op == 1 {
                self.expect(Token::Plus)?;
                let t = self.parse_multiplicative_expression()?;
                exprs_push(&mut terms, t);
            } else {
                self.expect(Token::Minus)?;
                let right = self.parse_multiplicative_expression()?;
                exprs_push(&mut terms, Expr::Opposite { term: Box::new(right) });
            }
        }
        if terms.len() == 1 {
            Ok(unwrap_single(terms))
        } else {
            Ok(Expr::Sum { terms })
        }
    }

    #[verifier::rlimit(30)]
    fn parse_multiplicative_expression(&mut self) -> (r: Result<Expr, RiddleError>)
        ensures
            expr_outcome(r, mul_at(old(self)@), final(self)@),
            r is Ok ==> final(self)@.len() < old(self)@.len(),
        decreases old(self)@.len(), 4nat,
    {
        proof {
            reveal_with_fuel(mul_at, 1);
            reveal_with_fuel(primary_at, 1);
            reveal_with_fuel(mul_tail, 1);
        }
        let first = self.parse_primary_expression()?;
        let ghost r1 = self@;
        let ghost t0 = first@;
        let mut factors = exprs_single(first);
        loop
            invariant
                mul_at(old(self)@) == mul_tail(r1, seq![t0]),
                mul_tail(self@, exprs_view(factors@)) == mul_tail(r1, seq![t0]),
                self@.len() <= r1.len() < old(self)@.len(),
                factors@.len() >= 1,
            decreases self@.len(),
        {
            proof {
                reveal_with_fuel(mul_tail, 1);
                reveal_with_fuel(primary_at, 1);
            }
            let ghost rh = self@;
            let op: u8 = match self.peek(0) {
                Ok(Some((_, Token::Asterisk, _))) => 1,
                Ok(Some((_, Token::Slash, _))) => 2,
                _ => 0,
            };
            proof {
                let p = peek_at(rh, 0).0;
                assert((op == 1) == (p == Some(SpecToken::Asterisk)));
                assert((op == 2) == (p == Some(SpecToken::Slash)));
            }
            if op == 0 {
                if factors.len() == 1 {
                    return Ok(unwrap_single(factors));
                } else {
                    return Ok(Expr::Mul { factors });
                }
            }
            if op == 1 {
                self.expect(Token::Asterisk)?;
                let t = self.parse_primary_expression()?;
                exprs_push(&mut factors, t);
            } else {
                self.expect(Token::Slash)?;
                let right = self.parse_primary_expression()?;
                let ghost fs = exprs_view(factors@);
                let left = factors.pop().unwrap();
                proof {
                    assert(left@ == fs.last());
                }
                return Ok(Expr::Div { left: Box::new(left), right: Box::new(right) });
            }
        }
    }

    /// Parses a primary expression: a literal, a path, a call, `!`, `( )` or `new`.
    #[verifier::rlimit(80)]
    pub fn parse_primary_expression(&mut self) -> (r: Result<Expr, RiddleError>)
        ensures
            expr_outcome(r, primary_at(old(self)@), final(self)@),
            r is Ok ==> final(self)@.len() < old(self)@.len(),
        decreases old(self)@.len(), 2nat,
    {
        proof {
            reveal_with_fuel(primary_at, 1);
            reveal_with_fuel(not_at, 1);
            reveal_with_fuel(call_or_id_at, 1);
            reveal_with_fuel(paren_at, 1);
            reveal_with_fuel(new_at, 1);
        }
        match self.next() {
            Ok(Some((_, Token::Not, _))) => self.parse_not(),
            Ok(Some((_, Token::Identifier(name), _))) => self.parse_call_or_id(name),
            Ok(Some((_, Token::This, _))) => {
                let this = "this".to_owned();
                proof {
                    reveal_strlit("this");
                    assert(this@ =~= name_this());
                }
                self.parse_call_or_id(this)
            },
            Ok(Some((_, Token::LParen, _))) => self.parse_paren(),
            Ok(Some((_, Token::New, _))) => self.parse_new(),
            Ok(Some((_, token, _))) => literal_to_expr(token),
            Ok(None) => Err(runtime_error("Unexpected end of input")),
            Err(_) => Err(runtime_error("Unexpected end of input")),
        }
    }

    fn parse_not(&mut self) -> (r: Result<Expr, RiddleError>)
        ensures
            expr_outcome(r, not_at(old(self)@), final(self)@),
            r is Ok ==> final(self)@.len() < old(self)@.len(),
        decreases old(self)@.len(), 3nat,
    {
        proof {
            reveal_with_fuel(not_at, 1);
            reveal_with_fuel(primary_at, 1);
        }
        let e = self.parse_primary_expression()?;
        Ok(Expr::Not { term: Box::new(e) })
    }

    fn parse_paren(&mut self) -> (r: Result<Expr, RiddleError>)
        ensures
            expr_outcome(r, paren_at(old(self)@), final(self)@),
            r is Ok ==> final(self)@.len() < old(self)@.len(),
        decreases old(self)@.len(), 14nat,
    {
        proof {
            reveal_with_fuel(paren_at, 1);
            reveal_with_fuel(expr_at, 1);
        }
        let expr = self.parse_expression()?;
        self.expect(Token::RParen)?;
        Ok(expr)
    }

    #[verifier::rlimit(30)]
    fn parse_new(&mut self) -> (r: Result<Expr, RiddleError>)
        ensures
            expr_outcome(r, new_at(old(self)@), final(self)@),
            r is Ok ==> final(self)@.len() < old(self)@.len(),
        decreases old(self)@.len(), 1nat,
    {
        proof {
            reveal_with_fuel(new_at, 1);
            reveal_with_fuel(dotted_tail_at, 1);
            reveal_with_fuel(args_at, 1);
        }
        let class_name = match self.next() {
            Ok(Some((_, Token::Identifier(name), _))) => {
                let mut ids: Vec<String> = Vec::new();
                push_name(&mut ids, name);
                proof {
                    assert(path_view(ids@) =~= seq![name@]);
                }
                ids
            },
            _ => {
                return Err(runtime_error("Expected identifier after 'new'"));
            },
        };
        let class_name = self.dotted_tail(class_name, "Expected identifier after '.'")?;
        self.expect(Token::LParen)?;
        let args = self.parse_args()?;
        self.expect(Token::RParen)?;
        Ok(Expr::NewObject { class_name, args })
    }

    #[verifier::rlimit(30)]
    fn parse_call_or_id(&mut self, first: String) -> (r: Result<Expr, RiddleError>)
        ensures
            expr_outcome(r, call_or_id_at(old(self)@, first@), final(self)@),
            r is Ok ==> final(self)@.len() <= old(self)@.len(),
        decreases old(self)@.len(), 1nat,
    {
        proof {
            reveal_with_fuel(call_or_id_at, 1);
            reveal_with_fuel(dotted_tail_at, 1);
            reveal_with_fuel(args_at, 1);
        }
        let mut ids: Vec<String> = Vec::new();
        push_name(&mut ids, first);
        proof {
            assert(path_view(ids@) =~= seq![first@]);
        }
        let ids = self.dotted_tail(ids, "Expected identifier after '.'")?;
        let is_call = self.peek_is(0, Token::LParen);
        if is_call {
            self.expect(Token::LParen)?;
            let exprs = self.parse_args()?;
            self.expect(Token::RParen)?;
            Ok(Expr::Function { name: ids, args: exprs })
        } else {
            Ok(Expr::QualifiedId { ids })
        }
    }

    #[verifier::rlimit(30)]
    pub(crate) fn parse_args(&mut self) -> (r: Result<Vec<Expr>, RiddleError>)
        ensures
            exprs_outcome(r, args_at(old(self)@, seq![]), final(self)@),
            r is Ok ==> final(self)@.len() <= old(self)@.len(),
        decreases old(self)@.len(), 14nat,
    {
        let mut exprs: Vec<Expr> = Vec::new();
        proof {
            assert(exprs_view(exprs@) =~= Seq::<SpecExpr>::empty());
        }
        loop
            invariant_except_break
                args_at(self@, exprs_view(exprs@)) == args_at(old(self)@, seq![]),
            invariant
                self@.len() <= old(self)@.len(),
            ensures
                args_at(old(self)@, seq![]) == (Some(exprs_view(exprs@)), self@),
                self@.len() <= old(self)@.len(),
            decreases self@.len(),
        {
            proof {
                reveal_with_fuel(args_at, 1);
                reveal_with_fuel(expr_at, 1);
            }
            let is_close = self.peek_is(0, Token::RParen);
            if is_close {
                break;
            }
            let e = self.parse_expression()?;
            exprs_push(&mut exprs, e);
            let is_comma = self.peek_is(0, Token::Comma);
            if is_comma {
                self.expect(Token::Comma)?;
            } else {
                break;
            }
        }
        Ok(exprs)
    }
}

} // verus!

use vstd::prelude::*;

verus! {

/// A lexical token of the RiDDLe language.
#[derive(Debug, PartialEq, Clone)]
pub enum Token {
    Identifier(String),
    BoolLiteral(bool),
    IntLiteral(String),
    RealLiteral(String),
    StringLiteral(String),
    Plus,
    Minus,
    Asterisk,
    Slash,
    Amp,
    Bar,
    Dot,
    LParen,
    RParen,
    LBracket,
    RBracket,
    LBrace,
    RBrace,
    Comma,
    Colon,
    Equal,
    EqualEqual,
    Not,
    NotEqual,
    LessThan,
    LessEqual,
    GreaterThan,
    GreaterEqual,
    Semicolon,
    Bool,
    Int,
    Real,
    String,
    Class,
    Predicate,
    New,
    For,
    This,
    Void,
    Return,
    Fact,
    Goal,
    Or,
    Eof,
}

/// The mathematical model of a token: text payloads are character sequences.
pub enum SpecToken {
    Identifier(Seq<char>),
    BoolLiteral(bool),
    IntLiteral(Seq<char>),
    RealLiteral(Seq<char>),
    StringLiteral(Seq<char>),
    Plus,
    Minus,
    Asterisk,
    Slash,
    Amp,
    Bar,
    Dot,
    LParen,
    RParen,
    LBracket,
    RBracket,
    LBrace,
    RBrace,
    Comma,
    Colon,
    Equal,
    EqualEqual,
    Not,
    NotEqual,
    LessThan,
    LessEqual,
    GreaterThan,
    GreaterEqual,
    Semicolon,
    Bool,
    Int,
    Real,
    String,
    Class,
    Predicate,
    New,
    For,
    This,
    Void,
    Return,
    Fact,
    Goal,
    Or,
    Eof,
}

impl View for Token {
    type V = SpecToken;

    open spec fn view(&self) -> SpecToken {
        match self {
            Token::Identifier(s) => SpecToken::Identifier(s@),
            Token::BoolLiteral(b) => SpecToken::BoolLiteral(*b),
            Token::IntLiteral(s) => SpecToken::IntLiteral(s@),
            Token::RealLiteral(s) => SpecToken::RealLiteral(s@),
            Token::StringLiteral(s) => SpecToken::StringLiteral(s@),
            Token::Plus => SpecToken::Plus,
            Token::Minus => SpecToken::Minus,
            Token::Asterisk => SpecToken::Asterisk,
            Token::Slash => SpecToken::Slash,
            Token::Amp => SpecToken::Amp,
            Token::Bar => SpecToken::Bar,
            Token::Dot => SpecToken::Dot,
            Token::LParen => SpecToken::LParen,
            Token::RParen => SpecToken::RParen,
            Token::LBracket => SpecToken::LBracket,
            Token::RBracket => SpecToken::RBracket,
            Token::LBrace => SpecToken::LBrace,
            Token::RBrace => SpecToken::RBrace,
            Token::Comma => SpecToken::Comma,
            Token::Colon => SpecToken::Colon,
            Token::Equal => SpecToken::Equal,
            Token::EqualEqual => SpecToken::EqualEqual,
            Token::Not => SpecToken::Not,
            Token::NotEqual => SpecToken::NotEqual,
            Token::LessThan => SpecToken::LessThan,
            Token::LessEqual => SpecToken::LessEqual,
            Token::GreaterThan => SpecToken::GreaterThan,
            Token::GreaterEqual => SpecToken::GreaterEqual,
            Token::Semicolon => SpecToken::Semicolon,
            Token::Bool => SpecToken::Bool,
            Token::Int => SpecToken::Int,
            Token::Real => SpecToken::Real,
            Token::String => SpecToken::String,
            Token::Class => SpecToken::Class,
            Token::Predicate => SpecToken::Predicate,
            Token::New => SpecToken::New,
            Token::For => SpecToken::For,
            Token::This => SpecToken::This,
            Token::Void => SpecToken::Void,
            Token::Return => SpecToken::Return,
            Token::Fact => SpecToken::Fact,
            Token::Goal => SpecToken::Goal,
            Token::Or => SpecToken::Or,
            Token::Eof => SpecToken::Eof,
        }
    }
}

/// A position in the source text; lines and columns count from 1.
#[derive(Debug, PartialEq, Clone, Copy)]
pub struct Location {
    pub line: usize,
    pub column: usize,
}

/// An error found while splitting the source text into tokens.
#[derive(Debug, PartialEq, Clone)]
pub enum LexerError {
    InvalidCharacter(char, Location),
    UnterminatedString(Location),
}

/// What one call of the lexer yields: a token between two locations, or an error.
pub type LexItem = Result<(Location, Token, Location), LexerError>;

/// The model of a [`LexItem`].
pub type SpecLexItem = Result<(Location, SpecToken, Location), LexerError>;

pub open spec fn item_view(item: LexItem) -> SpecLexItem {
    match item {
        Ok((a, t, b)) => Ok((a, t@, b)),
        Err(e) => Err(e),
    }
}

pub open spec fn items_view(items: Seq<LexItem>) -> Seq<SpecLexItem> {
    items.map_values(|it: LexItem| item_view(it))
}

/// Whether `c` has Unicode's `White_Space` property: the control characters
/// from tab to carriage return, space, next line, no-break space, ogham space
/// mark, the spaces from en quad to hair space, line and paragraph
/// separators, narrow no-break space, medium mathematical space and
/// ideographic space.
pub open spec fn char_is_whitespace(c: char) -> bool {
    let u = c as u32;
    ||| (0x09 <= u && u <= 0x0D)
    ||| u == 0x20
    ||| u == 0x85
    ||| u == 0xA0
    ||| u == 0x1680
    ||| (0x2000 <= u && u <= 0x200A)
    ||| u == 0x2028
    ||| u == 0x2029
    ||| u == 0x202F
    ||| u == 0x205F
    ||| u == 0x3000
}

/// Whether `c` has Unicode's `White_Space` property (see
/// `char_is_whitespace`), as `char::is_whitespace` tells.
fn is_whitespace(c: char) -> (r: bool)
    ensures
        r == char_is_whitespace(c),
{
    let u = c as u32;
    (0x09 <= u && u <= 0x0D) || u == 0x20 || u == 0x85 || u == 0xA0 || u == 0x1680 || (0x2000 <= u && u <= 0x200A)
        || u == 0x2028 || u == 0x2029 || u == 0x202F || u == 0x205F || u == 0x3000
}

/// Calls `str::chars` and collects the characters: the vector holds
/// exactly the characters of the string, in order.
#[verifier::external_body]
pub(crate) fn str_chars(s: &str) -> (v: Vec<char>)
    ensures
        v@ == s@,
{
    s.chars().collect()
}

/// Collects characters into a `String` (`FromIterator<char>` of `String`):
/// the string holds exactly those characters, in order.
#[verifier::external_body]
pub(crate) fn string_from_chars(v: &Vec<char>) -> (s: String)
    ensures
        s@ == v@,
{
    v.iter().collect()
}

pub open spec fn is_digit(c: char) -> bool {
    '0' <= c && c <= '9'
}

pub open spec fn is_alpha(c: char) -> bool {
    ('a' <= c && c <= 'z') || ('A' <= c && c <= 'Z')
}

pub open spec fn is_ident_char(c: char) -> bool {
    is_alpha(c) || is_digit(c) || c == '_'
}

/// Line and column reached after reading the first `i` characters of `s`.
pub open spec fn line_col(s: Seq<char>, i: int) -> (int, int)
    decreases i,
{
    if i <= 0 {
        (1, 1)
    } else {
        let (l, c) = line_col(s, i - 1);
        if s[i - 1] == '\n' {
            (l + 1, 1)
        } else {
            (l, c + 1)
        }
    }
}

pub open spec fn loc_at(s: Seq<char>, i: int) -> Location {
    Location { line: line_col(s, i).0 as usize, column: line_col(s, i).1 as usize }
}

pub proof fn lemma_line_col_bounds(s: Seq<char>, i: int)
    requires
        0 <= i,
    ensures
        1 <= line_col(s, i).0 <= i + 1,
        1 <= line_col(s, i).1 <= i + 1,
    decreases i,
{
    if i > 0 {
        lemma_line_col_bounds(s, i - 1);
    }
}

/// Index of the first character at or after `i` that is not white space.
pub open spec fn skip_ws(s: Seq<char>, i: int) -> int
    decreases s.len() - i,
{
    if 0 <= i < s.len() && char_is_whitespace(s[i]) {
        skip_ws(s, i + 1)
    } else {
        i
    }
}

/// Index just after the first line break at or after `i`, or the end of `s`.
pub open spec fn line_comment_end(s: Seq<char>, i: int) -> int
    decreases s.len() - i,
{
    if i >= s.len() || i < 0 {
        s.len() as int
    } else if s[i] == '\n' {
        i + 1
    } else {
        line_comment_end(s, i + 1)
    }
}

/// Index just after the `*/` that closes a block comment whose scan reached `i`,
/// `prev` being the character read last; the end of `s` when it is not closed.
pub open spec fn block_comment_end(s: Seq<char>, i: int, prev: char) -> int
    decreases s.len() - i,
{
    if i >= s.len() || i < 0 {
        s.len() as int
    } else if prev == '*' && s[i] == '/' {
        i + 1
    } else {
        block_comment_end(s, i + 1, s[i])
    }
}

pub proof fn lemma_line_comment_end(s: Seq<char>, i: int)
    requires
        0 <= i <= s.len(),
    ensures
        i <= line_comment_end(s, i) <= s.len(),
    decreases s.len() - i,
{
    if i < s.len() && s[i] != '\n' {
        lemma_line_comment_end(s, i + 1);
    }
}

pub proof fn lemma_block_comment_end(s: Seq<char>, i: int, prev: char)
    requires
        0 <= i <= s.len(),
    ensures
        i <= block_comment_end(s, i, prev) <= s.len(),
    decreases s.len() - i,
{
    if i < s.len() && !(prev == '*' && s[i] == '/') {
        lemma_block_comment_end(s, i + 1, s[i]);
    }
}

pub proof fn lemma_skip_ws(s: Seq<char>, i: int)
    requires
        0 <= i <= s.len(),
    ensures
        i <= skip_ws(s, i) <= s.len(),
    decreases s.len() - i,
{
    if i < s.len() && char_is_whitespace(s[i]) {
        lemma_skip_ws(s, i + 1);
    }
}

/// Index of the first character at or after `i` that begins neither white space
/// nor a `//` or `/* */` comment.
pub open spec fn skip_trivia(s: Seq<char>, i: int) -> int
    decreases s.len() - i,
{
    if i < 0 || i > s.len() {
        i
    } else {
        let j = skip_ws(s, i);
        proof {
            lemma_skip_ws(s, i);
        }
        if j + 1 < s.len() && s[j] == '/' && s[j + 1] == '/' {
            proof {
                lemma_line_comment_end(s, j + 2);
            }
            skip_trivia(s, line_comment_end(s, j + 2))
        } else if j + 1 < s.len() && s[j] == '/' && s[j + 1] == '*' {
            proof {
                lemma_block_comment_end(s, j + 2, '\0');
            }
            skip_trivia(s, block_comment_end(s, j + 2, '\0'))
        } else {
            j
        }
    }
}

pub proof fn lemma_skip_trivia(s: Seq<char>, i: int)
    requires
        0 <= i <= s.len(),
    ensures
        i <= skip_trivia(s, i) <= s.len(),
    decreases s.len() - i,
{
    lemma_skip_ws(s, i);
    let j = skip_ws(s, i);
    if j + 1 < s.len() && s[j] == '/' && s[j + 1] == '/' {
        lemma_line_comment_end(s, j + 2);
        lemma_skip_trivia(s, line_comment_end(s, j + 2));
    } else if j + 1 < s.len() && s[j] == '/' && s[j + 1] == '*' {
        lemma_block_comment_end(s, j + 2, '\0');
        lemma_skip_trivia(s, block_comment_end(s, j + 2, '\0'));
    }
}

/// End of the number literal whose scan reached `i`, and whether it holds a
/// decimal point: digits, and at most one `.`.
pub open spec fn scan_number(s: Seq<char>, i: int, seen_dot: bool) -> (int, bool)
    decreases s.len() - i,
{
    if 0 <= i < s.len() && is_digit(s[i]) {
        scan_number(s, i + 1, seen_dot)
    } else if 0 <= i < s.len() && s[i] == '.' && !seen_dot {
        scan_number(s, i + 1, true)
    } else {
        (i, seen_dot)
    }
}

/// End of the identifier whose scan reached `i`.
pub open spec fn ident_end(s: Seq<char>, i: int) -> int
    decreases s.len() - i,
{
    if 0 <= i < s.len() && is_ident_char(s[i]) {
        ident_end(s, i + 1)
    } else {
        i
    }
}

/// The character that the escape `\c` in a string literal stands for.
pub open spec fn escape_chars(c: char) -> Seq<char> {
    if c == 'n' {
        seq!['\n']
    } else if c == 't' {
        seq!['\t']
    } else if c == 'r' {
        seq!['\r']
    } else if c == '\\' {
        seq!['\\']
    } else if c == '"' {
        seq!['"']
    } else {
        seq!['\\', c]
    }
}

/// Contents of a string literal whose scan reached `i` having read `acc`, and
/// the index after its closing quote; `None` when no closing quote follows.
pub open spec fn scan_string(s: Seq<char>, i: int, acc: Seq<char>) -> Option<(Seq<char>, int)>
    decreases s.len() - i,
{
    if i < 0 || i >= s.len() {
        None
    } else if s[i] == '"' {
        Some((acc, i + 1))
    } else if s[i] == '\\' {
        if i + 1 < s.len() {
            scan_string(s, i + 2, acc + escape_chars(s[i + 1]))
        } else {
            None
        }
    } else {
        scan_string(s, i + 1, acc.push(s[i]))
    }
}

/// Reading a string literal: the closing quote ends it; the escapes `\n`,
/// `\t`, `\r`, `\\` and `\"` each stand for the one character they name (a
/// newline, a tab, a carriage return, a backslash, a double quote); any other
/// escape keeps its backslash and its character; a backslash that ends the
/// text leaves the literal unterminated; any other character stands for itself.
pub proof fn law_string_escapes(s: Seq<char>, i: int, acc: Seq<char>)
    requires
        0 <= i < s.len(),
    ensures
        s[i] == '"' ==> scan_string(s, i, acc) == Some((acc, i + 1)),
        s[i] != '"' && s[i] != '\\' ==> scan_string(s, i, acc) == scan_string(s, i + 1, acc.push(s[i])),
        i + 1 < s.len() && s[i] == '\\' && s[i + 1] == 'n' ==> scan_string(s, i, acc) == scan_string(
            s,
            i + 2,
            acc.push('\n'),
        ),
        i + 1 < s.len() && s[i] == '\\' && s[i + 1] == 't' ==> scan_string(s, i, acc) == scan_string(
            s,
            i + 2,
            acc.push('\t'),
        ),
        i + 1 < s.len() && s[i] == '\\' && s[i + 1] == 'r' ==> scan_string(s, i, acc) == scan_string(
            s,
            i + 2,
            acc.push('\r'),
        ),
        i + 1 < s.len() && s[i] == '\\' && s[i + 1] == '\\' ==> scan_string(s, i, acc) == scan_string(
            s,
            i + 2,
            acc.push('\\'),
        ),
        i + 1 < s.len() && s[i] == '\\' && s[i + 1] == '"' ==> scan_string(s, i, acc) == scan_string(
            s,
            i + 2,
            acc.push('"'),
        ),
        i + 1 < s.len() && s[i] == '\\' && s[i + 1] != 'n' && s[i + 1] != 't' && s[i + 1] != 'r'
            && s[i + 1] != '\\' && s[i + 1] != '"' ==> scan_string(s, i, acc) == scan_string(
            s,
            i + 2,
            acc.push('\\').push(s[i + 1]),
        ),
        i + 1 == s.len() && s[i] == '\\' ==> scan_string(s, i, acc) is None,
{
    if i + 1 < s.len() {
        assert(acc + seq!['\\', s[i + 1]] =~= acc.push('\\').push(s[i + 1]));
    }
    assert(acc + seq!['\n'] =~= acc.push('\n'));
    assert(acc + seq!['\t'] =~= acc.push('\t'));
    assert(acc + seq!['\r'] =~= acc.push('\r'));
    assert(acc + seq!['\\'] =~= acc.push('\\'));
    assert(acc + seq!['"'] =~= acc.push('"'));
}

/// A string literal reads as its text: the token that starts at a double
/// quote is the string literal whose text the scan of its characters gives,
/// and it ends after the closing quote.
pub proof fn law_string_token(s: Seq<char>, q: int)
    requires
        0 <= q < s.len(),
        s[q] == '"',
        scan_string(s, q + 1, seq![]) is Some,
    ensures
        token_at(s, q).0 matches Ok((_, SpecToken::StringLiteral(text), _)) && text == (scan_string(s, q + 1, seq![])->0).0,
        token_at(s, q).1 == (scan_string(s, q + 1, seq![])->0).1,
{
}

/// The token a word stands for: a keyword, a boolean literal, or an identifier.
pub open spec fn word_token(w: Seq<char>) -> SpecToken {
    if w == seq!['t', 'r', 'u', 'e'] {
        SpecToken::BoolLiteral(true)
    } else if w == seq!['f', 'a', 'l', 's', 'e'] {
        SpecToken::BoolLiteral(false)
    } else if w == seq!['b', 'o', 'o', 'l'] {
        SpecToken::Bool
    } else if w == seq!['i', 'n', 't'] {
        SpecToken::Int
    } else if w == seq!['r', 'e', 'a', 'l'] {
        SpecToken::Real
    } else if w == seq!['s', 't', 'r', 'i', 'n', 'g'] {
        SpecToken::String
    } else if w == seq!['c', 'l', 'a', 's', 's'] {
        SpecToken::Class
    } else if w == seq!['p', 'r', 'e', 'd', 'i', 'c', 'a', 't', 'e'] {
        SpecToken::Predicate
    } else if w == seq!['n', 'e', 'w'] {
        SpecToken::New
    } else if w == seq!['f', 'o', 'r'] {
        SpecToken::For
    } else if w == seq!['t', 'h', 'i', 's'] {
        SpecToken::This
    } else if w == seq!['v', 'o', 'i', 'd'] {
        SpecToken::Void
    } else if w == seq!['r', 'e', 't', 'u', 'r', 'n'] {
        SpecToken::Return
    } else if w == seq!['f', 'a', 'c', 't'] {
        SpecToken::Fact
    } else if w == seq!['g', 'o', 'a', 'l'] {
        SpecToken::Goal
    } else if w == seq!['o', 'r'] {
        SpecToken::Or
    } else {
        SpecToken::Identifier(w)
    }
}

/// The token made of one punctuation character, if `c` is one.
pub open spec fn single_char_token(c: char) -> Option<SpecToken> {
    if c == '+' {
        Some(SpecToken::Plus)
    } else if c == '-' {
        Some(SpecToken::Minus)
    } else if c == '*' {
        Some(SpecToken::Asterisk)
    } else if c == '/' {
        Some(SpecToken::Slash)
    } else if c == '&' {
        Some(SpecToken::Amp)
    } else if c == '|' {
        Some(SpecToken::Bar)
    } else if c == '(' {
        Some(SpecToken::LParen)
    } else if c == ')' {
        Some(SpecToken::RParen)
    } else if c == '[' {
        Some(SpecToken::LBracket)
    } else if c == ']' {
        Some(SpecToken::RBracket)
    } else if c == '{' {
        Some(SpecToken::LBrace)
    } else if c == '}' {
        Some(SpecToken::RBrace)
    } else if c == ',' {
        Some(SpecToken::Comma)
    } else if c == ':' {
        Some(SpecToken::Colon)
    } else if c == ';' {
        Some(SpecToken::Semicolon)
    } else {
        None
    }
}

/// The token of a comparison character `c` (one of `= ! < >`), alone or followed by `=`.
pub open spec fn compare_token(c: char, followed_by_eq: bool) -> SpecToken {
    if c == '=' {
        if followed_by_eq { SpecToken::EqualEqual } else { SpecToken::Equal }
    } else if c == '!' {
        if followed_by_eq { SpecToken::NotEqual } else { SpecToken::Not }
    } else if c == '<' {
        if followed_by_eq { SpecToken::LessEqual } else { SpecToken::LessThan }
    } else {
        if followed_by_eq { SpecToken::GreaterEqual } else { SpecToken::GreaterThan }
    }
}

pub open spec fn is_compare_char(c: char) -> bool {
    c == '=' || c == '!' || c == '<' || c == '>'
}

/// The number token that starts at `q`, and its end.
pub open spec fn number_at(s: Seq<char>, q: int) -> (SpecLexItem, int) {
    let (e, dot) = scan_number(s, q, false);
    let text = s.subrange(q, e);
    (Ok((loc_at(s, q), if dot { SpecToken::RealLiteral(text) } else { SpecToken::IntLiteral(text) }, loc_at(s, e))), e)
}

/// What the lexer yields for the token that starts at index `q` (after white
/// space and comments), and the index where it stops reading.
pub open spec fn token_at(s: Seq<char>, q: int) -> (SpecLexItem, int) {
    let start = loc_at(s, q);
    if q >= s.len() {
        (Ok((start, SpecToken::Eof, start)), q)
    } else {
        let c = s[q];
        if single_char_token(c) is Some {
            (Ok((start, single_char_token(c)->0, loc_at(s, q + 1))), q + 1)
        } else if c == '.' {
            if q + 1 < s.len() && is_digit(s[q + 1]) {
                number_at(s, q)
            } else {
                (Ok((start, SpecToken::Dot, loc_at(s, q + 1))), q + 1)
            }
        } else if is_compare_char(c) {
            if q + 1 < s.len() && s[q + 1] == '=' {
                (Ok((start, compare_token(c, true), loc_at(s, q + 2))), q + 2)
            } else {
                (Ok((start, compare_token(c, false), loc_at(s, q + 1))), q + 1)
            }
        } else if c == '"' {
            match scan_string(s, q + 1, seq![]) {
                Some((text, e)) => (Ok((start, SpecToken::StringLiteral(text), loc_at(s, e))), e),
                None => (Err(LexerError::UnterminatedString(start)), s.len() as int),
            }
        } else if is_digit(c) {
            number_at(s, q)
        } else if is_alpha(c) || c == '_' {
            let e = ident_end(s, q);
            (Ok((start, word_token(s.subrange(q, e)), loc_at(s, e))), e)
        } else {
            (Err(LexerError::InvalidCharacter(c, start)), q + 1)
        }
    }
}

/// What one call of the lexer yields when it has read the first `p` characters of `s`,
/// and how many characters it has read afterwards.
pub open spec fn lex_step(s: Seq<char>, p: int) -> (SpecLexItem, int) {
    token_at(s, skip_trivia(s, p))
}

pub open spec fn is_eof_item(item: SpecLexItem) -> bool {
    item matches Ok((_, SpecToken::Eof, _))
}

pub proof fn lemma_scan_number(s: Seq<char>, i: int, seen: bool)
    requires
        0 <= i <= s.len(),
    ensures
        i <= scan_number(s, i, seen).0 <= s.len(),
    decreases s.len() - i,
{
    if i < s.len() && is_digit(s[i]) {
        lemma_scan_number(s, i + 1, seen);
    } else if i < s.len() && s[i] == '.' && !seen {
        lemma_scan_number(s, i + 1, true);
    }
}

pub proof fn lemma_ident_end(s: Seq<char>, i: int)
    requires
        0 <= i <= s.len(),
    ensures
        i <= ident_end(s, i) <= s.len(),
    decreases s.len() - i,
{
    if i < s.len() && is_ident_char(s[i]) {
        lemma_ident_end(s, i + 1);
    }
}

pub proof fn lemma_scan_string(s: Seq<char>, i: int, acc: Seq<char>)
    requires
        0 <= i <= s.len(),
    ensures
        scan_string(s, i, acc) matches Some((_, e)) ==> i < e <= s.len(),
    decreases s.len() - i,
{
    if i < s.len() && s[i] != '"' {
        if s[i] == '\\' {
            if i + 1 < s.len() {
                lemma_scan_string(s, i + 2, acc + escape_chars(s[i + 1]));
            }
        } else {
            lemma_scan_string(s, i + 1, acc.push(s[i]));
        }
    }
}

/// Each call of the lexer that does not reach the end reads at least one character.
pub proof fn lemma_lex_step_progress(s: Seq<char>, p: int)
    requires
        0 <= p <= s.len(),
    ensures
        p <= lex_step(s, p).1 <= s.len(),
        !is_eof_item(lex_step(s, p).0) ==> p < lex_step(s, p).1,
        is_eof_item(lex_step(s, p).0) ==> lex_step(s, p).1 == s.len(),
{
    lemma_skip_trivia(s, p);
    let q = skip_trivia(s, p);
    if q < s.len() {
        lemma_scan_number(s, q, false);
        lemma_ident_end(s, q);
        lemma_scan_string(s, q + 1, seq![]);
        let c = s[q];
        if c == '.' && q + 1 < s.len() && is_digit(s[q + 1]) {
            assert(scan_number(s, q, false) == scan_number(s, q + 1, true));
            lemma_scan_number(s, q + 1, true);
        }
        if is_digit(c) {
            lemma_scan_number(s, q + 1, false);
        }
        if is_alpha(c) || c == '_' {
            lemma_ident_end(s, q + 1);
        }
    }
}

/// The whole sequence of items that the lexer yields from index `p` on, up to
/// (and without) the end of input.
pub open spec fn lex_items(s: Seq<char>, p: int) -> Seq<SpecLexItem>
    decreases s.len() - p,
{
    if p < 0 || p > s.len() {
        seq![]
    } else {
        let (item, e) = lex_step(s, p);
        if is_eof_item(item) {
            seq![]
        } else {
            proof {
                lemma_lex_step_progress(s, p);
            }
            seq![item] + lex_items(s, e)
        }
    }
}

/// The items that the lexer yields for the source text `s`.
pub open spec fn tokenize_spec(s: Seq<char>) -> Seq<SpecLexItem> {
    lex_items(s, 0)
}

/// Splits RiDDLe source text into tokens, one call at a time.
pub struct Lexer {
    input: Vec<char>,
    pos: usize,
    current_loc: Location,
}

fn is_word(w: &Vec<char>, k: &[char]) -> (r: bool)
    ensures
        r == (w@ == k@),
{
    if w.len() != k.len() {
        return false;
    }
    let mut i: usize = 0;
    while i < w.len()
        invariant
            w.len() == k.len(),
            i <= w.len(),
            forall|j: int| 0 <= j < i ==> w@[j] == k@[j],
        decreases w.len() - i,
    {
        if w[i] != k[i] {
            return false;
        }
        i = i + 1;
    }
    assert(w@ =~= k@);
    true
}

fn word_to_token(w: &Vec<char>) -> (t: Token)
    ensures
        t@ == word_token(w@),
{
    if is_word(w, &['t', 'r', 'u', 'e']) {
        Token::BoolLiteral(true)
    } else if is_word(w, &['f', 'a', 'l', 's', 'e']) {
        Token::BoolLiteral(false)
    } else if is_word(w, &['b', 'o', 'o', 'l']) {
        Token::Bool
    } else if is_word(w, &['i', 'n', 't']) {
        Token::Int
    } else if is_word(w, &['r', 'e', 'a', 'l']) {
        Token::Real
    } else if is_word(w, &['s', 't', 'r', 'i', 'n', 'g']) {
        Token::String
    } else if is_word(w, &['c', 'l', 'a', 's', 's']) {
        Token::Class
    } else if is_word(w, &['p', 'r', 'e', 'd', 'i', 'c', 'a', 't', 'e']) {
        Token::Predicate
    } else if is_word(w, &['n', 'e', 'w']) {
        Token::New
    } else if is_word(w, &['f', 'o', 'r']) {
        Token::For
    } else if is_word(w, &['t', 'h', 'i', 's']) {
        Token::This
    } else if is_word(w, &['v', 'o', 'i', 'd']) {
        Token::Void
    } else if is_word(w, &['r', 'e', 't', 'u', 'r', 'n']) {
        Token::Return
    } else if is_word(w, &['f', 'a', 'c', 't']) {
        Token::Fact
    } else if is_word(w, &['g', 'o', 'a', 'l']) {
        Token::Goal
    } else if is_word(w, &['o', 'r']) {
        Token::Or
    } else {
        Token::Identifier(string_from_chars(w))
    }
}

fn single_char(c: char) -> (t: Option<Token>)
    ensures
        match t {
            Some(t) => single_char_token(c) == Some(t@),
            None => single_char_token(c) is None,
        },
{
    if c == '+' {
        Some(Token::Plus)
    } else if c == '-' {
        Some(Token::Minus)
    } else if c == '*' {
        Some(Token::Asterisk)
    } else if c == '/' {
        Some(Token::Slash)
    } else if c == '&' {
        Some(Token::Amp)
    } else if c == '|' {
        Some(Token::Bar)
    } else if c == '(' {
        Some(Token::LParen)
    } else if c == ')' {
        Some(Token::RParen)
    } else if c == '[' {
        Some(Token::LBracket)
    } else if c == ']' {
        Some(Token::RBracket)
    } else if c == '{' {
        Some(Token::LBrace)
    } else if c == '}' {
        Some(Token::RBrace)
    } else if c == ',' {
        Some(Token::Comma)
    } else if c == ':' {
        Some(Token::Colon)
    } else if c == ';' {
        Some(Token::Semicolon)
    } else {
        None
    }
}

fn compare(c: char, followed_by_eq: bool) -> (t: Token)
    ensures
        t@ == compare_token(c, followed_by_eq),
{
    if c == '=' {
        if followed_by_eq { Token::EqualEqual } else { Token::Equal }
    } else if c == '!' {
        if followed_by_eq { Token::NotEqual } else { Token::Not }
    } else if c == '<' {
        if followed_by_eq { Token::LessEqual } else { Token::LessThan }
    } else {
        if followed_by_eq { Token::GreaterEqual } else { Token::GreaterThan }
    }
}

impl Lexer {
    /// The lexer's invariant: it has read `pos` characters and its location is
    /// the one reached by reading them.
    pub closed spec fn wf(&self) -> bool {
        &&& self.pos <= self.input.len()
        &&& self.input.len() < usize::MAX
        &&& self.current_loc == loc_at(self.input@, self.pos as int)
    }

    /// The source text, as characters.
    pub closed spec fn text(&self) -> Seq<char> {
        self.input@
    }

    /// How many characters have been read.
    pub closed spec fn position(&self) -> int {
        self.pos as int
    }

    pub proof fn lemma_wf(&self)
        requires
            self.wf(),
        ensures
            0 <= self.position() <= self.text().len(),
            self.text().len() < usize::MAX,
    {
    }

    pub fn new(input: &str) -> (lexer: Self)
        requires
            input@.len() < usize::MAX,
        ensures
            lexer.wf(),
            lexer.text() == input@,
            lexer.position() == 0,
    {
        Lexer { input: str_chars(input), pos: 0, current_loc: Location { line: 1, column: 1 } }
    }

    proof fn lemma_loc_step(&self)
        requires
            self.wf(),
            self.pos < self.input.len(),
        ensures
            ({
                let (l, c) = line_col(self.input@, self.pos as int);
                line_col(self.input@, self.pos + 1) == if self.input@[self.pos as int] == '\n' {
                    (l + 1, 1int)
                } else {
                    (l, c + 1)
                }
            }),
            line_col(self.input@, self.pos + 1).0 <= self.pos + 2,
            line_col(self.input@, self.pos + 1).1 <= self.pos + 2,
            line_col(self.input@, self.pos as int).0 >= 1,
            line_col(self.input@, self.pos as int).1 >= 1,
    {
        lemma_line_col_bounds(self.input@, self.pos + 1);
        lemma_line_col_bounds(self.input@, self.pos as int);
    }

    fn peek_char(&self, ahead: usize) -> (c: Option<char>)
        requires
            self.wf(),
        ensures
            self.pos + ahead < self.input.len() ==> c == Some(self.input@[self.pos + ahead]),
            self.pos + ahead >= self.input.len() ==> c is None,
    {
        if ahead < self.input.len() - self.pos {
            Some(self.input[self.pos + ahead])
        } else {
            None
        }
    }

    fn advance(&mut self) -> (c: Option<char>)
        requires
            old(self).wf(),
        ensures
            final(self).wf(),
            final(self).input == old(self).input,
            old(self).pos < old(self).input.len() ==> c == Some(old(self).input@[old(self).pos as int])
                && final(self).pos == old(self).pos + 1,
            old(self).pos >= old(self).input.len() ==> c is None && final(self).pos == old(self).pos,
    {
        if self.pos < self.input.len() {
            let ch = self.input[self.pos];
            proof {
                self.lemma_loc_step();
            }
            if ch == '\n' {
                self.current_loc.line = self.current_loc.line + 1;
                self.current_loc.column = 1;
            } else {
                self.current_loc.column = self.current_loc.column + 1;
            }
            self.pos = self.pos + 1;
            Some(ch)
        } else {
            None
        }
    }

    fn skip_whitespace(&mut self)
        requires
            old(self).wf(),
        ensures
            final(self).wf(),
            final(self).input == old(self).input,
            final(self).pos == skip_ws(old(self).input@, old(self).pos as int),
    {
        while self.pos < self.input.len()
            invariant
                self.wf(),
                self.input == old(self).input,
                old(self).pos <= self.pos,
                skip_ws(self.input@, self.pos as int) == skip_ws(old(self).input@, old(self).pos as int),
            ensures
                self.wf(),
                self.input == old(self).input,
                self.pos == skip_ws(old(self).input@, old(self).pos as int),
            decreases self.input.len() - self.pos,
        {
            let ch = self.input[self.pos];
            if is_whitespace(ch) {
                self.advance();
            } else {
                break;
            }
        }
    }

    fn skip_line_comment(&mut self)
        requires
            old(self).wf(),
        ensures
            final(self).wf(),
            final(self).input == old(self).input,
            final(self).pos == line_comment_end(old(self).input@, old(self).pos as int),
    {
        while self.pos < self.input.len()
            invariant_except_break
                line_comment_end(self.input@, self.pos as int) == line_comment_end(
                    old(self).input@,
                    old(self).pos as int,
                ),
            invariant
                self.wf(),
                self.input == old(self).input,
            ensures
                self.wf(),
                self.input == old(self).input,
                self.pos == line_comment_end(old(self).input@, old(self).pos as int),
            decreases self.input.len() - self.pos,
        {
            let ch = self.advance();
            if ch == Some('\n') {
                break;
            }
        }
    }

    fn skip_block_comment(&mut self)
        requires
            old(self).wf(),
        ensures
            final(self).wf(),
            final(self).input == old(self).input,
            final(self).pos == block_comment_end(old(self).input@, old(self).pos as int, '\0'),
    {
        let mut prev = '\0';
        while self.pos < self.input.len()
            invariant_except_break
                block_comment_end(self.input@, self.pos as int, prev) == block_comment_end(
                    old(self).input@,
                    old(self).pos as int,
                    '\0',
                ),
            invariant
                self.wf(),
                self.input == old(self).input,
            ensures
                self.wf(),
                self.input == old(self).input,
                self.pos == block_comment_end(old(self).input@, old(self).pos as int, '\0'),
            decreases self.input.len() - self.pos,
        {
            let ch = self.input[self.pos];
            self.advance();
            if prev == '*' && ch == '/' {
                break;
            }
            prev = ch;
        }
    }

    fn skip_whitespace_and_comments(&mut self)
        requires
            old(self).wf(),
        ensures
            final(self).wf(),
            final(self).input == old(self).input,
            final(self).pos == skip_trivia(old(self).input@, old(self).pos as int),
    {
        loop
            invariant_except_break
                skip_trivia(self.input@, self.pos as int) == skip_trivia(
                    old(self).input@,
                    old(self).pos as int,
                ),
            invariant
                self.wf(),
                self.input == old(self).input,
            ensures
                self.wf(),
                self.input == old(self).input,
                self.pos == skip_trivia(old(self).input@, old(self).pos as int),
            decreases self.input.len() - self.pos,
        {
            let ghost p0 = self.pos as int;
            proof {
                lemma_skip_ws(self.input@, p0);
            }
            self.skip_whitespace();
            let c0 = self.peek_char(0);
            let c1 = self.peek_char(1);
            if c0 == Some('/') && c1 == Some('/') {
                self.advance();
                self.advance();
                proof {
                    lemma_line_comment_end(self.input@, self.pos as int);
                }
                self.skip_line_comment();
            } else if c0 == Some('/') && c1 == Some('*') {
                self.advance();
                self.advance();
                proof {
                    lemma_block_comment_end(self.input@, self.pos as int, '\0');
                }
                self.skip_block_comment();
            } else {
                break;
            }
        }
    }

    fn read_number(&mut self) -> (r: LexItem)
        requires
            old(self).wf(),
        ensures
            final(self).wf(),
            final(self).input == old(self).input,
            (item_view(r), final(self).pos as int) == number_at(old(self).input@, old(self).pos as int),
    {
        let start_loc = self.current_loc;
        let mut number: Vec<char> = Vec::new();
        let mut has_decimal_point = false;
        while self.pos < self.input.len()
            invariant
                self.wf(),
                self.input == old(self).input,
                old(self).pos <= self.pos,
                number@ == self.input@.subrange(old(self).pos as int, self.pos as int),
                scan_number(self.input@, self.pos as int, has_decimal_point) == scan_number(
                    old(self).input@,
                    old(self).pos as int,
                    false,
                ),
            ensures
                self.wf(),
                self.input == old(self).input,
                number@ == self.input@.subrange(old(self).pos as int, self.pos as int),
                scan_number(old(self).input@, old(self).pos as int, false) == (self.pos as int, has_decimal_point),
            decreases self.input.len() - self.pos,
        {
            let ch = self.input[self.pos];
            if '0' <= ch && ch <= '9' {
                number.push(ch);
                self.advance();
            } else if ch == '.' && !has_decimal_point {
                has_decimal_point = true;
                number.push(ch);
                self.advance();
            } else {
                break;
            }
            assert(number@ =~= self.input@.subrange(old(self).pos as int, self.pos as int));
        }
        let text = string_from_chars(&number);
        if has_decimal_point {
            Ok((start_loc, Token::RealLiteral(text), self.current_loc))
        } else {
            Ok((start_loc, Token::IntLiteral(text), self.current_loc))
        }
    }

    fn read_identifier(&mut self) -> (r: LexItem)
        requires
            old(self).wf(),
        ensures
            final(self).wf(),
            final(self).input == old(self).input,
            final(self).pos == ident_end(old(self).input@, old(self).pos as int),
            item_view(r) == Ok::<_, LexerError>(
                (
                    loc_at(old(self).input@, old(self).pos as int),
                    word_token(old(self).input@.subrange(old(self).pos as int, final(self).pos as int)),
                    loc_at(old(self).input@, final(self).pos as int),
                ),
            ),
    {
        let start_loc = self.current_loc;
        let mut identifier: Vec<char> = Vec::new();
        while self.pos < self.input.len()
            invariant
                self.wf(),
                self.input == old(self).input,
                old(self).pos <= self.pos,
                identifier@ == self.input@.subrange(old(self).pos as int, self.pos as int),
                ident_end(self.input@, self.pos as int) == ident_end(old(self).input@, old(self).pos as int),
            ensures
                self.wf(),
                self.input == old(self).input,
                identifier@ == self.input@.subrange(old(self).pos as int, self.pos as int),
                ident_end(old(self).input@, old(self).pos as int) == self.pos,
            decreases self.input.len() - self.pos,
        {
            let ch = self.input[self.pos];
            if ('a' <= ch && ch <= 'z') || ('A' <= ch && ch <= 'Z') || ('0' <= ch && ch <= '9') || ch == '_' {
                identifier.push(ch);
                self.advance();
            } else {
                break;
            }
            assert(identifier@ =~= self.input@.subrange(old(self).pos as int, self.pos as int));
        }
        Ok((start_loc, word_to_token(&identifier), self.current_loc))
    }

    fn read_string(&mut self) -> (r: LexItem)
        requires
            old(self).wf(),
            old(self).pos < old(self).input.len(),
        ensures
            final(self).wf(),
            final(self).input == old(self).input,
            ({
                let s = old(self).input@;
                let q = old(self).pos as int;
                match scan_string(s, q + 1, seq![]) {
                    Some((text, e)) => item_view(r) == Ok::<_, LexerError>(
                        (loc_at(s, q), SpecToken::StringLiteral(text), loc_at(s, e)),
                    ) && final(self).pos == e,
                    None => item_view(r) == Err::<(Location, SpecToken, Location), _>(
                        LexerError::UnterminatedString(loc_at(s, q)),
                    ) && final(self).pos == s.len(),
                }
            }),
    {
        let start_loc = self.current_loc;
        self.advance();
        let mut string: Vec<char> = Vec::new();
        while self.pos < self.input.len()
            invariant
                self.wf(),
                self.input == old(self).input,
                old(self).pos < self.pos,
                start_loc == loc_at(old(self).input@, old(self).pos as int),
                scan_string(self.input@, self.pos as int, string@) == scan_string(
                    old(self).input@,
                    old(self).pos + 1,
                    seq![],
                ),
            decreases self.input.len() - self.pos,
        {
            let ch = self.input[self.pos];
            if ch == '"' {
                self.advance();
                let text = string_from_chars(&string);
                assert(scan_string(self.input@, self.pos - 1, string@) == Some((string@, self.pos as int)));
                return Ok((start_loc, Token::StringLiteral(text), self.current_loc));
            } else if ch == '\\' {
                self.advance();
                let esc = self.peek_char(0);
                match esc {
                    Some(e) => {
                        let ghost before = string@;
                        if e == 'n' {
                            string.push('\n');
                        } else if e == 't' {
                            string.push('\t');
                        } else if e == 'r' {
                            string.push('\r');
                        } else if e == '\\' {
                            string.push('\\');
                        } else if e == '"' {
                            string.push('"');
                        } else {
                            string.push('\\');
                            string.push(e);
                        }
                        assert(string@ =~= before + escape_chars(e));
                        self.advance();
                    },
                    None => {},
                }
            } else {
                string.push(ch);
                self.advance();
            }
        }
        Err(LexerError::UnterminatedString(start_loc))
    }

    /// Reads the next token, skipping white space and comments first.
    pub fn next_token(&mut self) -> (r: LexItem)
        requires
            old(self).wf(),
        ensures
            final(self).wf(),
            final(self).text() == old(self).text(),
            (item_view(r), final(self).position()) == lex_step(old(self).text(), old(self).position()),
    {
        self.skip_whitespace_and_comments();
        proof {
            lemma_line_col_bounds(self.input@, self.pos as int);
        }
        let start_loc = self.current_loc;
        let ghost q = self.pos as int;
        if self.pos >= self.input.len() {
            return Ok((start_loc, Token::Eof, self.current_loc));
        }
        let ch = self.input[self.pos];
        match single_char(ch) {
            Some(t) => {
                self.advance();
                return Ok((start_loc, t, self.current_loc));
            },
            None => {},
        }
        if ch == '.' {
            let next = self.peek_char(1);
            match next {
                Some(d) => {
                    if '0' <= d && d <= '9' {
                        return self.read_number();
                    }
                },
                None => {},
            }
            self.advance();
            Ok((start_loc, Token::Dot, self.current_loc))
        } else if ch == '=' || ch == '!' || ch == '<' || ch == '>' {
            self.advance();
            let next = self.peek_char(0);
            if next == Some('=') {
                self.advance();
                Ok((start_loc, compare(ch, true), self.current_loc))
            } else {
                Ok((start_loc, compare(ch, false), self.current_loc))
            }
        } else if ch == '"' {
            self.read_string()
        } else if '0' <= ch && ch <= '9' {
            self.read_number()
        } else if ('a' <= ch && ch <= 'z') || ('A' <= ch && ch <= 'Z') || ch == '_' {
            self.read_identifier()
        } else {
            self.advance();
            Err(LexerError::InvalidCharacter(ch, start_loc))
        }
    }

    /// Yields the next token or error, or `None` once the end of input is reached.
    pub fn next(&mut self) -> (r: Option<LexItem>)
        requires
            old(self).wf(),
        ensures
            final(self).wf(),
            final(self).text() == old(self).text(),
            ({
                let (item, e) = lex_step(old(self).text(), old(self).position());
                if is_eof_item(item) {
                    r is None && final(self).position() == e
                } else {
                    r matches Some(it) && item_view(it) == item && final(self).position() == e
                }
            }),
    {
        let r = self.next_token();
        match r {
            Ok((_, Token::Eof, _)) => None,
            other => Some(other),
        }
    }
}

} // verus!

//! The RiDDLe grammar, as functions from the items a parser has not read yet
//! to a result (or `None` for a syntax error) and the items left afterwards.
use crate::language::{
    Name, Path, SpecClassDef, SpecConstructorDef, SpecExpr, SpecFunctionDef, SpecPredicateDef,
    SpecProblemDef, SpecStatement,
};
use crate::lexer::{LexerError, Location, SpecLexItem, SpecToken, Token};
use vstd::prelude::*;

verus! {

/// The items a parser has not read yet.
pub type Items = Seq<SpecLexItem>;

pub open spec fn tok_of(item: SpecLexItem) -> SpecToken {
    item->Ok_0.1
}

/// Index of the first lexer error among the items `i..=n`, if any.
pub open spec fn first_err(r: Items, i: int, n: int) -> Option<int>
    decreases r.len() - i,
{
    if i < 0 || i > n || i >= r.len() {
        None
    } else if r[i] is Err {
        Some(i)
    } else {
        first_err(r, i + 1, n)
    }
}

pub proof fn lemma_first_err_found(r: Items, i: int, k: int, n: int)
    requires
        0 <= i <= k <= n,
        k < r.len(),
        forall|j: int| i <= j < k ==> #[trigger] r[j] is Ok,
        r[k] is Err,
    ensures
        first_err(r, i, n) == Some(k),
    decreases k - i,
{
    if i < k {
        lemma_first_err_found(r, i + 1, k, n);
    }
}

pub proof fn lemma_first_err_none(r: Items, i: int, n: int)
    requires
        0 <= i,
        forall|j: int| i <= j <= n && j < r.len() ==> #[trigger] r[j] is Ok,
    ensures
        first_err(r, i, n) is None,
    decreases r.len() - i,
{
    if i <= n && i < r.len() {
        lemma_first_err_none(r, i + 1, n);
    }
}

pub proof fn lemma_first_err_range(r: Items, i: int, n: int)
    ensures
        first_err(r, i, n) matches Some(k) ==> 0 <= i <= k <= n && k < r.len() && r[k] is Err,
    decreases r.len() - i,
{
    if !(i < 0 || i > n || i >= r.len()) && !(r[i] is Err) {
        lemma_first_err_range(r, i + 1, n);
    }
}

/// Looking `n` items ahead: the token there, or `None` when the input ends
/// first or a lexer error is met on the way (that error item is then dropped).
#[verifier::opaque]
pub open spec fn peek_at(r: Items, n: int) -> (Option<SpecToken>, Items) {
    match first_err(r, 0, n) {
        Some(k) => (None, r.remove(k)),
        None => if 0 <= n < r.len() {
            (Some(tok_of(r[n])), r)
        } else {
            (None, r)
        },
    }
}

/// Consuming the next item: its token, or `None` at the end or for a lexer error.
#[verifier::opaque]
pub open spec fn next_at(r: Items) -> (Option<SpecToken>, Items) {
    if r.len() == 0 {
        (None, r)
    } else {
        (if r[0] is Ok { Some(tok_of(r[0])) } else { None }, r.drop_first())
    }
}

/// Consuming the next item, which must be the token `k`.
#[verifier::opaque]
pub open spec fn expect_at(r: Items, k: SpecToken) -> Option<Items> {
    let (t, r1) = next_at(r);
    if t == Some(k) {
        Some(r1)
    } else {
        None
    }
}

/// A successful look at the next item changes nothing, and consuming that
/// item gives the same token.
pub proof fn lemma_peek_then_next(r: Items)
    requires
        peek_at(r, 0).0 is Some,
    ensures
        peek_at(r, 0).1 == r,
        next_at(r).0 == peek_at(r, 0).0,
        next_at(r).1.len() < r.len(),
{
    reveal(peek_at);
    reveal(next_at);
    reveal_with_fuel(first_err, 2);
}

pub open spec fn peek_view(r: Result<Option<&(Location, Token, Location)>, LexerError>) -> Option<
    SpecToken,
> {
    match r {
        Ok(Some(x)) => Some(x.1@),
        _ => None,
    }
}

pub open spec fn next_view(r: Result<Option<(Location, Token, Location)>, LexerError>) -> Option<
    SpecToken,
> {
    match r {
        Ok(Some(x)) => Some(x.1@),
        _ => None,
    }
}

/// Tokens without a text payload.
pub open spec fn is_plain(t: SpecToken) -> bool {
    !(t is Identifier || t is BoolLiteral || t is IntLiteral || t is RealLiteral || t is StringLiteral)
}

pub open spec fn name_bool() -> Name {
    seq!['b', 'o', 'o', 'l']
}

pub open spec fn name_int() -> Name {
    seq!['i', 'n', 't']
}

pub open spec fn name_real() -> Name {
    seq!['r', 'e', 'a', 'l']
}

pub open spec fn name_string() -> Name {
    seq!['s', 't', 'r', 'i', 'n', 'g']
}

pub open spec fn name_this() -> Name {
    seq!['t', 'h', 'i', 's']
}

/// The type name that a built-in type keyword stands for.
pub open spec fn builtin_type(t: SpecToken) -> Option<Name> {
    match t {
        SpecToken::Bool => Some(name_bool()),
        SpecToken::Int => Some(name_int()),
        SpecToken::Real => Some(name_real()),
        SpecToken::String => Some(name_string()),
        _ => None,
    }
}

/// `(. name)*` after the first name of a path.
#[verifier::opaque]
pub open spec fn dotted_tail_at(r: Items, ids: Path) -> (Option<Path>, Items)
    decreases r.len(),
{
    let (p, r1) = peek_at(r, 0);
    if p == Some(SpecToken::Dot) {
        match expect_at(r1, SpecToken::Dot) {
            None => (None, r1),
            Some(r2) => {
                let (t, r3) = next_at(r2);
                match t {
                    Some(SpecToken::Identifier(x)) => if r3.len() < r.len() {
                        dotted_tail_at(r3, ids.push(x))
                    } else {
                        (None, r3)
                    },
                    _ => (None, r3),
                }
            },
        }
    } else {
        (Some(ids), r1)
    }
}

/// A dotted path only grows.
pub proof fn lemma_dotted_tail_len(r: Items, ids: Path)
    ensures
        dotted_tail_at(r, ids).0 matches Some(p) ==> p.len() >= ids.len(),
    decreases r.len(),
{
    reveal_with_fuel(dotted_tail_at, 1);
    let (p, r1) = peek_at(r, 0);
    if p == Some(SpecToken::Dot) {
        match expect_at(r1, SpecToken::Dot) {
            None => {},
            Some(r2) => {
                let (t, r3) = next_at(r2);
                match t {
                    Some(SpecToken::Identifier(x)) => {
                        if r3.len() < r.len() {
                            lemma_dotted_tail_len(r3, ids.push(x));
                        }
                    },
                    _ => {},
                }
            },
        }
    }
}

/// A type: a built-in type keyword, or a dotted path of names.
#[verifier::opaque]
pub open spec fn type_name_at(r: Items) -> (Option<Path>, Items) {
    let (t, r1) = next_at(r);
    match t {
        Some(SpecToken::Identifier(n)) => dotted_tail_at(r1, seq![n]),
        Some(t) => match builtin_type(t) {
            Some(n) => (Some(seq![n]), r1),
            None => (None, r1),
        },
        None => (None, r1),
    }
}

/// The value of a real literal `whole.fraction`: the number `wholefraction`
/// over `1` followed by as many zeros as the fraction has digits; an error
/// when the fraction is empty.
pub open spec fn first_dot(v: Seq<char>, i: int) -> int
    decreases v.len() - i,
{
    if i < 0 || i >= v.len() {
        v.len() as int
    } else if v[i] == '.' {
        i
    } else {
        first_dot(v, i + 1)
    }
}

pub open spec fn zeros(n: nat) -> Seq<char> {
    Seq::new(n, |i: int| '0')
}

pub open spec fn real_literal(v: Seq<char>) -> Option<SpecExpr> {
    let k = first_dot(v, 0);
    if k >= v.len() {
        Some(SpecExpr::Int(v))
    } else {
        let whole = v.subrange(0, k);
        let fraction = v.subrange(k + 1, v.len() as int);
        if fraction.len() == 0 {
            None
        } else {
            Some(SpecExpr::Real(whole + fraction, seq!['1'] + zeros(fraction.len())))
        }
    }
}

/// The expression of a literal token.
pub open spec fn literal_expr(t: SpecToken) -> Option<SpecExpr> {
    match t {
        SpecToken::BoolLiteral(v) => Some(SpecExpr::Bool(v)),
        SpecToken::IntLiteral(v) => Some(SpecExpr::Int(v)),
        SpecToken::RealLiteral(v) => real_literal(v),
        SpecToken::StringLiteral(v) => Some(SpecExpr::String(v)),
        _ => None,
    }
}

/// One term stands for itself; several make a disjunction.
pub open spec fn or_of(x: (Option<Seq<SpecExpr>>, Items)) -> (Option<SpecExpr>, Items) {
    match x.0 {
        None => (None, x.1),
        Some(ts) => (Some(if ts.len() == 1 { ts[0] } else { SpecExpr::Or { terms: ts } }), x.1),
    }
}

/// One term stands for itself; several make a conjunction.
pub open spec fn and_of(x: (Option<Seq<SpecExpr>>, Items)) -> (Option<SpecExpr>, Items) {
    match x.0 {
        None => (None, x.1),
        Some(ts) => (Some(if ts.len() == 1 { ts[0] } else { SpecExpr::And { terms: ts } }), x.1),
    }
}

/// One term stands for itself; several make a sum.
pub open spec fn sum_of(x: (Option<Seq<SpecExpr>>, Items)) -> (Option<SpecExpr>, Items) {
    match x.0 {
        None => (None, x.1),
        Some(ts) => (Some(if ts.len() == 1 { ts[0] } else { SpecExpr::Sum { terms: ts } }), x.1),
    }
}

// ---------------------------------------------------------------------------
// Expressions. Each function returns its result and the items left; the
// second component of `decreases` orders the functions that may call each
// other on the same items.
// ---------------------------------------------------------------------------

/// expression := or-expression
#[verifier::opaque]
pub open spec fn expr_at(r: Items) -> (Option<SpecExpr>, Items)
    decreases r.len(), 13nat,
{
    or_at(r)
}

/// or-expression := and-expression ('|' and-expression)*
#[verifier::opaque]
pub open spec fn or_at(r: Items) -> (Option<SpecExpr>, Items)
    decreases r.len(), 12nat,
{
    let (t, r1) = and_at(r);
    match t {
        None => (None, r1),
        Some(t) => if r1.len() <= r.len() {
            or_of(or_tail(r1, seq![t]))
        } else {
            (None, r1)
        },
    }
}

#[verifier::opaque]
pub open spec fn or_tail(r: Items, terms: Seq<SpecExpr>) -> (Option<Seq<SpecExpr>>, Items)
    decreases r.len(), 11nat,
{
    let (p, r1) = peek_at(r, 0);
    if p == Some(SpecToken::Bar) {
        match expect_at(r1, SpecToken::Bar) {
            None => (None, r1),
            Some(r2) => if r2.len() < r.len() {
                let (t, r3) = and_at(r2);
                match t {
                    None => (None, r3),
                    Some(t) => if r3.len() < r.len() {
                        or_tail(r3, terms.push(t))
                    } else {
                        (None, r3)
                    },
                }
            } else {
                (None, r2)
            },
        }
    } else {
        (Some(terms), r1)
    }
}

/// and-expression := equality-expression ('&' equality-expression)*
#[verifier::opaque]
pub open spec fn and_at(r: Items) -> (Option<SpecExpr>, Items)
    decreases r.len(), 10nat,
{
    let (t, r1) = eq_at(r);
    match t {
        None => (None, r1),
        Some(t) => if r1.len() <= r.len() {
            and_of(and_tail(r1, seq![t]))
        } else {
            (None, r1)
        },
    }
}

#[verifier::opaque]
pub open spec fn and_tail(r: Items, terms: Seq<SpecExpr>) -> (Option<Seq<SpecExpr>>, Items)
    decreases r.len(), 9nat,
{
    let (p, r1) = peek_at(r, 0);
    if p == Some(SpecToken::Amp) {
        match expect_at(r1, SpecToken::Amp) {
            None => (None, r1),
            Some(r2) => if r2.len() < r.len() {
                let (t, r3) = eq_at(r2);
                match t {
                    None => (None, r3),
                    Some(t) => if r3.len() < r.len() {
                        and_tail(r3, terms.push(t))
                    } else {
                        (None, r3)
                    },
                }
            } else {
                (None, r2)
            },
        }
    } else {
        (Some(terms), r1)
    }
}

/// equality-expression := relational-expression (('==' | '!=') relational-expression)?
#[verifier::opaque]
pub open spec fn eq_at(r: Items) -> (Option<SpecExpr>, Items)
    decreases r.len(), 8nat,
{
    let (l, r1) = rel_at(r);
    match l {
        None => (None, r1),
        Some(l) => if r1.len() <= r.len() {
            let (p, r2) = peek_at(r1, 0);
            if p == Some(SpecToken::EqualEqual) || p == Some(SpecToken::NotEqual) {
                match expect_at(r2, p->0) {
                    None => (None, r2),
                    Some(r3) => if r3.len() < r.len() {
                        let (rt, r4) = rel_at(r3);
                        match rt {
                            None => (None, r4),
                            Some(rt) => (
                                Some(
                                    if p == Some(SpecToken::EqualEqual) {
                                        SpecExpr::Eq { left: Box::new(l), right: Box::new(rt) }
                                    } else {
                                        SpecExpr::Neq { left: Box::new(l), right: Box::new(rt) }
                                    },
                                ),
                                r4,
                            ),
                        }
                    } else {
                        (None, r3)
                    },
                }
            } else {
                (Some(l), r2)
            }
        } else {
            (None, r1)
        },
    }
}

pub open spec fn is_rel_op(p: Option<SpecToken>) -> bool {
    p == Some(SpecToken::LessThan) || p == Some(SpecToken::LessEqual) || p == Some(
        SpecToken::GreaterThan,
    ) || p == Some(SpecToken::GreaterEqual)
}

pub open spec fn rel_node(op: SpecToken, l: SpecExpr, r: SpecExpr) -> SpecExpr {
    if op == SpecToken::LessThan {
        SpecExpr::Lt { left: Box::new(l), right: Box::new(r) }
    } else if op == SpecToken::LessEqual {
        SpecExpr::Leq { left: Box::new(l), right: Box::new(r) }
    } else if op == SpecToken::GreaterThan {
        SpecExpr::Gt { left: Box::new(l), right: Box::new(r) }
    } else {
        SpecExpr::Geq { left: Box::new(l), right: Box::new(r) }
    }
}

/// relational-expression := additive-expression (('<' | '<=' | '>' | '>=') additive-expression)?
#[verifier::opaque]
pub open spec fn rel_at(r: Items) -> (Option<SpecExpr>, Items)
    decreases r.len(), 7nat,
{
    let (l, r1) = add_at(r);
    match l {
        None => (None, r1),
        Some(l) => if r1.len() <= r.len() {
            let (p, r2) = peek_at(r1, 0);
            if is_rel_op(p) {
                match expect_at(r2, p->0) {
                    None => (None, r2),
                    Some(r3) => if r3.len() < r.len() {
                        let (rt, r4) = add_at(r3);
                        match rt {
                            None => (None, r4),
                            Some(rt) => (Some(rel_node(p->0, l, rt)), r4),
                        }
                    } else {
                        (None, r3)
                    },
                }
            } else {
                (Some(l), r2)
            }
        } else {
            (None, r1)
        },
    }
}

/// additive-expression := multiplicative-expression (('+' | '-') multiplicative-expression)*,
/// where `- e` stands in the sum as `Opposite(e)`.
#[verifier::opaque]
pub open spec fn add_at(r: Items) -> (Option<SpecExpr>, Items)
    decreases r.len(), 6nat,
{
    let (t, r1) = mul_at(r);
    match t {
        None => (None, r1),
        Some(t) => if r1.len() <= r.len() {
            sum_of(add_tail(r1, seq![t]))
        } else {
            (None, r1)
        },
    }
}

#[verifier::opaque]
pub open spec fn add_tail(r: Items, terms: Seq<SpecExpr>) -> (Option<Seq<SpecExpr>>, Items)
    decreases r.len(), 5nat,
{
    let (p, r1) = peek_at(r, 0);
    if p == Some(SpecToken::Plus) || p == Some(SpecToken::Minus) {
        match expect_at(r1, p->0) {
            None => (None, r1),
            Some(r2) => if r2.len() < r.len() {
                let (t, r3) = mul_at(r2);
                match t {
                    None => (None, r3),
                    Some(t) => if r3.len() < r.len() {
                        add_tail(
                            r3,
                            terms.push(
                                if p == Some(SpecToken::Plus) {
                                    t
                                } else {
                                    SpecExpr::Opposite { term: Box::new(t) }
                                },
                            ),
                        )
                    } else {
                        (None, r3)
                    },
                }
            } else {
                (None, r2)
            },
        }
    } else {
        (Some(terms), r1)
    }
}

/// multiplicative-expression := primary ('*' primary)* ('/' primary)?; a
/// division takes the last factor read as its left operand and ends the expression.
#[verifier::opaque]
pub open spec fn mul_at(r: Items) -> (Option<SpecExpr>, Items)
    decreases r.len(), 4nat,
{
    let (f, r1) = primary_at(r);
    match f {
        None => (None, r1),
        Some(f) => if r1.len() <= r.len() {
            mul_tail(r1, seq![f])
        } else {
            (None, r1)
        },
    }
}

#[verifier::opaque]
pub open spec fn mul_tail(r: Items, factors: Seq<SpecExpr>) -> (Option<SpecExpr>, Items)
    decreases r.len(), 3nat,
{
    let (p, r1) = peek_at(r, 0);
    if p == Some(SpecToken::Asterisk) || p == Some(SpecToken::Slash) {
        match expect_at(r1, p->0) {
            None => (None, r1),
            Some(r2) => if r2.len() < r.len() {
                let (t, r3) = primary_at(r2);
                match t {
                    None => (None, r3),
                    Some(t) => if p == Some(SpecToken::Slash) {
                        (Some(SpecExpr::Div { left: Box::new(factors.last()), right: Box::new(t) }), r3)
                    } else if r3.len() < r.len() {
                        mul_tail(r3, factors.push(t))
                    } else {
                        (None, r3)
                    },
                }
            } else {
                (None, r2)
            },
        }
    } else {
        (Some(if factors.len() == 1 { factors[0] } else { SpecExpr::Mul { factors } }), r1)
    }
}

proof fn lemma_mul_tail_slash(r1: Items, fs: Seq<SpecExpr>, r2: Items)
    requires
        peek_at(r1, 0) == (Some(SpecToken::Slash), r1),
        expect_at(r1, SpecToken::Slash) == Some(r2),
        r2.len() < r1.len(),
        primary_at(r2).0 is Some,
    ensures
        mul_tail(r1, fs) == (
            Some(SpecExpr::Div { left: Box::new(fs.last()), right: Box::new(primary_at(r2).0->0) }),
            primary_at(r2).1,
        ),
{
    reveal_with_fuel(mul_tail, 1);
    reveal_with_fuel(primary_at, 1);
}

/// A division: when the items `lx` hold one primary expression `x`, followed
/// by a `/` and by items `r2` that start with a primary expression `y`, the
/// product read is `x / y`: the operand written before the `/` is the
/// dividend, the one written after it the divisor.
pub proof fn law_division_operands(lx: Items, slash: SpecLexItem, r2: Items, x: SpecExpr)
    requires
        slash matches Ok((_, SpecToken::Slash, _)),
        primary_at(lx + seq![slash] + r2) == (Some(x), seq![slash] + r2),
        primary_at(r2).0 is Some,
    ensures
        mul_at(lx + seq![slash] + r2) == (
            Some(SpecExpr::Div { left: Box::new(x), right: Box::new(primary_at(r2).0->0) }),
            primary_at(r2).1,
        ),
{
    let r1 = seq![slash] + r2;
    assert((lx + seq![slash] + r2).len() == lx.len() + r1.len());
    reveal(peek_at);
    reveal(expect_at);
    reveal(next_at);
    reveal_with_fuel(first_err, 2);
    assert(r1[0] == slash);
    assert(r1.drop_first() =~= r2);
    assert(peek_at(r1, 0) == (Some(SpecToken::Slash), r1));
    assert(expect_at(r1, SpecToken::Slash) == Some(r2));
    lemma_mul_tail_slash(r1, seq![x], r2);
    assert(seq![x].last() == x);
    reveal_with_fuel(mul_at, 1);
    reveal_with_fuel(primary_at, 1);
}

proof fn lemma_mul_tail_star(r1: Items, fs: Seq<SpecExpr>, r2: Items)
    requires
        peek_at(r1, 0) == (Some(SpecToken::Asterisk), r1),
        expect_at(r1, SpecToken::Asterisk) == Some(r2),
        r2.len() < r1.len(),
        primary_at(r2).0 is Some,
        primary_at(r2).1.len() < r1.len(),
    ensures
        mul_tail(r1, fs) == mul_tail(primary_at(r2).1, fs.push(primary_at(r2).0->0)),
{
    reveal_with_fuel(mul_tail, 1);
    reveal_with_fuel(primary_at, 1);
}

/// A division after a product: in `x * z / y`, the dividend is `z`, the
/// factor written directly before the `/`, and the divisor the primary
/// expression `y` written after it.
pub proof fn law_division_after_product(
    lx: Items,
    star: SpecLexItem,
    lz: Items,
    slash: SpecLexItem,
    r2: Items,
    x: SpecExpr,
    z: SpecExpr,
)
    requires
        star matches Ok((_, SpecToken::Asterisk, _)),
        slash matches Ok((_, SpecToken::Slash, _)),
        primary_at(lx + seq![star] + lz + seq![slash] + r2) == (Some(x), seq![star] + lz + seq![slash] + r2),
        primary_at(lz + seq![slash] + r2) == (Some(z), seq![slash] + r2),
        primary_at(r2).0 is Some,
    ensures
        mul_at(lx + seq![star] + lz + seq![slash] + r2) == (
            Some(SpecExpr::Div { left: Box::new(z), right: Box::new(primary_at(r2).0->0) }),
            primary_at(r2).1,
        ),
{
    let r = lx + seq![star] + lz + seq![slash] + r2;
    let r1 = seq![star] + lz + seq![slash] + r2;
    let rz = lz + seq![slash] + r2;
    let rs = seq![slash] + r2;
    assert(r.len() == lx.len() + r1.len());
    reveal(peek_at);
    reveal(expect_at);
    reveal(next_at);
    reveal_with_fuel(first_err, 2);
    assert(r1[0] == star);
    assert(r1.drop_first() =~= rz);
    assert(peek_at(r1, 0) == (Some(SpecToken::Asterisk), r1));
    assert(expect_at(r1, SpecToken::Asterisk) == Some(rz));
    assert(rs[0] == slash);
    assert(rs.drop_first() =~= r2);
    assert(peek_at(rs, 0) == (Some(SpecToken::Slash), rs));
    assert(expect_at(rs, SpecToken::Slash) == Some(r2));
    lemma_mul_tail_star(r1, seq![x], rz);
    lemma_mul_tail_slash(rs, seq![x, z], r2);
    assert(seq![x].push(z) =~= seq![x, z]);
    assert(seq![x, z].last() == z);
    reveal_with_fuel(mul_at, 1);
    reveal_with_fuel(primary_at, 1);
}

/// A name read as a primary expression, when what follows it starts with a
/// `/`, is the path of that one name, and reading stops at the `/`.
pub proof fn law_name_before_slash(n: Name, ln: SpecLexItem, slash: SpecLexItem, r2: Items)
    requires
        ln matches Ok((_, SpecToken::Identifier(m), _)) && m == n,
        slash matches Ok((_, SpecToken::Slash, _)),
    ensures
        primary_at(seq![ln] + seq![slash] + r2) == (Some(SpecExpr::QualifiedId { ids: seq![n] }), seq![slash] + r2),
{
    let r = seq![ln] + seq![slash] + r2;
    let r1 = seq![slash] + r2;
    reveal_with_fuel(primary_at, 1);
    reveal_with_fuel(call_or_id_at, 1);
    reveal_with_fuel(dotted_tail_at, 1);
    reveal(peek_at);
    reveal(next_at);
    reveal_with_fuel(first_err, 2);
    assert(r[0] == ln);
    assert(r.drop_first() =~= r1);
    assert(r1[0] == slash);
    assert(next_at(r) == (Some(SpecToken::Identifier(n)), r1));
    assert(peek_at(r1, 0) == (Some(SpecToken::Slash), r1));
    assert(dotted_tail_at(r1, seq![n]) == (Some(seq![n]), r1));
}

/// The quotient of two names: `a / y`, where `y` is the primary expression
/// that starts the items after the `/`, has `a` as its dividend.
pub proof fn law_division_of_name(n: Name, ln: SpecLexItem, slash: SpecLexItem, r2: Items)
    requires
        ln matches Ok((_, SpecToken::Identifier(m), _)) && m == n,
        slash matches Ok((_, SpecToken::Slash, _)),
        primary_at(r2).0 is Some,
    ensures
        mul_at(seq![ln] + seq![slash] + r2) == (
            Some(
                SpecExpr::Div {
                    left: Box::new(SpecExpr::QualifiedId { ids: seq![n] }),
                    right: Box::new(primary_at(r2).0->0),
                },
            ),
            primary_at(r2).1,
        ),
{
    law_name_before_slash(n, ln, slash, r2);
    law_division_operands(seq![ln], slash, r2, SpecExpr::QualifiedId { ids: seq![n] });
}

/// A dotted path followed, for a call, by a parenthesised argument list.
#[verifier::opaque]
pub open spec fn call_or_id_at(r: Items, first: Name) -> (Option<SpecExpr>, Items)
    decreases r.len(), 1nat,
{
    let (ids, r1) = dotted_tail_at(r, seq![first]);
    match ids {
        None => (None, r1),
        Some(ids) => if r1.len() <= r.len() {
            let (p, r2) = peek_at(r1, 0);
            if p == Some(SpecToken::LParen) {
                match expect_at(r2, SpecToken::LParen) {
                    None => (None, r2),
                    Some(r3) => if r3.len() < r.len() {
                        let (args, r4) = args_at(r3, seq![]);
                        match args {
                            None => (None, r4),
                            Some(args) => match expect_at(r4, SpecToken::RParen) {
                                None => (None, r4),
                                Some(r5) => (Some(SpecExpr::Function { name: ids, args }), r5),
                            },
                        }
                    } else {
                        (None, r3)
                    },
                }
            } else {
                (Some(SpecExpr::QualifiedId { ids }), r2)
            }
        } else {
            (None, r1)
        },
    }
}

/// A comma-separated list of expressions up to (not including) a `)`.
#[verifier::opaque]
pub open spec fn args_at(r: Items, acc: Seq<SpecExpr>) -> (Option<Seq<SpecExpr>>, Items)
    decreases r.len(), 14nat,
{
    let (p, r1) = peek_at(r, 0);
    if p == Some(SpecToken::RParen) {
        (Some(acc), r1)
    } else if r1.len() > r.len() {
        (None, r1)
    } else {
        let (e, r2) = expr_at(r1);
        if e is None {
            (None, r2)
        } else {
            let (p2, r3) = peek_at(r2, 0);
            if p2 != Some(SpecToken::Comma) {
                (Some(acc.push(e->0)), r3)
            } else {
                match expect_at(r3, SpecToken::Comma) {
                    None => (None, r3),
                    Some(r4) => if r4.len() < r.len() {
                        args_at(r4, acc.push(e->0))
                    } else {
                        (None, r4)
                    },
                }
            }
        }
    }
}

/// primary := '!' primary | literal | path | path '(' args ')' | 'this' ... |
///            '(' expression ')' | 'new' path '(' args ')'
#[verifier::opaque]
pub open spec fn primary_at(r: Items) -> (Option<SpecExpr>, Items)
    decreases r.len(), 2nat,
{
    let (t, r1) = next_at(r);
    if r1.len() < r.len() {
        match t {
            Some(SpecToken::Not) => not_at(r1),
            Some(SpecToken::Identifier(n)) => call_or_id_at(r1, n),
            Some(SpecToken::This) => call_or_id_at(r1, name_this()),
            Some(SpecToken::LParen) => paren_at(r1),
            Some(SpecToken::New) => new_at(r1),
            Some(t) => (literal_expr(t), r1),
            None => (None, r1),
        }
    } else {
        (None, r1)
    }
}

/// '!' primary, after the '!'.
#[verifier::opaque]
pub open spec fn not_at(r: Items) -> (Option<SpecExpr>, Items)
    decreases r.len(), 3nat,
{
    let (e, r1) = primary_at(r);
    match e {
        None => (None, r1),
        Some(e) => (Some(SpecExpr::Not { term: Box::new(e) }), r1),
    }
}

/// '(' expression ')', after the '('.
#[verifier::opaque]
pub open spec fn paren_at(r: Items) -> (Option<SpecExpr>, Items)
    decreases r.len(), 14nat,
{
    let (e, r1) = expr_at(r);
    match e {
        None => (None, r1),
        Some(e) => match expect_at(r1, SpecToken::RParen) {
            None => (None, r1),
            Some(r2) => (Some(e), r2),
        },
    }
}

/// 'new' path '(' args ')', after the 'new'.
#[verifier::opaque]
pub open spec fn new_at(r: Items) -> (Option<SpecExpr>, Items)
    decreases r.len(), 1nat,
{
    let (t, r1) = next_at(r);
    match t {
        Some(SpecToken::Identifier(n)) => {
            let (ids, r2) = dotted_tail_at(r1, seq![n]);
            match ids {
                None => (None, r2),
                Some(ids) => match expect_at(r2, SpecToken::LParen) {
                    None => (None, r2),
                    Some(r3) => if r3.len() < r.len() {
                        let (args, r4) = args_at(r3, seq![]);
                        match args {
                            None => (None, r4),
                            Some(args) => match expect_at(r4, SpecToken::RParen) {
                                None => (None, r4),
                                Some(r5) => (Some(SpecExpr::NewObject { class_name: ids, args }), r5),
                            },
                        }
                    } else {
                        (None, r3)
                    },
                },
            }
        },
        _ => (None, r1),
    }
}

} // verus!

verus! {

// ---------------------------------------------------------------------------
// Statements.
// ---------------------------------------------------------------------------

/// `'=' expression`, when the next token is `=`; `Some(None)` when it is not.
#[verifier::opaque]
pub open spec fn init_at(r: Items) -> (Option<Option<SpecExpr>>, Items) {
    let (p, r1) = peek_at(r, 0);
    if p == Some(SpecToken::Equal) {
        match expect_at(r1, SpecToken::Equal) {
            None => (None, r1),
            Some(r2) => {
                let (e, r3) = expr_at(r2);
                match e {
                    None => (None, r3),
                    Some(e) => (Some(Some(e)), r3),
                }
            },
        }
    } else {
        (Some(None), r1)
    }
}

/// `(',' name init)*`
#[verifier::opaque]
pub open spec fn fields_tail_at(r: Items, fields: Seq<(Name, Option<SpecExpr>)>) -> (
    Option<Seq<(Name, Option<SpecExpr>)>>,
    Items,
)
    decreases r.len(),
{
    let (p, r1) = peek_at(r, 0);
    if p == Some(SpecToken::Comma) {
        match expect_at(r1, SpecToken::Comma) {
            None => (None, r1),
            Some(r2) => {
                let (t, r3) = next_at(r2);
                match t {
                    Some(SpecToken::Identifier(n)) => {
                        let (i, r4) = init_at(r3);
                        match i {
                            None => (None, r4),
                            Some(i) => if r4.len() < r.len() {
                                fields_tail_at(r4, fields.push((n, i)))
                            } else {
                                (None, r4)
                            },
                        }
                    },
                    _ => (None, r3),
                }
            },
        }
    } else {
        (Some(fields), r1)
    }
}

/// `name init (',' name init)* ';'`: the names declared with one type.
#[verifier::opaque]
pub open spec fn local_fields_at(r: Items) -> (Option<Seq<(Name, Option<SpecExpr>)>>, Items) {
    let (t, r1) = next_at(r);
    match t {
        Some(SpecToken::Identifier(n)) => {
            let (i, r2) = init_at(r1);
            match i {
                None => (None, r2),
                Some(i) => {
                    let (fs, r3) = fields_tail_at(r2, seq![(n, i)]);
                    match fs {
                        None => (None, r3),
                        Some(fs) => match expect_at(r3, SpecToken::Semicolon) {
                            None => (None, r3),
                            Some(r4) => (Some(fs), r4),
                        },
                    }
                },
            }
        },
        _ => (None, r1),
    }
}

/// How far a dotted path of identifiers starting `k` items ahead reaches.
#[verifier::opaque]
pub open spec fn scan_path_at(r: Items, k: int) -> (int, Items)
    decreases r.len() - k,
{
    let (p, r1) = peek_at(r, k);
    if p matches Some(SpecToken::Identifier(_)) {
        let (p2, r2) = peek_at(r1, k + 1);
        if p2 == Some(SpecToken::Dot) {
            if 0 <= k && k + 2 <= r2.len() && r2.len() <= r.len() {
                scan_path_at(r2, k + 2)
            } else {
                (k + 2, r2)
            }
        } else {
            (k + 1, r2)
        }
    } else {
        (k, r1)
    }
}

pub open spec fn is_type_token(p: Option<SpecToken>) -> bool {
    match p {
        Some(SpecToken::Identifier(_)) => true,
        Some(t) => builtin_type(t) is Some,
        None => false,
    }
}

/// How far a dotted path of type names starting `k` items ahead reaches.
#[verifier::opaque]
pub open spec fn scan_type_path_at(r: Items, k: int) -> (int, Items)
    decreases r.len() - k,
{
    let (p, r1) = peek_at(r, k);
    if is_type_token(p) {
        let (p2, r2) = peek_at(r1, k + 1);
        if p2 == Some(SpecToken::Dot) {
            if 0 <= k && k + 2 <= r2.len() && r2.len() <= r.len() {
                scan_type_path_at(r2, k + 2)
            } else {
                (k + 2, r2)
            }
        } else {
            (k + 1, r2)
        }
    } else {
        (k, r1)
    }
}

/// `path '=' expression ';'`
#[verifier::opaque]
pub open spec fn assign_at(r: Items) -> (Option<SpecStatement>, Items) {
    let (t, r1) = next_at(r);
    match t {
        Some(SpecToken::Identifier(n)) => {
            let (ids, r2) = dotted_tail_at(r1, seq![n]);
            match ids {
                None => (None, r2),
                Some(ids) => match expect_at(r2, SpecToken::Equal) {
                    None => (None, r2),
                    Some(r3) => {
                        let (e, r4) = expr_at(r3);
                        match e {
                            None => (None, r4),
                            Some(e) => match expect_at(r4, SpecToken::Semicolon) {
                                None => (None, r4),
                                Some(r5) => (Some(SpecStatement::Assign { name: ids, value: e }), r5),
                            },
                        }
                    },
                }
            }
        },
        _ => (None, r1),
    }
}

/// `path name init (',' name init)* ';'`: local fields of a class type.
#[verifier::opaque]
pub open spec fn typed_local_at(r: Items) -> (Option<SpecStatement>, Items) {
    let (t, r1) = next_at(r);
    match t {
        Some(SpecToken::Identifier(n)) => {
            let (ids, r2) = dotted_tail_at(r1, seq![n]);
            match ids {
                None => (None, r2),
                Some(ids) => {
                    let (fs, r3) = local_fields_at(r2);
                    match fs {
                        None => (None, r3),
                        Some(fs) => (Some(SpecStatement::LocalField { field_type: ids, fields: fs }), r3),
                    }
                },
            }
        },
        _ => (None, r1),
    }
}

/// `builtin-type name init (',' name init)* ';'`, after the type keyword.
#[verifier::opaque]
pub open spec fn builtin_local_at(r: Items, ty: Name) -> (Option<SpecStatement>, Items) {
    let (fs, r1) = local_fields_at(r);
    match fs {
        None => (None, r1),
        Some(fs) => (Some(SpecStatement::LocalField { field_type: seq![ty], fields: fs }), r1),
    }
}

/// `expression ';'`
#[verifier::opaque]
pub open spec fn expr_stmt_at(r: Items) -> (Option<SpecStatement>, Items) {
    let (e, r1) = expr_at(r);
    match e {
        None => (None, r1),
        Some(e) => match expect_at(r1, SpecToken::Semicolon) {
            None => (None, r1),
            Some(r2) => (Some(SpecStatement::Expr(e)), r2),
        },
    }
}

/// `'return' expression ';'`
#[verifier::opaque]
pub open spec fn return_at(r: Items) -> (Option<SpecStatement>, Items) {
    match expect_at(r, SpecToken::Return) {
        None => (None, r),
        Some(r1) => {
            let (e, r2) = expr_at(r1);
            match e {
                None => (None, r2),
                Some(e) => match expect_at(r2, SpecToken::Semicolon) {
                    None => (None, r2),
                    Some(r3) => (Some(SpecStatement::Return { value: e }), r3),
                },
            }
        },
    }
}

/// `(name ':' expression (',' name ':' expression)*)?` up to a `)`.
#[verifier::opaque]
pub open spec fn formula_args_at(r: Items, acc: Seq<(Name, SpecExpr)>) -> (Option<Seq<(Name, SpecExpr)>>, Items)
    decreases r.len(),
{
    let (p, r1) = peek_at(r, 0);
    if p == Some(SpecToken::RParen) {
        (Some(acc), r1)
    } else {
        let (t, r2) = next_at(r1);
        match t {
            Some(SpecToken::Identifier(n)) => match expect_at(r2, SpecToken::Colon) {
                None => (None, r2),
                Some(r3) => {
                    let (e, r4) = expr_at(r3);
                    match e {
                        None => (None, r4),
                        Some(e) => {
                            let (p2, r5) = peek_at(r4, 0);
                            if p2 == Some(SpecToken::Comma) {
                                match expect_at(r5, SpecToken::Comma) {
                                    None => (None, r5),
                                    Some(r6) => if r6.len() < r.len() {
                                        formula_args_at(r6, acc.push((n, e)))
                                    } else {
                                        (None, r6)
                                    },
                                }
                            } else {
                                (Some(acc.push((n, e))), r5)
                            }
                        },
                    }
                },
            },
            _ => (None, r2),
        }
    }
}

/// `('fact' | 'goal') name '=' 'new' path '(' formula-args ')' ';'`; the last
/// name of the path is the predicate, the names before it the `tau` path.
#[verifier::opaque]
pub open spec fn formula_at(r: Items) -> (Option<SpecStatement>, Items) {
    let (t, r1) = next_at(r);
    let is_fact = t == Some(SpecToken::Fact);
    let (t2, r2) = next_at(r1);
    match t2 {
        Some(SpecToken::Identifier(name)) => match expect_at(r2, SpecToken::Equal) {
            None => (None, r2),
            Some(r3) => match expect_at(r3, SpecToken::New) {
                None => (None, r3),
                Some(r4) => {
                    let (t3, r5) = next_at(r4);
                    match t3 {
                        Some(SpecToken::Identifier(pn)) => {
                            let (path, r6) = dotted_tail_at(r5, seq![pn]);
                            match path {
                                None => (None, r6),
                                Some(path) => match expect_at(r6, SpecToken::LParen) {
                                    None => (None, r6),
                                    Some(r7) => {
                                        let (args, r8) = formula_args_at(r7, seq![]);
                                        match args {
                                            None => (None, r8),
                                            Some(args) => match expect_at(r8, SpecToken::RParen) {
                                                None => (None, r8),
                                                Some(r9) => match expect_at(r9, SpecToken::Semicolon) {
                                                    None => (None, r9),
                                                    Some(r10) => (
                                                        Some(
                                                            SpecStatement::Formula {
                                                                is_fact,
                                                                name,
                                                                tau: path.drop_last(),
                                                                predicate_name: path.last(),
                                                                args,
                                                            },
                                                        ),
                                                        r10,
                                                    ),
                                                },
                                            },
                                        }
                                    },
                                },
                            }
                        },
                        _ => (None, r5),
                    }
                },
            },
        },
        _ => (None, r2),
    }
}

pub open spec fn default_cost() -> SpecExpr {
    SpecExpr::Int(seq!['1'])
}

/// statement-list := statement* up to (not including) a `}`.
#[verifier::opaque]
pub open spec fn stmt_list_at(r: Items, acc: Seq<SpecStatement>) -> (Option<Seq<SpecStatement>>, Items)
    decreases r.len(), 17nat,
{
    let (p, r1) = peek_at(r, 0);
    if p == Some(SpecToken::RBrace) {
        (Some(acc), r1)
    } else if r1.len() <= r.len() {
        let (s, r2) = stmt_at(r1);
        match s {
            None => (None, r2),
            Some(s) => if r2.len() < r.len() {
                stmt_list_at(r2, acc.push(s))
            } else {
                (None, r2)
            },
        }
    } else {
        (None, r1)
    }
}

/// A statement, chosen by its first token (and, for a name, by what follows the dotted path).
#[verifier::opaque]
pub open spec fn stmt_at(r: Items) -> (Option<SpecStatement>, Items)
    decreases r.len(), 16nat,
{
    let (p, r1) = peek_at(r, 0);
    if r1.len() <= r.len() {
        if p is Some && builtin_type(p->0) is Some {
            builtin_local_at(next_at(r1).1, builtin_type(p->0)->0)
        } else if p matches Some(SpecToken::Identifier(_)) {
            let (la, r2) = scan_path_at(r1, 0);
            let (q, r3) = peek_at(r2, la);
            if q == Some(SpecToken::Equal) {
                assign_at(r3)
            } else if q matches Some(SpecToken::Identifier(_)) {
                typed_local_at(r3)
            } else {
                expr_stmt_at(r3)
            }
        } else if p == Some(SpecToken::LBrace) {
            disj_at(r1)
        } else if p == Some(SpecToken::For) {
            for_at(r1)
        } else if p == Some(SpecToken::Return) {
            return_at(r1)
        } else if p == Some(SpecToken::Fact) || p == Some(SpecToken::Goal) {
            formula_at(r1)
        } else {
            expr_stmt_at(r1)
        }
    } else {
        (None, r1)
    }
}

/// `'{' statement-list '}' cost? ('or' '{' statement-list '}' cost?)*`, where a
/// cost is `'[' expression ']'` and defaults to `1`.
#[verifier::opaque]
pub open spec fn disj_at(r: Items) -> (Option<SpecStatement>, Items)
    decreases r.len(), 15nat,
{
    match expect_at(r, SpecToken::LBrace) {
        None => (None, r),
        Some(r1) => if r1.len() < r.len() {
            disj_body_at(r1, seq![])
        } else {
            (None, r1)
        },
    }
}

/// `'[' expression ']'` when the next token is `[`, else the default cost.
#[verifier::opaque]
pub open spec fn cost_at(r: Items) -> (Option<SpecExpr>, Items) {
    let (p, r1) = peek_at(r, 0);
    if p == Some(SpecToken::LBracket) {
        match expect_at(r1, SpecToken::LBracket) {
            None => (None, r1),
            Some(r2) => {
                let (c, r3) = expr_at(r2);
                match c {
                    None => (None, r3),
                    Some(c) => match expect_at(r3, SpecToken::RBracket) {
                        None => (None, r3),
                        Some(r4) => (Some(c), r4),
                    },
                }
            },
        }
    } else {
        (Some(default_cost()), r1)
    }
}

#[verifier::opaque]
pub open spec fn disj_body_at(r: Items, branches: Seq<(Seq<SpecStatement>, SpecExpr)>) -> (
    Option<SpecStatement>,
    Items,
)
    decreases r.len(), 18nat,
{
    let (ss, r1) = stmt_list_at(r, seq![]);
    match ss {
        None => (None, r1),
        Some(ss) => match expect_at(r1, SpecToken::RBrace) {
            None => (None, r1),
            Some(r2) => {
                let (c, r3) = cost_at(r2);
                match c {
                    None => (None, r3),
                    Some(c) => {
                        let bs = branches.push((ss, c));
                        let (q, r4) = peek_at(r3, 0);
                        if q == Some(SpecToken::Or) {
                            match expect_at(r4, SpecToken::Or) {
                                None => (None, r4),
                                Some(r5) => match expect_at(r5, SpecToken::LBrace) {
                                    None => (None, r5),
                                    Some(r6) => if r6.len() < r.len() {
                                        disj_body_at(r6, bs)
                                    } else {
                                        (None, r6)
                                    },
                                },
                            }
                        } else {
                            (Some(SpecStatement::Disjunction { disjuncts: bs }), r4)
                        }
                    },
                }
            },
        },
    }
}

/// `'for' '(' path name ')' '{' statement-list '}'`
#[verifier::opaque]
pub open spec fn for_at(r: Items) -> (Option<SpecStatement>, Items)
    decreases r.len(), 15nat,
{
    match expect_at(r, SpecToken::For) {
        None => (None, r),
        Some(r1) => match expect_at(r1, SpecToken::LParen) {
            None => (None, r1),
            Some(r2) => {
                let (t, r3) = next_at(r2);
                match t {
                    Some(SpecToken::Identifier(n)) => {
                        let (vt, r4) = dotted_tail_at(r3, seq![n]);
                        match vt {
                            None => (None, r4),
                            Some(vt) => {
                                let (t2, r5) = next_at(r4);
                                match t2 {
                                    Some(SpecToken::Identifier(v)) => match expect_at(r5, SpecToken::RParen) {
                                        None => (None, r5),
                                        Some(r6) => match expect_at(r6, SpecToken::LBrace) {
                                            None => (None, r6),
                                            Some(r7) => if r7.len() < r.len() {
                                                let (ss, r8) = stmt_list_at(r7, seq![]);
                                                match ss {
                                                    None => (None, r8),
                                                    Some(ss) => match expect_at(r8, SpecToken::RBrace) {
                                                        None => (None, r8),
                                                        Some(r9) => (
                                                            Some(
                                                                SpecStatement::ForAll {
                                                                    var_type: vt,
                                                                    var_name: v,
                                                                    statements: ss,
                                                                },
                                                            ),
                                                            r9,
                                                        ),
                                                    },
                                                }
                                            } else {
                                                (None, r7)
                                            },
                                        },
                                    },
                                    _ => (None, r5),
                                }
                            },
                        }
                    },
                    _ => (None, r3),
                }
            },
        },
    }
}

} // verus!

verus! {

// ---------------------------------------------------------------------------
// Declarations.
// ---------------------------------------------------------------------------

/// `(type name (',' type name)*)?` up to (not including) a `)`.
#[verifier::opaque]
pub open spec fn typed_args_at(r: Items, acc: Seq<(Path, Name)>) -> (Option<Seq<(Path, Name)>>, Items)
    decreases r.len(),
{
    let (p, r1) = peek_at(r, 0);
    if p == Some(SpecToken::RParen) {
        (Some(acc), r1)
    } else {
        let (ty, r2) = type_name_at(r1);
        match ty {
            None => (None, r2),
            Some(ty) => {
                let (t, r3) = next_at(r2);
                match t {
                    Some(SpecToken::Identifier(n)) => {
                        let (p2, r4) = peek_at(r3, 0);
                        if p2 == Some(SpecToken::Comma) {
                            match expect_at(r4, SpecToken::Comma) {
                                None => (None, r4),
                                Some(r5) => if r5.len() < r.len() {
                                    typed_args_at(r5, acc.push((ty, n)))
                                } else {
                                    (None, r5)
                                },
                            }
                        } else {
                            (Some(acc.push((ty, n))), r4)
                        }
                    },
                    _ => (None, r3),
                }
            },
        }
    }
}

/// `path (',' path)*`: the parents of a class or a predicate, after the `:`.
#[verifier::opaque]
pub open spec fn parents_at(r: Items, acc: Seq<Path>) -> (Option<Seq<Path>>, Items)
    decreases r.len(),
{
    let (t, r1) = next_at(r);
    match t {
        Some(SpecToken::Identifier(n)) => {
            let (ids, r2) = dotted_tail_at(r1, seq![n]);
            match ids {
                None => (None, r2),
                Some(ids) => {
                    let (p, r3) = peek_at(r2, 0);
                    if p == Some(SpecToken::Comma) {
                        match expect_at(r3, SpecToken::Comma) {
                            None => (None, r3),
                            Some(r4) => if r4.len() < r.len() {
                                parents_at(r4, acc.push(ids))
                            } else {
                                (None, r4)
                            },
                        }
                    } else {
                        (Some(acc.push(ids)), r3)
                    }
                },
            }
        },
        _ => (None, r1),
    }
}

/// `(':' parents)?`
#[verifier::opaque]
pub open spec fn opt_parents_at(r: Items) -> (Option<Seq<Path>>, Items) {
    let (p, r1) = peek_at(r, 0);
    if p == Some(SpecToken::Colon) {
        match expect_at(r1, SpecToken::Colon) {
            None => (None, r1),
            Some(r2) => parents_at(r2, seq![]),
        }
    } else {
        (Some(seq![]), r1)
    }
}

/// The items spell the names `ns` one after the other, each pair of
/// neighbours separated by one item of the token `sep`:
/// `ns[0] sep ns[1] sep ... ns[last]`.
pub open spec fn spells_joined(items: Items, ns: Seq<Name>, sep: SpecToken) -> bool
    decreases ns.len(),
{
    &&& ns.len() >= 1
    &&& items.len() >= 1
    &&& items[0] matches Ok((_, SpecToken::Identifier(m), _)) && m == ns[0]
    &&& if ns.len() == 1 {
        items.len() == 1
    } else {
        &&& items.len() >= 2
        &&& items[1] matches Ok((_, t, _)) && t == sep
        &&& spells_joined(items.subrange(2, items.len() as int), ns.drop_first(), sep)
    }
}

/// The pieces `parts` one after the other, each pair of neighbours separated
/// by the next item of `cs`.
pub open spec fn joined(parts: Seq<Items>, cs: Items) -> Items
    decreases parts.len(),
{
    if parts.len() == 0 {
        seq![]
    } else if parts.len() == 1 {
        parts[0]
    } else {
        parts[0] + seq![cs[0]] + joined(parts.drop_first(), cs.drop_first())
    }
}

/// Items that end a list: nothing, or an item that is no `,` and no `.`.
pub open spec fn ends_list(rest: Items) -> bool {
    rest.len() > 0 ==> (rest[0] is Ok && tok_of(rest[0]) != SpecToken::Comma && tok_of(
        rest[0],
    ) != SpecToken::Dot)
}

proof fn lemma_dotted_spelled(part: Items, p: Path, tail: Items, ids: Path)
    requires
        spells_joined(part, p, SpecToken::Dot),
        tail.len() > 0 ==> (tail[0] is Ok && tok_of(tail[0]) != SpecToken::Dot),
    ensures
        dotted_tail_at(part.drop_first() + tail, ids) == (Some(ids + p.drop_first()), tail),
    decreases p.len(),
{
    reveal_with_fuel(dotted_tail_at, 1);
    reveal(peek_at);
    reveal(expect_at);
    reveal(next_at);
    reveal_with_fuel(first_err, 2);
    let r = part.drop_first() + tail;
    if p.len() == 1 {
        assert(part.drop_first() + tail =~= tail);
        assert(ids + p.drop_first() =~= ids);
    } else {
        let rest_part = part.subrange(2, part.len() as int);
        assert(r[0] == part[1]);
        assert(spells_joined(rest_part, p.drop_first(), SpecToken::Dot));
        assert(rest_part.len() >= 1);
        assert(r.drop_first() =~= rest_part + tail);
        assert(rest_part[0] == part[2]);
        assert((rest_part + tail).drop_first() =~= rest_part.drop_first() + tail);
        let n1 = p[1];
        assert(p.drop_first()[0] == n1);
        lemma_dotted_spelled(rest_part, p.drop_first(), tail, ids.push(n1));
        assert(ids.push(n1) + p.drop_first().drop_first() =~= ids + p.drop_first());
    }
}

proof fn lemma_parents_spelled(parts: Seq<Items>, ps: Seq<Path>, cs: Items, rest: Items, acc: Seq<Path>)
    requires
        ps.len() >= 1,
        parts.len() == ps.len(),
        cs.len() + 1 >= ps.len(),
        forall|i: int| 0 <= i < ps.len() ==> spells_joined(#[trigger] parts[i], ps[i], SpecToken::Dot),
        forall|i: int| 0 <= i < cs.len() ==> (#[trigger] cs[i]) matches Ok((_, SpecToken::Comma, _)),
        ends_list(rest),
    ensures
        parents_at(joined(parts, cs) + rest, acc) == (Some(acc + ps), rest),
    decreases ps.len(),
{
    reveal_with_fuel(parents_at, 1);
    reveal(peek_at);
    reveal(expect_at);
    reveal(next_at);
    reveal_with_fuel(first_err, 2);
    reveal_with_fuel(joined, 2);
    let part = parts[0];
    let p = ps[0];
    assert(spells_joined(part, p, SpecToken::Dot));
    let tail = if ps.len() == 1 { rest } else { seq![cs[0]] + joined(parts.drop_first(), cs.drop_first()) + rest };
    let r = joined(parts, cs) + rest;
    assert(r =~= part + tail);
    assert(r[0] == part[0]);
    assert(r.drop_first() =~= part.drop_first() + tail);
    if ps.len() > 1 {
        assert(tail[0] == cs[0]);
    }
    lemma_dotted_spelled(part, p, tail, seq![p[0]]);
    assert(seq![p[0]] + p.drop_first() =~= p);
    if ps.len() == 1 {
        assert(acc.push(p) =~= acc + ps);
    } else {
        let r4 = joined(parts.drop_first(), cs.drop_first()) + rest;
        assert(tail.drop_first() =~= r4);
        assert forall|i: int| 0 <= i < ps.drop_first().len() implies spells_joined(
            #[trigger] parts.drop_first()[i],
            ps.drop_first()[i],
            SpecToken::Dot,
        ) by {
            assert(parts.drop_first()[i] == parts[i + 1]);
            assert(ps.drop_first()[i] == ps[i + 1]);
        }
        assert forall|i: int| 0 <= i < cs.drop_first().len() implies (
        #[trigger] cs.drop_first()[i]) matches Ok((_, SpecToken::Comma, _)) by {
            assert(cs.drop_first()[i] == cs[i + 1]);
        }
        lemma_parents_spelled(parts.drop_first(), ps.drop_first(), cs.drop_first(), rest, acc.push(p));
        assert(acc.push(p) + ps.drop_first() =~= acc + ps);
    }
}

/// The parents written `P1, P2, ..., Pn`: when the piece `parts[k]` spells
/// the dotted path `ps[k]` (its names joined by `.`), the pieces stand one
/// after the other with a `,` item between neighbours, and what follows
/// ends the list, the parents read are `ps` itself: as many paths as pieces,
/// the k-th path read being the k-th path written, and the items after the
/// list are left unread.
pub proof fn law_parents_in_order(parts: Seq<Items>, ps: Seq<Path>, cs: Items, rest: Items)
    requires
        ps.len() >= 1,
        parts.len() == ps.len(),
        cs.len() + 1 == ps.len(),
        forall|i: int| 0 <= i < ps.len() ==> spells_joined(#[trigger] parts[i], ps[i], SpecToken::Dot),
        forall|i: int| 0 <= i < cs.len() ==> (#[trigger] cs[i]) matches Ok((_, SpecToken::Comma, _)),
        ends_list(rest),
    ensures
        parents_at(joined(parts, cs) + rest, seq![]) == (Some(ps), rest),
        parents_at(joined(parts, cs) + rest, seq![]).0->0.len() == parts.len(),
        forall|k: int| 0 <= k < ps.len() ==> #[trigger] parents_at(joined(parts, cs) + rest, seq![]).0->0[k] == ps[k],
{
    lemma_parents_spelled(parts, ps, cs, rest, seq![]);
    assert(Seq::<Path>::empty() + ps =~= ps);
}

/// After a `:`, the same list read as the optional parents of a class or a
/// predicate gives the same paths in the same order.
pub proof fn law_opt_parents_in_order(colon: SpecLexItem, parts: Seq<Items>, ps: Seq<Path>, cs: Items, rest: Items)
    requires
        colon matches Ok((_, SpecToken::Colon, _)),
        ps.len() >= 1,
        parts.len() == ps.len(),
        cs.len() + 1 == ps.len(),
        forall|i: int| 0 <= i < ps.len() ==> spells_joined(#[trigger] parts[i], ps[i], SpecToken::Dot),
        forall|i: int| 0 <= i < cs.len() ==> (#[trigger] cs[i]) matches Ok((_, SpecToken::Comma, _)),
        ends_list(rest),
    ensures
        opt_parents_at(seq![colon] + joined(parts, cs) + rest) == (Some(ps), rest),
{
    law_parents_in_order(parts, ps, cs, rest);
    reveal(opt_parents_at);
    reveal(peek_at);
    reveal(expect_at);
    reveal(next_at);
    reveal_with_fuel(first_err, 2);
    let r = seq![colon] + joined(parts, cs) + rest;
    assert(r[0] == colon);
    assert(r.drop_first() =~= joined(parts, cs) + rest);
}

/// `(path '(' args ')' (',' path '(' args ')')*)?` up to (not including) a `{`:
/// the initialisers of a constructor, after the `:`.
#[verifier::opaque]
pub open spec fn init_list_at(r: Items, acc: Seq<(Path, Seq<SpecExpr>)>) -> (
    Option<Seq<(Path, Seq<SpecExpr>)>>,
    Items,
)
    decreases r.len(),
{
    let (p, r1) = peek_at(r, 0);
    if p == Some(SpecToken::LBrace) {
        (Some(acc), r1)
    } else {
        let (t, r2) = next_at(r1);
        match t {
            Some(SpecToken::Identifier(n)) => {
                let (ids, r3) = dotted_tail_at(r2, seq![n]);
                match ids {
                    None => (None, r3),
                    Some(ids) => match expect_at(r3, SpecToken::LParen) {
                        None => (None, r3),
                        Some(r4) => {
                            let (es, r5) = args_at(r4, seq![]);
                            match es {
                                None => (None, r5),
                                Some(es) => match expect_at(r5, SpecToken::RParen) {
                                    None => (None, r5),
                                    Some(r6) => {
                                        let acc2 = acc.push((ids, es));
                                        let (p2, r7) = peek_at(r6, 0);
                                        if p2 == Some(SpecToken::Comma) {
                                            match expect_at(r7, SpecToken::Comma) {
                                                None => (None, r7),
                                                Some(r8) => if r8.len() < r.len() {
                                                    init_list_at(r8, acc2)
                                                } else {
                                                    (None, r8)
                                                },
                                            }
                                        } else {
                                            (Some(acc2), r7)
                                        }
                                    },
                                },
                            }
                        },
                    },
                }
            },
            _ => (None, r2),
        }
    }
}

/// `'{' statement-list '}'`
#[verifier::opaque]
pub open spec fn block_at(r: Items) -> (Option<Seq<SpecStatement>>, Items) {
    match expect_at(r, SpecToken::LBrace) {
        None => (None, r),
        Some(r1) => {
            let (ss, r2) = stmt_list_at(r1, seq![]);
            match ss {
                None => (None, r2),
                Some(ss) => match expect_at(r2, SpecToken::RBrace) {
                    None => (None, r2),
                    Some(r3) => (Some(ss), r3),
                },
            }
        },
    }
}

/// `'(' typed-args ')'`
#[verifier::opaque]
pub open spec fn arg_list_at(r: Items) -> (Option<Seq<(Path, Name)>>, Items) {
    match expect_at(r, SpecToken::LParen) {
        None => (None, r),
        Some(r1) => {
            let (args, r2) = typed_args_at(r1, seq![]);
            match args {
                None => (None, r2),
                Some(args) => match expect_at(r2, SpecToken::RParen) {
                    None => (None, r2),
                    Some(r3) => (Some(args), r3),
                },
            }
        },
    }
}

/// `name '(' typed-args ')' (':' init-list)? block`
#[verifier::opaque]
pub open spec fn constructor_at(r: Items) -> (Option<SpecConstructorDef>, Items) {
    let (t, r1) = next_at(r);
    match t {
        Some(SpecToken::Identifier(_)) => {
            let (args, r2) = arg_list_at(r1);
            match args {
                None => (None, r2),
                Some(args) => {
                    let (p, r3) = peek_at(r2, 0);
                    let (init, r4) = if p == Some(SpecToken::Colon) {
                        match expect_at(r3, SpecToken::Colon) {
                            None => (None, r3),
                            Some(r) => init_list_at(r, seq![]),
                        }
                    } else {
                        (Some(seq![]), r3)
                    };
                    match init {
                        None => (None, r4),
                        Some(init) => {
                            let (ss, r5) = block_at(r4);
                            match ss {
                                None => (None, r5),
                                Some(ss) => (Some(SpecConstructorDef { args, init, statements: ss }), r5),
                            }
                        },
                    }
                },
            }
        },
        _ => (None, r1),
    }
}

/// `(type | 'void') name '(' typed-args ')' block`
#[verifier::opaque]
pub open spec fn function_at(r: Items) -> (Option<SpecFunctionDef>, Items) {
    let (p, r1) = peek_at(r, 0);
    let (rt, r2) = if is_type_token(p) {
        let (ty, r) = type_name_at(r1);
        match ty {
            None => (None, r),
            Some(ty) => (Some(Some(ty)), r),
        }
    } else if p == Some(SpecToken::Void) {
        match expect_at(r1, SpecToken::Void) {
            None => (None, r1),
            Some(r) => (Some(None), r),
        }
    } else {
        (None, r1)
    };
    match rt {
        None => (None, r2),
        Some(rt) => {
            let (t, r3) = next_at(r2);
            match t {
                Some(SpecToken::Identifier(name)) => {
                    let (args, r4) = arg_list_at(r3);
                    match args {
                        None => (None, r4),
                        Some(args) => {
                            let (ss, r5) = block_at(r4);
                            match ss {
                                None => (None, r5),
                                Some(ss) => (
                                    Some(SpecFunctionDef { return_type: rt, name, args, statements: ss }),
                                    r5,
                                ),
                            }
                        },
                    }
                },
                _ => (None, r3),
            }
        },
    }
}

/// `'predicate' name '(' typed-args ')' (':' parents)? block`
#[verifier::opaque]
pub open spec fn predicate_at(r: Items) -> (Option<SpecPredicateDef>, Items) {
    match expect_at(r, SpecToken::Predicate) {
        None => (None, r),
        Some(r1) => {
            let (t, r2) = next_at(r1);
            match t {
                Some(SpecToken::Identifier(name)) => {
                    let (args, r3) = arg_list_at(r2);
                    match args {
                        None => (None, r3),
                        Some(args) => {
                            let (parents, r4) = opt_parents_at(r3);
                            match parents {
                                None => (None, r4),
                                Some(parents) => {
                                    let (ss, r5) = block_at(r4);
                                    match ss {
                                        None => (None, r5),
                                        Some(ss) => (
                                            Some(SpecPredicateDef { name, args, parents, statements: ss }),
                                            r5,
                                        ),
                                    }
                                },
                            }
                        },
                    }
                },
                _ => (None, r2),
            }
        },
    }
}

pub open spec fn empty_class(name: Name, parents: Seq<Path>) -> SpecClassDef {
    SpecClassDef {
        name,
        parents,
        fields: seq![],
        constructors: seq![],
        functions: seq![],
        predicates: seq![],
        classes: seq![],
    }
}

/// `'class' name (':' parents)? '{' member* '}'`
#[verifier::opaque]
pub open spec fn class_at(r: Items) -> (Option<SpecClassDef>, Items)
    decreases r.len(), 0nat,
{
    match expect_at(r, SpecToken::Class) {
        None => (None, r),
        Some(r1) => {
            let (t, r2) = next_at(r1);
            match t {
                Some(SpecToken::Identifier(name)) => {
                    let (parents, r3) = opt_parents_at(r2);
                    match parents {
                        None => (None, r3),
                        Some(parents) => match expect_at(r3, SpecToken::LBrace) {
                            None => (None, r3),
                            Some(r4) => if r4.len() < r.len() {
                                members_at(r4, empty_class(name, parents))
                            } else {
                                (None, r4)
                            },
                        },
                    }
                },
                _ => (None, r2),
            }
        },
    }
}

/// Whether the member at hand, `la` items of type path long, declares a
/// function: a name and a `(` follow the path.
#[verifier::opaque]
pub open spec fn is_function_at(r: Items, la: int) -> (bool, Items) {
    let (q, r1) = peek_at(r, la);
    if q matches Some(SpecToken::Identifier(_)) {
        let (q2, r2) = peek_at(r1, la + 1);
        (q2 == Some(SpecToken::LParen), r2)
    } else {
        (false, r1)
    }
}

/// `type name init (',' name init)* ';'`: a group of fields.
#[verifier::opaque]
pub open spec fn field_group_at(r: Items) -> (Option<(Path, Seq<(Name, Option<SpecExpr>)>)>, Items) {
    let (ty, r1) = type_name_at(r);
    match ty {
        None => (None, r1),
        Some(ty) => {
            let (fs, r2) = local_fields_at(r1);
            match fs {
                None => (None, r2),
                Some(fs) => (Some((ty, fs)), r2),
            }
        },
    }
}

/// The members of a class up to its closing `}`, added to `c`. The token at
/// hand is looked at twice: a lexer error met the first time is dropped, and
/// the member is then read from the item after it.
#[verifier::opaque]
pub open spec fn members_at(r: Items, c: SpecClassDef) -> (Option<SpecClassDef>, Items)
    decreases r.len(), 1nat,
{
    let (p0, r0) = peek_at(r, 0);
    let (p, r1) = peek_at(r0, 0);
    if p0 == Some(SpecToken::RBrace) {
        match expect_at(r0, SpecToken::RBrace) {
            None => (None, r0),
            Some(r2) => (Some(c), r2),
        }
    } else if r1.len() > r.len() {
        (None, r1)
    } else if p == Some(SpecToken::Class) {
        let (d, r2) = class_at(r1);
        match d {
            None => (None, r2),
            Some(d) => if r2.len() < r.len() {
                members_at(r2, SpecClassDef { classes: c.classes.push(d), ..c })
            } else {
                (None, r2)
            },
        }
    } else {
        let (m, r2) = if p == Some(SpecToken::Predicate) {
            let (d, r2) = predicate_at(r1);
            (if d is Some { Some(SpecClassDef { predicates: c.predicates.push(d->0), ..c }) } else { None }, r2)
        } else if p == Some(SpecToken::Void) {
            let (d, r2) = function_at(r1);
            (if d is Some { Some(SpecClassDef { functions: c.functions.push(d->0), ..c }) } else { None }, r2)
        } else {
            let (la, s1) = scan_type_path_at(r1, 0);
            let (q, s2) = if la == 1 { peek_at(s1, 0) } else { (None, s1) };
            if la == 1 && q == Some(SpecToken::Identifier(c.name)) {
                let (d, r2) = constructor_at(s2);
                (if d is Some { Some(SpecClassDef { constructors: c.constructors.push(d->0), ..c }) } else { None }, r2)
            } else {
                let (f, s3) = is_function_at(s2, la);
                if f {
                    let (d, r2) = function_at(s3);
                    (if d is Some { Some(SpecClassDef { functions: c.functions.push(d->0), ..c }) } else { None }, r2)
                } else {
                    let (d, r2) = field_group_at(s3);
                    (if d is Some { Some(SpecClassDef { fields: c.fields.push(d->0), ..c }) } else { None }, r2)
                }
            }
        };
        match m {
            None => (None, r2),
            Some(m) => if r2.len() < r.len() {
                members_at(r2, m)
            } else {
                (None, r2)
            },
        }
    }
}

pub open spec fn empty_problem() -> SpecProblemDef {
    SpecProblemDef { functions: seq![], predicates: seq![], classes: seq![], statements: seq![] }
}

/// The declarations and statements of a problem, added to `pd`, up to the end
/// of the input (or the first lexer error met where an item starts).
#[verifier::opaque]
pub open spec fn problem_items_at(r: Items, pd: SpecProblemDef) -> (Option<SpecProblemDef>, Items)
    decreases r.len(),
{
    let (p, r1) = peek_at(r, 0);
    if p is None {
        (Some(pd), r1)
    } else {
        let (m, r2) = if p == Some(SpecToken::Class) {
            let (d, r2) = class_at(r1);
            (if d is Some { Some(SpecProblemDef { classes: pd.classes.push(d->0), ..pd }) } else { None }, r2)
        } else if p == Some(SpecToken::Predicate) {
            let (d, r2) = predicate_at(r1);
            (if d is Some { Some(SpecProblemDef { predicates: pd.predicates.push(d->0), ..pd }) } else { None }, r2)
        } else if p == Some(SpecToken::Void) {
            let (d, r2) = function_at(r1);
            (if d is Some { Some(SpecProblemDef { functions: pd.functions.push(d->0), ..pd }) } else { None }, r2)
        } else {
            let (la, s1) = scan_path_at(r1, 0);
            let (f, s2) = is_function_at(s1, la);
            if f {
                let (d, r2) = function_at(s2);
                (if d is Some { Some(SpecProblemDef { functions: pd.functions.push(d->0), ..pd }) } else { None }, r2)
            } else {
                let (d, r2) = stmt_at(s2);
                (if d is Some { Some(SpecProblemDef { statements: pd.statements.push(d->0), ..pd }) } else { None }, r2)
            }
        };
        match m {
            None => (None, r2),
            Some(m) => if r2.len() < r.len() {
                problem_items_at(r2, m)
            } else {
                (None, r2)
            },
        }
    }
}

/// problem := (class | predicate | function | statement)*
pub open spec fn problem_at(r: Items) -> (Option<SpecProblemDef>, Items) {
    problem_items_at(r, empty_problem())
}

} // verus!

use vstd::prelude::*;

use crate::language::{
    Expr, Name, typed_args_view, Path, SpecExpr, SpecStatement, Statement, disjuncts_view, exprs_view, inits_view,
    named_exprs_view, path_view, stmts_view,
};
use crate::RiddleError;
use crate::env::{AtomId, ObjectId, Slot, Var};
use crate::lexer::{str_chars, string_from_chars};
use crate::runtime::Program;
use crate::scope::{Constructor, Type, name_of_type};

verus! {

// ---------------------------------------------------------------------------
// How expressions, statements and errors are written as text.
// ---------------------------------------------------------------------------

/// The parts with `sep` between each two of them.
pub open spec fn joined(parts: Seq<Seq<char>>, sep: Seq<char>) -> Seq<char>
    decreases parts.len(),
{
    if parts.len() == 0 {
        seq![]
    } else if parts.len() == 1 {
        parts[0]
    } else {
        joined(parts.subrange(0, parts.len() - 1), sep) + sep + parts[parts.len() - 1]
    }
}

/// A dotted path, such as `a.b.c`.
pub open spec fn path_text(p: Path) -> Seq<char> {
    joined(p, "."@)
}

/// `(left op right)`.
pub open spec fn binary_text(left: Seq<char>, op: Seq<char>, right: Seq<char>) -> Seq<char> {
    "("@ + left + op + right + ")"@
}

/// The text of an expression: literals as written, operations in brackets.
pub open spec fn expr_text(e: SpecExpr) -> Seq<char>
    decreases e,
{
    match e {
        SpecExpr::Bool(b) => if b {
            "true"@
        } else {
            "false"@
        },
        SpecExpr::Int(s) => s,
        SpecExpr::Real(n, d) => n + "/"@ + d,
        SpecExpr::String(s) => "\""@ + s + "\""@,
        SpecExpr::QualifiedId { ids } => path_text(ids),
        SpecExpr::Sum { terms } => "("@ + exprs_text(terms, " + "@) + ")"@,
        SpecExpr::Opposite { term } => "-("@ + expr_text(*term) + ")"@,
        SpecExpr::Not { term } => "!("@ + expr_text(*term) + ")"@,
        SpecExpr::Mul { factors } => "("@ + exprs_text(factors, " * "@) + ")"@,
        SpecExpr::Div { left, right } => binary_text(expr_text(*left), " / "@, expr_text(*right)),
        SpecExpr::Function { name, args } => path_text(name) + "("@ + exprs_text(args, ", "@) + ")"@,
        SpecExpr::Eq { left, right } => binary_text(expr_text(*left), " == "@, expr_text(*right)),
        SpecExpr::Neq { left, right } => binary_text(expr_text(*left), " != "@, expr_text(*right)),
        SpecExpr::Lt { left, right } => binary_text(expr_text(*left), " < "@, expr_text(*right)),
        SpecExpr::Leq { left, right } => binary_text(expr_text(*left), " <= "@, expr_text(*right)),
        SpecExpr::Gt { left, right } => binary_text(expr_text(*left), " > "@, expr_text(*right)),
        SpecExpr::Geq { left, right } => binary_text(expr_text(*left), " >= "@, expr_text(*right)),
        SpecExpr::Or { terms } => "("@ + exprs_text(terms, " || "@) + ")"@,
        SpecExpr::And { terms } => "("@ + exprs_text(terms, " && "@) + ")"@,
        SpecExpr::NewObject { class_name, args } => "new "@ + path_text(class_name) + "("@ + exprs_text(
            args,
            ", "@,
        ) + ")"@,
    }
}

/// The texts of the expressions with `sep` between each two of them.
pub open spec fn exprs_text(s: Seq<SpecExpr>, sep: Seq<char>) -> Seq<char>
    decreases s,
{
    if s.len() == 0 {
        seq![]
    } else if s.len() == 1 {
        expr_text(s[0])
    } else {
        exprs_text(s.subrange(0, s.len() - 1), sep) + sep + expr_text(s[s.len() - 1])
    }
}

proof fn lemma_joined_step(s: Seq<Seq<char>>, sep: Seq<char>, j: int)
    requires
        0 <= j < s.len(),
    ensures
        joined(s.subrange(0, j + 1), sep) == if j == 0 {
            s[0]
        } else {
            joined(s.subrange(0, j), sep) + sep + s[j]
        },
{
    assert(s.subrange(0, j + 1).subrange(0, j) =~= s.subrange(0, j));
}

proof fn lemma_exprs_text_step(s: Seq<SpecExpr>, sep: Seq<char>, j: int)
    requires
        0 <= j < s.len(),
    ensures
        exprs_text(s.subrange(0, j + 1), sep) == if j == 0 {
            expr_text(s[0])
        } else {
            exprs_text(s.subrange(0, j), sep) + sep + expr_text(s[j])
        },
{
    assert(s.subrange(0, j + 1).subrange(0, j) =~= s.subrange(0, j));
}

/// Appends the characters of `s`.
pub(crate) fn push_str(out: &mut Vec<char>, s: &str)
    ensures
        final(out)@ == old(out)@ + s@,
{
    let cs = str_chars(s);
    let mut j: usize = 0;
    while j < cs.len()
        invariant
            j <= cs.len(),
            cs@ == s@,
            out@ == old(out)@ + s@.subrange(0, j as int),
        decreases cs.len() - j,
    {
        out.push(cs[j]);
        proof {
            assert(s@.subrange(0, j + 1) =~= s@.subrange(0, j as int).push(cs@[j as int]));
        }
        j = j + 1;
    }
    proof {
        assert(s@.subrange(0, cs.len() as int) =~= s@);
    }
}

/// Appends the path, its names separated by dots.
pub(crate) fn push_path(out: &mut Vec<char>, p: &Vec<String>)
    ensures
        final(out)@ == old(out)@ + path_text(path_view(p@)),
{
    let ghost pv = path_view(p@);
    let mut j: usize = 0;
    while j < p.len()
        invariant
            j <= p.len(),
            pv == path_view(p@),
            out@ == old(out)@ + joined(pv.subrange(0, j as int), "."@),
        decreases p.len() - j,
    {
        proof {
            lemma_joined_step(pv, "."@, j as int);
        }
        if j > 0 {
            push_str(out, ".");
        }
        push_str(out, p[j].as_str());
        j = j + 1;
    }
    proof {
        assert(pv.subrange(0, p.len() as int) =~= pv);
    }
}

/// Appends `(left op right)`, for the operands of `parent`.
fn push_binary(out: &mut Vec<char>, left: &Expr, op: &str, right: &Expr, Ghost(parent): Ghost<SpecExpr>)
    requires
        decreases_to!(parent => left@),
        decreases_to!(parent => right@),
    ensures
        final(out)@ == old(out)@ + binary_text(expr_text(left@), op@, expr_text(right@)),
    decreases parent, 0int,
{
    push_str(out, "(");
    push_expr(out, left);
    push_str(out, op);
    push_expr(out, right);
    push_str(out, ")");
}

/// Appends the text of the expression.
pub(crate) fn push_expr(out: &mut Vec<char>, e: &Expr)
    ensures
        final(out)@ == old(out)@ + expr_text(e@),
    decreases e@, 1int,
{
    let ghost ev = e@;
    match e {
        Expr::Bool(b) => {
            if *b {
                push_str(out, "true");
            } else {
                push_str(out, "false");
            }
        },
        Expr::Int(s) => push_str(out, s.as_str()),
        Expr::Real(n, d) => {
            push_str(out, n.as_str());
            push_str(out, "/");
            push_str(out, d.as_str());
        },
        Expr::String(s) => {
            push_str(out, "\"");
            push_str(out, s.as_str());
            push_str(out, "\"");
        },
        Expr::QualifiedId { ids } => push_path(out, ids),
        Expr::Sum { terms } => {
            proof {
                assert(decreases_to!(ev => ev->Sum_terms));
            }
            push_str(out, "(");
            push_exprs(out, terms, " + ");
            push_str(out, ")");
        },
        Expr::Opposite { term } => {
            proof {
                assert(decreases_to!(ev => *ev->Opposite_term));
            }
            push_str(out, "-(");
            push_expr(out, term);
            push_str(out, ")");
        },
        Expr::Not { term } => {
            proof {
                assert(decreases_to!(ev => *ev->Not_term));
            }
            push_str(out, "!(");
            push_expr(out, term);
            push_str(out, ")");
        },
        Expr::Mul { factors } => {
            proof {
                assert(decreases_to!(ev => ev->Mul_factors));
            }
            push_str(out, "(");
            push_exprs(out, factors, " * ");
            push_str(out, ")");
        },
        Expr::Div { left, right } => {
            proof {
                assert(decreases_to!(ev => *ev->Div_left));
                assert(decreases_to!(ev => *ev->Div_right));
            }
            push_binary(out, left, " / ", right, Ghost(ev))
        },
        Expr::Function { name, args } => {
            proof {
                assert(decreases_to!(ev => ev->Function_args));
            }
            push_path(out, name);
            push_str(out, "(");
            push_exprs(out, args, ", ");
            push_str(out, ")");
        },
        Expr::Eq { left, right } => {
            proof {
                assert(decreases_to!(ev => *ev->Eq_left));
                assert(decreases_to!(ev => *ev->Eq_right));
            }
            push_binary(out, left, " == ", right, Ghost(ev))
        },
        Expr::Neq { left, right } => {
            proof {
                assert(decreases_to!(ev => *ev->Neq_left));
                assert(decreases_to!(ev => *ev->Neq_right));
            }
            push_binary(out, left, " != ", right, Ghost(ev))
        },
        Expr::Lt { left, right } => {
            proof {
                assert(decreases_to!(ev => *ev->Lt_left));
                assert(decreases_to!(ev => *ev->Lt_right));
            }
            push_binary(out, left, " < ", right, Ghost(ev))
        },
        Expr::Leq { left, right } => {
            proof {
                assert(decreases_to!(ev => *ev->Leq_left));
                assert(decreases_to!(ev => *ev->Leq_right));
            }
            push_binary(out, left, " <= ", right, Ghost(ev))
        },
        Expr::Gt { left, right } => {
            proof {
                assert(decreases_to!(ev => *ev->Gt_left));
                assert(decreases_to!(ev => *ev->Gt_right));
            }
            push_binary(out, left, " > ", right, Ghost(ev))
        },
        Expr::Geq { left, right } => {
            proof {
                assert(decreases_to!(ev => *ev->Geq_left));
                assert(decreases_to!(ev => *ev->Geq_right));
            }
            push_binary(out, left, " >= ", right, Ghost(ev))
        },
        Expr::Or { terms } => {
            proof {
                assert(decreases_to!(ev => ev->Or_terms));
            }
            push_str(out, "(");
            push_exprs(out, terms, " || ");
            push_str(out, ")");
        },
        Expr::And { terms } => {
            proof {
                assert(decreases_to!(ev => ev->And_terms));
            }
            push_str(out, "(");
            push_exprs(out, terms, " && ");
            push_str(out, ")");
        },
        Expr::NewObject { class_name, args } => {
            proof {
                assert(decreases_to!(ev => ev->NewObject_args));
            }
            push_str(out, "new ");
            push_path(out, class_name);
            push_str(out, "(");
            push_exprs(out, args, ", ");
            push_str(out, ")");
        },
    }
}

/// Appends the texts of the expressions with `sep` between each two.
pub(crate) fn push_exprs(out: &mut Vec<char>, v: &Vec<Expr>, sep: &str)
    ensures
        final(out)@ == old(out)@ + exprs_text(exprs_view(v@), sep@),
    decreases exprs_view(v@), 1int,
{
    let ghost sv = exprs_view(v@);
    let mut j: usize = 0;
    while j < v.len()
        invariant
            j <= v.len(),
            sv == exprs_view(v@),
            out@ == old(out)@ + exprs_text(sv.subrange(0, j as int), sep@),
        decreases v.len() - j,
    {
        proof {
            lemma_exprs_text_step(sv, sep@, j as int);
            assert(sv[j as int] == v@[j as int]@);
            assert(decreases_to!(sv => sv[j as int]));
        }
        if j > 0 {
            push_str(out, sep);
        }
        push_expr(out, &v[j]);
        j = j + 1;
    }
    proof {
        assert(sv.subrange(0, v.len() as int) =~= sv);
    }
}

impl Expr {
    /// The expression as text: literals as written, each operation in
    /// brackets with its operator between the operands.
    pub fn to_string(&self) -> (r: String)
        ensures
            r@ == expr_text(self@),
    {
        let mut out: Vec<char> = Vec::new();
        push_expr(&mut out, self);
        proof {
            assert(out@ =~= expr_text(self@));
        }
        string_from_chars(&out)
    }
}

/// `name` or `name = value`, for each declared field, separated by commas.
pub open spec fn inits_text(s: Seq<(Name, Option<SpecExpr>)>) -> Seq<char>
    decreases s.len(),
{
    if s.len() == 0 {
        seq![]
    } else {
        let last = s[s.len() - 1];
        let t = match last.1 {
            Some(v) => last.0 + " = "@ + expr_text(v),
            None => last.0,
        };
        if s.len() == 1 {
            t
        } else {
            inits_text(s.subrange(0, s.len() - 1)) + ", "@ + t
        }
    }
}

/// `name: value`, for each argument, separated by commas.
pub open spec fn named_text(s: Seq<(Name, SpecExpr)>) -> Seq<char>
    decreases s.len(),
{
    if s.len() == 0 {
        seq![]
    } else {
        let t = s[s.len() - 1].0 + ": "@ + expr_text(s[s.len() - 1].1);
        if s.len() == 1 {
            t
        } else {
            named_text(s.subrange(0, s.len() - 1)) + ", "@ + t
        }
    }
}

/// The text of a statement; the statements of a block each on a line of
/// their own, the first line of each indented.
pub open spec fn stmt_text(s: SpecStatement) -> Seq<char>
    decreases s,
{
    match s {
        SpecStatement::Expr(e) => expr_text(e) + ";"@,
        SpecStatement::LocalField { field_type, fields } => path_text(field_type) + " "@ + inits_text(
            fields,
        ) + ";"@,
        SpecStatement::Assign { name, value } => path_text(name) + " = "@ + expr_text(value) + ";"@,
        SpecStatement::ForAll { var_type, var_name, statements } => "for "@ + path_text(var_type) + " "@
            + var_name + " {\n"@ + stmts_text(statements, "    "@) + "\n}"@,
        SpecStatement::Disjunction { disjuncts } => "{\n"@ + disjuncts_text(disjuncts) + "\n}"@,
        SpecStatement::Formula { is_fact, name, tau, predicate_name, args } => (if is_fact {
            "fact"@
        } else {
            "formula"@
        }) + " "@ + name + " = new "@ + (if tau.len() == 0 {
            seq![]
        } else {
            path_text(tau) + "."@
        }) + predicate_name + "("@ + named_text(args) + ");"@,
        SpecStatement::Return { value } => "return "@ + expr_text(value) + ";"@,
    }
}

/// The statements, each after `indent`, one on each line.
pub open spec fn stmts_text(s: Seq<SpecStatement>, indent: Seq<char>) -> Seq<char>
    decreases s,
{
    if s.len() == 0 {
        seq![]
    } else if s.len() == 1 {
        indent + stmt_text(s[0])
    } else {
        stmts_text(s.subrange(0, s.len() - 1), indent) + "\n"@ + indent + stmt_text(s[s.len() - 1])
    }
}

/// The branches of a disjunction, each a block and its cost, separated by `or`.
pub open spec fn disjuncts_text(s: Seq<(Seq<SpecStatement>, SpecExpr)>) -> Seq<char>
    decreases s,
{
    if s.len() == 0 {
        seq![]
    } else {
        let t = "    {\n"@ + stmts_text(s[s.len() - 1].0, "        "@) + "\n    }: "@ + expr_text(
            s[s.len() - 1].1,
        );
        if s.len() == 1 {
            t
        } else {
            disjuncts_text(s.subrange(0, s.len() - 1)) + " or "@ + t
        }
    }
}

/// Appends the declared fields.
fn push_inits(out: &mut Vec<char>, v: &Vec<(String, Option<Expr>)>)
    ensures
        final(out)@ == old(out)@ + inits_text(inits_view(v@)),
{
    let ghost sv = inits_view(v@);
    let mut j: usize = 0;
    while j < v.len()
        invariant
            j <= v.len(),
            sv == inits_view(v@),
            out@ == old(out)@ + inits_text(sv.subrange(0, j as int)),
        decreases v.len() - j,
    {
        proof {
            assert(sv.subrange(0, j + 1).subrange(0, j as int) =~= sv.subrange(0, j as int));
        }
        if j > 0 {
            push_str(out, ", ");
        }
        push_str(out, v[j].0.as_str());
        match &v[j].1 {
            Some(e) => {
                push_str(out, " = ");
                push_expr(out, e);
            },
            None => {},
        }
        j = j + 1;
    }
    proof {
        assert(sv.subrange(0, v.len() as int) =~= sv);
    }
}

/// Appends the named arguments.
fn push_named(out: &mut Vec<char>, v: &Vec<(String, Expr)>)
    ensures
        final(out)@ == old(out)@ + named_text(named_exprs_view(v@)),
{
    let ghost sv = named_exprs_view(v@);
    let mut j: usize = 0;
    while j < v.len()
        invariant
            j <= v.len(),
            sv == named_exprs_view(v@),
            out@ == old(out)@ + named_text(sv.subrange(0, j as int)),
        decreases v.len() - j,
    {
        proof {
            assert(sv.subrange(0, j + 1).subrange(0, j as int) =~= sv.subrange(0, j as int));
        }
        if j > 0 {
            push_str(out, ", ");
        }
        push_str(out, v[j].0.as_str());
        push_str(out, ": ");
        push_expr(out, &v[j].1);
        j = j + 1;
    }
    proof {
        assert(sv.subrange(0, v.len() as int) =~= sv);
    }
}

/// Appends the text of a formula statement.
fn push_formula(
    out: &mut Vec<char>,
    is_fact: bool,
    name: &String,
    tau: &Vec<String>,
    predicate_name: &String,
    args: &Vec<(String, Expr)>,
)
    ensures
        final(out)@ == old(out)@ + stmt_text(
            SpecStatement::Formula {
                is_fact,
                name: name@,
                tau: path_view(tau@),
                predicate_name: predicate_name@,
                args: named_exprs_view(args@),
            },
        ),
{
    if is_fact {
        push_str(out, "fact");
    } else {
        push_str(out, "formula");
    }
    push_str(out, " ");
    push_str(out, name.as_str());
    push_str(out, " = new ");
    if tau.len() > 0 {
        push_path(out, tau);
        push_str(out, ".");
    }
    push_str(out, predicate_name.as_str());
    push_str(out, "(");
    push_named(out, args);
    push_str(out, ");");
}

/// Appends the text of the statement.
#[verifier::rlimit(30)]
pub(crate) fn push_stmt(out: &mut Vec<char>, s: &Statement)
    ensures
        final(out)@ == old(out)@ + stmt_text(s@),
    decreases s@,
{
    let ghost sv = s@;
    match s {
        Statement::Expr(e) => {
            push_expr(out, e);
            push_str(out, ";");
        },
        Statement::LocalField { field_type, fields } => {
            push_path(out, field_type);
            push_str(out, " ");
            push_inits(out, fields);
            push_str(out, ";");
        },
        Statement::Assign { name, value } => {
            push_path(out, name);
            push_str(out, " = ");
            push_expr(out, value);
            push_str(out, ";");
        },
        Statement::ForAll { var_type, var_name, statements } => {
            proof {
                assert(decreases_to!(sv => sv->ForAll_statements));
            }
            push_str(out, "for ");
            push_path(out, var_type);
            push_str(out, " ");
            push_str(out, var_name.as_str());
            push_str(out, " {\n");
            push_stmts(out, statements, "    ");
            push_str(out, "\n}");
        },
        Statement::Disjunction { disjuncts } => {
            proof {
                assert(decreases_to!(sv => sv->Disjunction_disjuncts));
            }
            push_str(out, "{\n");
            push_disjuncts(out, disjuncts);
            push_str(out, "\n}");
        },
        Statement::Formula { is_fact, name, tau, predicate_name, args } => {
            push_formula(out, *is_fact, name, tau, predicate_name, args);
        },
        Statement::Return { value } => {
            push_str(out, "return ");
            push_expr(out, value);
            push_str(out, ";");
        },
    }
}

/// Appends the statements, each after `indent`, one on each line.
fn push_stmts(out: &mut Vec<char>, v: &Vec<Statement>, indent: &str)
    ensures
        final(out)@ == old(out)@ + stmts_text(stmts_view(v@), indent@),
    decreases stmts_view(v@),
{
    let ghost sv = stmts_view(v@);
    let mut j: usize = 0;
    while j < v.len()
        invariant
            j <= v.len(),
            sv == stmts_view(v@),
            out@ == old(out)@ + stmts_text(sv.subrange(0, j as int), indent@),
        decreases v.len() - j,
    {
        proof {
            assert(sv.subrange(0, j + 1).subrange(0, j as int) =~= sv.subrange(0, j as int));
            assert(sv[j as int] == v@[j as int]@);
            assert(decreases_to!(sv => sv[j as int]));
        }
        if j > 0 {
            push_str(out, "\n");
        }
        push_str(out, indent);
        push_stmt(out, &v[j]);
        j = j + 1;
    }
    proof {
        assert(sv.subrange(0, v.len() as int) =~= sv);
    }
}

/// Appends the branches of a disjunction.
fn push_disjuncts(out: &mut Vec<char>, v: &Vec<(Vec<Statement>, Expr)>)
    ensures
        final(out)@ == old(out)@ + disjuncts_text(disjuncts_view(v@)),
    decreases disjuncts_view(v@),
{
    let ghost sv = disjuncts_view(v@);
    let mut j: usize = 0;
    while j < v.len()
        invariant
            j <= v.len(),
            sv == disjuncts_view(v@),
            out@ == old(out)@ + disjuncts_text(sv.subrange(0, j as int)),
        decreases v.len() - j,
    {
        proof {
            assert(sv.subrange(0, j + 1).subrange(0, j as int) =~= sv.subrange(0, j as int));
            assert(sv[j as int] == (stmts_view(v@[j as int].0@), v@[j as int].1@));
            assert(decreases_to!(sv => sv[j as int]));
            assert(decreases_to!(sv[j as int] => sv[j as int].0));
        }
        if j > 0 {
            push_str(out, " or ");
        }
        push_str(out, "    {\n");
        push_stmts(out, &v[j].0, "        ");
        push_str(out, "\n    }: ");
        push_expr(out, &v[j].1);
        j = j + 1;
    }
    proof {
        assert(sv.subrange(0, v.len() as int) =~= sv);
    }
}

impl Statement {
    /// The statement as text, as [`stmt_text`] writes it.
    pub fn to_string(&self) -> (r: String)
        ensures
            r@ == stmt_text(self@),
    {
        let mut out: Vec<char> = Vec::new();
        push_stmt(&mut out, self);
        proof {
            assert(out@ =~= stmt_text(self@));
        }
        string_from_chars(&out)
    }
}

/// The digit `d`, below ten.
pub open spec fn digit(d: nat) -> char {
    if d == 0 {
        '0'
    } else if d == 1 {
        '1'
    } else if d == 2 {
        '2'
    } else if d == 3 {
        '3'
    } else if d == 4 {
        '4'
    } else if d == 5 {
        '5'
    } else if d == 6 {
        '6'
    } else if d == 7 {
        '7'
    } else if d == 8 {
        '8'
    } else {
        '9'
    }
}

/// The decimal digits of `n`, without leading zeros.
pub open spec fn decimal(n: nat) -> Seq<char>
    decreases n,
{
    if n < 10 {
        seq![digit(n)]
    } else {
        decimal(n / 10) + seq![digit(n % 10)]
    }
}

fn digit_char(d: usize) -> (c: char)
    requires
        d < 10,
    ensures
        c == digit(d as nat),
{
    if d == 0 {
        '0'
    } else if d == 1 {
        '1'
    } else if d == 2 {
        '2'
    } else if d == 3 {
        '3'
    } else if d == 4 {
        '4'
    } else if d == 5 {
        '5'
    } else if d == 6 {
        '6'
    } else if d == 7 {
        '7'
    } else if d == 8 {
        '8'
    } else {
        '9'
    }
}

/// Appends the decimal digits of `n`.
pub(crate) fn push_decimal(out: &mut Vec<char>, n: usize)
    ensures
        final(out)@ == old(out)@ + decimal(n as nat),
    decreases n,
{
    if n >= 10 {
        push_decimal(out, n / 10);
    }
    out.push(digit_char(n % 10));
}

/// How an error reads.
pub open spec fn error_text(e: RiddleError) -> Seq<char> {
    match e {
        RiddleError::NotAnEnvironment(n) => "Variable '"@ + n@ + "' is not an environment"@,
        RiddleError::NotAClass(n) => "Type '"@ + n@ + "' is not a class"@,
        RiddleError::NotAPredicate(n) => "Predicate '"@ + n@ + "' not found"@,
        RiddleError::TypeError(m) => "Type error: "@ + m@,
        RiddleError::NotFound(n) => "'"@ + n@ + "' not found"@,
        RiddleError::InconsistencyError(m) => "Inconsistency error: "@ + m@,
        RiddleError::RuntimeError(m) => "Runtime error: "@ + m@,
    }
}

impl RiddleError {
    /// The error as a sentence, with the name or message it carries.
    pub fn to_string(&self) -> (r: String)
        ensures
            r@ == error_text(*self),
    {
        let mut out: Vec<char> = Vec::new();
        match self {
            RiddleError::NotAnEnvironment(n) => {
                push_str(&mut out, "Variable '");
                push_str(&mut out, n.as_str());
                push_str(&mut out, "' is not an environment");
            },
            RiddleError::NotAClass(n) => {
                push_str(&mut out, "Type '");
                push_str(&mut out, n.as_str());
                push_str(&mut out, "' is not a class");
            },
            RiddleError::NotAPredicate(n) => {
                push_str(&mut out, "Predicate '");
                push_str(&mut out, n.as_str());
                push_str(&mut out, "' not found");
            },
            RiddleError::TypeError(m) => {
                push_str(&mut out, "Type error: ");
                push_str(&mut out, m.as_str());
            },
            RiddleError::NotFound(n) => {
                push_str(&mut out, "'");
                push_str(&mut out, n.as_str());
                push_str(&mut out, "' not found");
            },
            RiddleError::InconsistencyError(m) => {
                push_str(&mut out, "Inconsistency error: ");
                push_str(&mut out, m.as_str());
            },
            RiddleError::RuntimeError(m) => {
                push_str(&mut out, "Runtime error: ");
                push_str(&mut out, m.as_str());
            },
        }
        proof {
            assert(out@ =~= error_text(*self));
        }
        string_from_chars(&out)
    }
}

/// `obj-` and the index of the object.
pub open spec fn object_text(o: ObjectId) -> Seq<char> {
    "obj-"@ + decimal(o.0 as nat)
}

/// `atm-` and the index of the atom.
pub open spec fn atom_text(a: AtomId) -> Seq<char> {
    "atm-"@ + decimal(a.0 as nat)
}

impl ObjectId {
    /// The id as text, such as `obj-3`.
    pub fn to_string(&self) -> (r: String)
        ensures
            r@ == object_text(*self),
    {
        let mut out: Vec<char> = Vec::new();
        push_str(&mut out, "obj-");
        push_decimal(&mut out, self.0);
        proof {
            assert(out@ =~= object_text(*self));
        }
        string_from_chars(&out)
    }
}

impl AtomId {
    /// The id as text, such as `atm-3`.
    pub fn to_string(&self) -> (r: String)
        ensures
            r@ == atom_text(*self),
    {
        let mut out: Vec<char> = Vec::new();
        push_str(&mut out, "atm-");
        push_decimal(&mut out, self.0);
        proof {
            assert(out@ =~= atom_text(*self));
        }
        string_from_chars(&out)
    }
}

/// How a value reads: the name of its type for a primitive one, the id for an
/// object or an atom.
pub open spec fn slot_text(types: Seq<Type>, s: Slot) -> Seq<char> {
    match s {
        Slot::Primitive(Var::Formula(_)) => "bool"@,
        Slot::Primitive(Var::Value { var_type, .. }) => name_of_type(types[var_type.0 as int]),
        Slot::ObjectRef(o) => "Object("@ + object_text(o) + ")"@,
        Slot::AtomRef(a) => "Atom("@ + atom_text(a) + ")"@,
    }
}

impl Slot {
    /// The value as text: the name of its type for a primitive value,
    /// `Object(obj-n)` or `Atom(atm-n)` otherwise.
    pub fn to_string(&self, program: &Program) -> (r: String)
        requires
            self matches Slot::Primitive(Var::Value { var_type, .. }) ==> var_type.0 < program.types@.len(),
        ensures
            r@ == slot_text(program.types@, *self),
    {
        let mut out: Vec<char> = Vec::new();
        match self {
            Slot::Primitive(Var::Formula(_)) => push_str(&mut out, "bool"),
            Slot::Primitive(Var::Value { var_type, .. }) => push_str(&mut out, program.types[var_type.0].name()),
            Slot::ObjectRef(o) => {
                push_str(&mut out, "Object(obj-");
                push_decimal(&mut out, o.0);
                push_str(&mut out, ")");
            },
            Slot::AtomRef(a) => {
                push_str(&mut out, "Atom(atm-");
                push_decimal(&mut out, a.0);
                push_str(&mut out, ")");
            },
        }
        proof {
            reveal_strlit("Object(obj-");
            reveal_strlit("Object(");
            reveal_strlit("obj-");
            reveal_strlit("Atom(atm-");
            reveal_strlit("Atom(");
            reveal_strlit("atm-");
            assert(out@ =~= slot_text(program.types@, *self));
        }
        string_from_chars(&out)
    }
}

/// The full name of the class whose members scope `s` is inside of, if
/// there is one: the names of the classes around it and its own, dotted.
pub open spec fn enclosing_class_name(program: Program, s: int) -> Option<Seq<char>> {
    if 0 <= s < program.scopes@.len() {
        match program.scopes@[s].parent {
            Some(p) => if p < program.scopes@.len() {
                match program.scopes@[p as int].owner {
                    Some(t) => if t.0 < program.types@.len() {
                        match program.types@[t.0 as int] {
                            Type::Class(c) => Some(path_text(path_view(c.path@))),
                            _ => None,
                        }
                    } else {
                        None
                    },
                    None => None,
                }
            } else {
                None
            },
            None => None,
        }
    } else {
        None
    }
}

/// `type name`, for each argument, separated by commas.
pub open spec fn typed_args_text(s: Seq<(Path, Name)>) -> Seq<char>
    decreases s.len(),
{
    if s.len() == 0 {
        seq![]
    } else {
        let t = path_text(s[s.len() - 1].0) + " "@ + s[s.len() - 1].1;
        if s.len() == 1 {
            t
        } else {
            typed_args_text(s.subrange(0, s.len() - 1)) + ", "@ + t
        }
    }
}

/// How a constructor reads: its class and its typed arguments.
pub open spec fn constructor_text(program: Program, c: Constructor) -> Seq<char> {
    (match enclosing_class_name(program, c.scope as int) {
        Some(n) => n,
        None => "<unknown class>"@,
    }) + "("@ + typed_args_text(typed_args_view(c.args@)) + ")"@
}

impl Constructor {
    /// The constructor as text: the full name of its class, then its arguments
    /// with their types, such as `Point(int x, int y)`.
    pub fn to_string(&self, program: &Program) -> (r: String)
        ensures
            r@ == constructor_text(*program, *self),
    {
        let mut out: Vec<char> = Vec::new();
        let mut named = false;
        if self.scope < program.scopes.len() {
            match program.scopes[self.scope].parent {
                Some(p) => if p < program.scopes.len() {
                    match program.scopes[p].owner {
                        Some(t) => if t.0 < program.types.len() {
                            match &program.types[t.0] {
                                Type::Class(c) => {
                                    push_path(&mut out, &c.path);
                                    named = true;
                                },
                                _ => {},
                            }
                        },
                        None => {},
                    }
                },
                None => {},
            }
        }
        if !named {
            push_str(&mut out, "<unknown class>");
        }
        push_str(&mut out, "(");
        let ghost sv = typed_args_view(self.args@);
        let ghost start = out@;
        let mut j: usize = 0;
        while j < self.args.len()
            invariant
                j <= self.args.len(),
                sv == typed_args_view(self.args@),
                out@ == start + typed_args_text(sv.subrange(0, j as int)),
            decreases self.args.len() - j,
        {
            proof {
                assert(sv.subrange(0, j + 1).subrange(0, j as int) =~= sv.subrange(0, j as int));
            }
            if j > 0 {
                push_str(&mut out, ", ");
            }
            push_path(&mut out, &self.args[j].0);
            push_str(&mut out, " ");
            push_str(&mut out, self.args[j].1.as_str());
            j = j + 1;
        }
        push_str(&mut out, ")");
        proof {
            assert(sv.subrange(0, self.args.len() as int) =~= sv);
            assert(out@ =~= constructor_text(*program, *self));
        }
        string_from_chars(&out)
    }
}

} // verus!

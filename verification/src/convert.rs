//! The conversion of parsed statements into a context.
//!
//! The expression tree knows no subtraction, division, root or logarithm to
//! a base. They are written with what it has:
//!
//! - `a - b` is `a + (-1) * b`, and `-a` is `(-1) * a`;
//! - `a / b` is `a * b ^ (-1)`;
//! - the square root of `a` is `a ^ 0.5`, the cube root `a ^ (3 ^ (-1))`, the
//!   root of degree `n` is `a ^ (n ^ (-1))`;
//! - the logarithm of `a` to the base `b` is `ln(a) * ln(b) ^ (-1)`.

use vstd::prelude::*;
use crate::context::{initial_vars, Context, ContextV};
use crate::expr::f::minus_one;
use crate::expr::{models, ExprV};
use crate::number::{UnaryKind, HALF_BITS, THREE_BITS};
use crate::parse;
use crate::scope::{bound, clone_names, defined, names, FuncV};
use crate::term::{Term, TermV};

verus! {

/// `1 / a`
pub open spec fn inverse_of(a: ExprV) -> ExprV {
    ExprV::Pow(Box::new(a), Box::new(minus_one()))
}

/// `a ^ b`
pub open spec fn power_node(a: ExprV, b: ExprV) -> ExprV {
    ExprV::Pow(Box::new(a), Box::new(b))
}

/// The natural logarithm of `a`.
pub open spec fn ln_of(a: ExprV) -> ExprV {
    ExprV::Unary(UnaryKind::Ln, Box::new(a))
}

/// The term that a parsed leaf stands for.
pub open spec fn term_of(t: parse::Term) -> TermV {
    match t {
        parse::Term::Var(name) => TermV::Var(name@),
        parse::Term::Float(bits) => TermV::Real(bits),
        parse::Term::Int(bits) => TermV::Real(bits),
    }
}

/// The expressions that a list of parsed expressions stands for.
pub open spec fn exprs_of(v: Vec<parse::Expr>) -> Seq<ExprV>
    decreases v,
{
    Seq::new(
        v.len() as nat,
        |i: int|
            if 0 <= i < v.len() {
                expr_of(v[i])
            } else {
                ExprV::Add(Seq::empty())
            },
    )
}

/// The expression that a parsed node stands for.
pub open spec fn node_of(n: parse::Node) -> ExprV
    decreases n,
{
    match n {
        parse::Node::Ln(a) => ln_of(expr_of(*a)),
        parse::Node::Log(b, a) => ExprV::Mul(
            seq![ln_of(expr_of(*a)), inverse_of(ln_of(expr_of(*b)))],
        ),
        parse::Node::Root(d, a) => power_node(expr_of(*a), inverse_of(expr_of(*d))),
        parse::Node::Sqrt(a) => power_node(expr_of(*a), ExprV::Term(TermV::Real(HALF_BITS))),
        parse::Node::Cbrt(a) => power_node(
            expr_of(*a),
            inverse_of(ExprV::Term(TermV::Real(THREE_BITS))),
        ),
        parse::Node::Sin(a) => ExprV::Unary(UnaryKind::Sin, Box::new(expr_of(*a))),
        parse::Node::Cos(a) => ExprV::Unary(UnaryKind::Cos, Box::new(expr_of(*a))),
        parse::Node::Tan(a) => ExprV::Unary(UnaryKind::Tan, Box::new(expr_of(*a))),
        parse::Node::Sinh(a) => ExprV::Unary(UnaryKind::Sinh, Box::new(expr_of(*a))),
        parse::Node::Cosh(a) => ExprV::Unary(UnaryKind::Cosh, Box::new(expr_of(*a))),
        parse::Node::Tanh(a) => ExprV::Unary(UnaryKind::Tanh, Box::new(expr_of(*a))),
        parse::Node::Asin(a) => ExprV::Unary(UnaryKind::Asin, Box::new(expr_of(*a))),
        parse::Node::Acos(a) => ExprV::Unary(UnaryKind::Acos, Box::new(expr_of(*a))),
        parse::Node::Atan(a) => ExprV::Unary(UnaryKind::Atan, Box::new(expr_of(*a))),
        parse::Node::Asinh(a) => ExprV::Unary(UnaryKind::Asinh, Box::new(expr_of(*a))),
        parse::Node::Acosh(a) => ExprV::Unary(UnaryKind::Acosh, Box::new(expr_of(*a))),
        parse::Node::Atanh(a) => ExprV::Unary(UnaryKind::Atanh, Box::new(expr_of(*a))),
        parse::Node::Abs(a) => ExprV::Unary(UnaryKind::Abs, Box::new(expr_of(*a))),
        parse::Node::Fn(name, args) => ExprV::Fn(name@, exprs_of(args)),
        parse::Node::Paren(a) => expr_of(*a),
        parse::Node::Term(t) => ExprV::Term(term_of(t)),
        parse::Node::Neg(a) => ExprV::Mul(seq![minus_one(), expr_of(*a)]),
    }
}

/// The expression that a parsed power stands for.
pub open spec fn power_of(e: parse::Power) -> ExprV
    decreases e,
{
    match e {
        parse::Power::Binary { lhs, op, rhs } => power_node(power_of(*lhs), node_of(rhs)),
        parse::Power::Rhs(n) => node_of(n),
    }
}

/// The expression that a parsed product stands for.
pub open spec fn product_of(e: parse::Product) -> ExprV
    decreases e,
{
    match e {
        parse::Product::Binary { lhs, op, rhs } => match op {
            parse::MulOp::Mul => ExprV::Mul(seq![product_of(*lhs), power_of(rhs)]),
            parse::MulOp::Div => ExprV::Mul(seq![product_of(*lhs), inverse_of(power_of(rhs))]),
        },
        parse::Product::Rhs(p) => power_of(p),
    }
}

/// The expression that a parsed expression stands for.
pub open spec fn expr_of(e: parse::Expr) -> ExprV
    decreases e,
{
    match e {
        parse::Expr::Binary { lhs, op, rhs } => match op {
            parse::AddOp::Add => ExprV::Add(seq![expr_of(*lhs), product_of(rhs)]),
            parse::AddOp::Sub => ExprV::Add(
                seq![expr_of(*lhs), ExprV::Mul(seq![minus_one(), product_of(rhs)])],
            ),
        },
        parse::Expr::Rhs(p) => product_of(p),
    }
}

/// The context after one more statement.
pub open spec fn declared(c: ContextV, s: parse::Statement) -> ContextV {
    match s {
        parse::Statement::Let { name, body } => ContextV {
            vars: bound(c.vars, name@, expr_of(body)),
            fns: c.fns,
        },
        parse::Statement::Fn { recursive, name, args, body } => ContextV {
            vars: c.vars,
            fns: defined(
                c.fns,
                FuncV { name: name@, recursive, args: names(args), body: expr_of(body) },
            ),
        },
    }
}

/// The context that the first `n` statements of a list describe: the initial
/// one, with each statement's declaration made in turn.
pub open spec fn converted(s: Seq<parse::Statement>, n: nat) -> ContextV
    decreases n,
{
    if n == 0 {
        ContextV { vars: initial_vars(), fns: Seq::empty() }
    } else {
        declared(converted(s, (n - 1) as nat), s[n - 1])
    }
}

/// Converts parsed statements into the context that they describe.
pub fn convert(statements: Vec<parse::Statement>) -> (c: Context)
    ensures
        c@ == converted(statements@, statements.len() as nat),
{
    let mut c: Context = Context::new();
    let mut i: usize = 0;
    while i < statements.len()
        invariant
            i <= statements.len(),
            c@ == converted(statements@, i as nat),
        decreases statements.len() - i,
    {
        match &statements[i] {
            parse::Statement::Let { name, body } => {
                let value: Box<crate::expr::Expr> = convert_expr(body);
                c.def_var(name.as_str(), *value);
            },
            parse::Statement::Fn { recursive, name, args, body } => {
                let value: Box<crate::expr::Expr> = convert_expr(body);
                c.def_func(name.as_str(), *recursive, clone_names(args), *value);
            },
        }
        i = i + 1;
    }
    c
}

/// Converts each parsed expression of a list.
pub fn convert_all(v: &Vec<parse::Expr>) -> (r: Vec<crate::expr::Expr>)
    ensures
        models(r) == exprs_of(*v),
    decreases v,
{
    let mut out: Vec<crate::expr::Expr> = Vec::new();
    let mut i: usize = 0;
    while i < v.len()
        invariant
            i <= v.len(),
            out.len() == i,
            forall|j: int| 0 <= j < i ==> out[j]@ == expr_of(v[j]),
        decreases v.len() - i,
    {
        let e: Box<crate::expr::Expr> = convert_expr(&v[i]);
        out.push(*e);
        i = i + 1;
    }
    assert(models(out) =~= exprs_of(*v));
    out
}

/// Converts a parsed expression: a sum or difference, read left to right.
pub fn convert_expr(e: &parse::Expr) -> (r: Box<crate::expr::Expr>)
    ensures
        r@ == expr_of(*e),
    decreases e,
{
    match e {
        parse::Expr::Binary { lhs, op, rhs } => {
            let a = convert_expr(lhs);
            let b = convert_product(rhs);
            match op {
                parse::AddOp::Add => crate::expr::f::add(a, b),
                parse::AddOp::Sub => crate::expr::f::sub(a, b),
            }
        },
        parse::Expr::Rhs(p) => convert_product(p),
    }
}

/// Converts a parsed product or quotient, read left to right.
pub fn convert_product(e: &parse::Product) -> (r: Box<crate::expr::Expr>)
    ensures
        r@ == product_of(*e),
    decreases e,
{
    match e {
        parse::Product::Binary { lhs, op, rhs } => {
            let a = convert_product(lhs);
            let b = convert_power(rhs);
            match op {
                parse::MulOp::Mul => crate::expr::f::mul(a, b),
                parse::MulOp::Div => crate::expr::f::div(a, b),
            }
        },
        parse::Product::Rhs(p) => convert_power(p),
    }
}

/// Converts a parsed power, read left to right.
pub fn convert_power(e: &parse::Power) -> (r: Box<crate::expr::Expr>)
    ensures
        r@ == power_of(*e),
    decreases e,
{
    match e {
        parse::Power::Binary { lhs, op, rhs } => {
            let a = convert_power(lhs);
            let b = convert_node(rhs);
            crate::expr::f::pow(a, b)
        },
        parse::Power::Rhs(n) => convert_node(n),
    }
}

/// Converts a parsed node.
pub fn convert_node(n: &parse::Node) -> (r: Box<crate::expr::Expr>)
    ensures
        r@ == node_of(*n),
    decreases n,
{
    match n {
        parse::Node::Ln(a) => crate::expr::f::unary(UnaryKind::Ln, convert_expr(a)),
        parse::Node::Log(b, a) => crate::expr::f::div(
            crate::expr::f::unary(UnaryKind::Ln, convert_expr(a)),
            crate::expr::f::unary(UnaryKind::Ln, convert_expr(b)),
        ),
        parse::Node::Root(d, a) => crate::expr::f::pow(
            convert_expr(a),
            crate::expr::f::inv(convert_expr(d)),
        ),
        parse::Node::Sqrt(a) => crate::expr::f::pow(convert_expr(a), crate::expr::f::num(HALF_BITS)),
        parse::Node::Cbrt(a) => crate::expr::f::pow(
            convert_expr(a),
            crate::expr::f::inv(crate::expr::f::num(THREE_BITS)),
        ),
        parse::Node::Sin(a) => crate::expr::f::unary(UnaryKind::Sin, convert_expr(a)),
        parse::Node::Cos(a) => crate::expr::f::unary(UnaryKind::Cos, convert_expr(a)),
        parse::Node::Tan(a) => crate::expr::f::unary(UnaryKind::Tan, convert_expr(a)),
        parse::Node::Sinh(a) => crate::expr::f::unary(UnaryKind::Sinh, convert_expr(a)),
        parse::Node::Cosh(a) => crate::expr::f::unary(UnaryKind::Cosh, convert_expr(a)),
        parse::Node::Tanh(a) => crate::expr::f::unary(UnaryKind::Tanh, convert_expr(a)),
        parse::Node::Asin(a) => crate::expr::f::unary(UnaryKind::Asin, convert_expr(a)),
        parse::Node::Acos(a) => crate::expr::f::unary(UnaryKind::Acos, convert_expr(a)),
        parse::Node::Atan(a) => crate::expr::f::unary(UnaryKind::Atan, convert_expr(a)),
        parse::Node::Asinh(a) => crate::expr::f::unary(UnaryKind::Asinh, convert_expr(a)),
        parse::Node::Acosh(a) => crate::expr::f::unary(UnaryKind::Acosh, convert_expr(a)),
        parse::Node::Atanh(a) => crate::expr::f::unary(UnaryKind::Atanh, convert_expr(a)),
        parse::Node::Abs(a) => crate::expr::f::unary(UnaryKind::Abs, convert_expr(a)),
        parse::Node::Fn(name, args) => crate::expr::f::func(name.clone(), convert_all(args)),
        parse::Node::Paren(a) => convert_expr(a),
        parse::Node::Term(t) => crate::expr::f::term(convert_term(t)),
        parse::Node::Neg(a) => crate::expr::f::neg(convert_expr(a)),
    }
}

/// Converts a parsed leaf.
pub fn convert_term(t: &parse::Term) -> (r: Term)
    ensures
        r@ == term_of(*t),
{
    match t {
        parse::Term::Var(name) => Term::Var(name.clone()),
        parse::Term::Float(bits) => Term::Real(*bits),
        parse::Term::Int(bits) => Term::Real(*bits),
    }
}

} // verus!

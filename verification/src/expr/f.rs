//! Short constructors for expression trees.

use vstd::prelude::*;
use crate::expr::{models, Exp, Expr, ExprV};
use crate::number::NEG_ONE_BITS;
use crate::term::{Term, TermV};

verus! {

/// The leaf that stands for minus one.
pub open spec fn minus_one() -> ExprV {
    ExprV::Term(TermV::Real(NEG_ONE_BITS))
}

/// The real number with that bit pattern.
pub fn num(n: u64) -> (r: Exp)
    ensures
        r@ == ExprV::Term(TermV::Real(n)),
{
    Box::new(Expr::Term(Term::Real(n)))
}

/// The leaf that holds a term.
pub fn term(t: Term) -> (r: Exp)
    ensures
        r@ == ExprV::Term(t@),
{
    Box::new(Expr::Term(t))
}

/// The variable of that name.
pub fn var(name: &str) -> (r: Exp)
    ensures
        r@ == ExprV::Term(TermV::Var(name@)),
{
    Box::new(Expr::Term(Term::Var(name.to_owned())))
}

/// `-a`, as `(-1) * a`.
pub fn neg(a: Exp) -> (r: Exp)
    ensures
        r@ == ExprV::Mul(seq![minus_one(), a@]),
{
    self::mul(num(NEG_ONE_BITS), a)
}

/// `1 / a`, as `a ^ (-1)`.
pub fn inv(a: Exp) -> (r: Exp)
    ensures
        r@ == ExprV::Pow(Box::new(a@), Box::new(minus_one())),
{
    pow(a, num(NEG_ONE_BITS))
}

/// `a + b`
pub fn add(a: Exp, b: Exp) -> (r: Exp)
    ensures
        r@ == ExprV::Add(seq![a@, b@]),
{
    let mut v: Vec<Expr> = Vec::new();
    v.push(*a);
    v.push(*b);
    assert(models(v) =~= seq![a@, b@]);
    Box::new(Expr::Add(v))
}

/// `a * b`
pub fn mul(a: Exp, b: Exp) -> (r: Exp)
    ensures
        r@ == ExprV::Mul(seq![a@, b@]),
{
    let mut v: Vec<Expr> = Vec::new();
    v.push(*a);
    v.push(*b);
    assert(models(v) =~= seq![a@, b@]);
    Box::new(Expr::Mul(v))
}

/// `a ^ b`
pub fn pow(a: Exp, b: Exp) -> (r: Exp)
    ensures
        r@ == ExprV::Pow(Box::new(a@), Box::new(b@)),
{
    Box::new(Expr::Pow(a, b))
}

/// `a - b`, as `a + (-1) * b`.
pub fn sub(a: Exp, b: Exp) -> (r: Exp)
    ensures
        r@ == ExprV::Add(seq![a@, ExprV::Mul(seq![minus_one(), b@])]),
{
    self::add(a, neg(b))
}

/// `a / b`, as `a * b ^ (-1)`.
pub fn div(a: Exp, b: Exp) -> (r: Exp)
    ensures
        r@ == ExprV::Mul(seq![a@, ExprV::Pow(Box::new(b@), Box::new(minus_one()))]),
{
    self::mul(a, inv(b))
}

/// A function of one argument applied to `a`.
pub fn unary(kind: crate::number::UnaryKind, a: Exp) -> (r: Exp)
    ensures
        r@ == ExprV::Unary(kind, Box::new(a@)),
{
    Box::new(Expr::Unary(kind, a))
}

/// A call of the function of that name.
pub fn func(name: String, args: Vec<Expr>) -> (r: Exp)
    ensures
        r@ == ExprV::Fn(name@, models(args)),
{
    Box::new(Expr::Fn(name, args))
}

} // verus!

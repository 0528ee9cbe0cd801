//! Algebraic identity elimination: a zero that leads a sum, a one that leads
//! a product, and the powers with zero or one on either side.
//!
//! It is meant to run after constant reduction, where the one constant of a
//! sum or product comes first.

use vstd::prelude::*;
use crate::expr::{models, Expr, ExprV};
use crate::number::{ONE_BITS, ZERO_BITS};
use crate::reduce::node;
use crate::term::{Term, TermV};

verus! {

/// The identity element of a sum or product leads the children.
pub open spec fn leads_with_identity(sum: bool, c: Seq<ExprV>) -> bool {
    c.len() >= 2 && if sum {
        c[0].zero()
    } else {
        c[0].one()
    }
}

/// A sum or product without a leading identity element: the children that
/// remain, or the one that remains alone.
pub open spec fn trimmed(sum: bool, c: Seq<ExprV>) -> ExprV {
    if leads_with_identity(sum, c) {
        if c.len() == 2 {
            c[1]
        } else {
            node(sum, c.skip(1))
        }
    } else {
        node(sum, c)
    }
}

/// A power with its special cases taken, in this order: base zero gives zero,
/// exponent zero gives one, base one gives one, exponent one gives the base.
pub open spec fn settled(a: ExprV, b: ExprV) -> ExprV {
    if a.zero() {
        ExprV::Term(TermV::Real(ZERO_BITS))
    } else if b.zero() {
        ExprV::Term(TermV::Real(ONE_BITS))
    } else if a.one() {
        ExprV::Term(TermV::Real(ONE_BITS))
    } else if b.one() {
        a
    } else {
        ExprV::Pow(Box::new(a), Box::new(b))
    }
}

/// Each expression of a list with its special cases taken.
pub open spec fn special_each(c: Seq<ExprV>) -> Seq<ExprV>
    decreases c,
{
    Seq::new(
        c.len(),
        |i: int|
            if 0 <= i < c.len() {
                special(c[i])
            } else {
                ExprV::Add(Seq::empty())
            },
    )
}

/// The expression with its special cases taken, from the leaves up.
pub open spec fn special(e: ExprV) -> ExprV
    decreases e,
{
    match e {
        ExprV::Term(_) => e,
        ExprV::Add(c) => trimmed(true, special_each(c)),
        ExprV::Mul(c) => trimmed(false, special_each(c)),
        ExprV::Pow(a, b) => settled(special(*a), special(*b)),
        ExprV::Unary(kind, a) => ExprV::Unary(kind, Box::new(special(*a))),
        ExprV::Fn(name, args) => ExprV::Fn(name, special_each(args)),
    }
}

/// A sum or product of the given children without a leading identity element.
pub fn trim(sum: bool, n: Vec<Expr>) -> (r: Expr)
    ensures
        r@ == trimmed(sum, models(n)),
{
    let ghost c = models(n);
    let mut n = n;
    let leads: bool = if n.len() >= 2 {
        assert(c[0] == n[0]@);
        if sum {
            n[0].is_zero()
        } else {
            n[0].is_one()
        }
    } else {
        false
    };
    if leads {
        assert(c[1] == n[1]@);
        let _ = n.remove(0);
        assert(models(n) =~= c.skip(1));
        if n.len() == 1 {
            return n.remove(0);
        }
    }
    if sum {
        Expr::Add(n)
    } else {
        Expr::Mul(n)
    }
}

/// A power of the given base and exponent with its special cases taken.
pub fn settle(a: Expr, b: Expr) -> (r: Expr)
    ensures
        r@ == settled(a@, b@),
{
    if a.is_zero() {
        Expr::Term(Term::Real(ZERO_BITS))
    } else if b.is_zero() {
        Expr::Term(Term::Real(ONE_BITS))
    } else if a.is_one() {
        Expr::Term(Term::Real(ONE_BITS))
    } else if b.is_one() {
        a
    } else {
        Expr::Pow(Box::new(a), Box::new(b))
    }
}

/// Each expression of a list with its special cases taken.
pub fn special_all(v: &Vec<Expr>) -> (r: Vec<Expr>)
    ensures
        models(r) == special_each(models(*v)),
    decreases v,
{
    let mut out: Vec<Expr> = Vec::new();
    let mut i: usize = 0;
    while i < v.len()
        invariant
            i <= v.len(),
            out.len() == i,
            forall|j: int| 0 <= j < i ==> out[j]@ == special(v[j]@),
        decreases v.len() - i,
    {
        out.push(v[i].special_cases());
        i = i + 1;
    }
    assert(models(out) =~= special_each(models(*v)));
    out
}

impl Expr {
    /// Simplifies special cases like adding 0. Assumes constants have been
    /// reduced already.
    pub fn special_cases(&self) -> (r: Expr)
        ensures
            r@ == special(self@),
        decreases self,
    {
        match self {
            Expr::Term(_) => self.clone(),
            Expr::Add(n) => trim(true, special_all(n)),
            Expr::Mul(n) => trim(false, special_all(n)),
            Expr::Pow(a, b) => settle(a.special_cases(), b.special_cases()),
            Expr::Unary(kind, a) => Expr::Unary(*kind, Box::new(a.special_cases())),
            Expr::Fn(name, args) => Expr::Fn(name.clone(), special_all(args)),
        }
    }
}

} // verus!

//! The expansion of small whole powers into products: `a ^ 3` becomes
//! `a * a * a`. It is no pass of the pipeline.

use vstd::prelude::*;
use crate::expr::{models, Expr, ExprV};
use crate::number::{FIVE_BITS, FOUR_BITS, THREE_BITS, TWO_BITS};
use crate::term::{Term, TermV};

verus! {

/// How often the base of a power with that exponent is to be written: the
/// exponent itself where it is a number equal to two, three, four or five.
pub open spec fn small_power(b: ExprV) -> Option<nat> {
    if !b.constant() {
        None
    } else if b.leaf().equal(TermV::Real(TWO_BITS)) {
        Some(2)
    } else if b.leaf().equal(TermV::Real(THREE_BITS)) {
        Some(3)
    } else if b.leaf().equal(TermV::Real(FOUR_BITS)) {
        Some(4)
    } else if b.leaf().equal(TermV::Real(FIVE_BITS)) {
        Some(5)
    } else {
        None
    }
}

/// Each expression of a list with its small powers written out.
pub open spec fn powered_each(c: Seq<ExprV>) -> Seq<ExprV>
    decreases c,
{
    Seq::new(
        c.len(),
        |i: int|
            if 0 <= i < c.len() {
                powered(c[i])
            } else {
                ExprV::Add(Seq::empty())
            },
    )
}

/// The expression with its small powers written out as products. A power is
/// looked for at the top and among the operands of sums and products, at any
/// depth of them; the base of a power, the operand of a function and the
/// arguments of a call are left as they are.
pub open spec fn powered(e: ExprV) -> ExprV
    decreases e,
{
    match e {
        ExprV::Pow(a, b) => match small_power(*b) {
            Some(n) => ExprV::Mul(Seq::new(n, |i: int| *a)),
            None => e,
        },
        ExprV::Add(c) => ExprV::Add(powered_each(c)),
        ExprV::Mul(c) => ExprV::Mul(powered_each(c)),
        _ => e,
    }
}

/// How often the base of a power with that exponent is to be written.
pub fn small_power_of(b: &Expr) -> (r: Option<usize>)
    ensures
        match r {
            Some(n) => small_power(b@) == Some(n as nat),
            None => small_power(b@) is None,
        },
{
    if !b.is_const() {
        return None;
    }
    let t: Term = b.force_const();
    if t == Term::Real(TWO_BITS) {
        Some(2)
    } else if t == Term::Real(THREE_BITS) {
        Some(3)
    } else if t == Term::Real(FOUR_BITS) {
        Some(4)
    } else if t == Term::Real(FIVE_BITS) {
        Some(5)
    } else {
        None
    }
}

/// Each expression of a list with its small powers written out.
pub fn expand_pow_all(v: &Vec<Expr>) -> (r: Vec<Expr>)
    ensures
        models(r) == powered_each(models(*v)),
    decreases v,
{
    let mut out: Vec<Expr> = Vec::new();
    let mut i: usize = 0;
    while i < v.len()
        invariant
            i <= v.len(),
            out.len() == i,
            forall|j: int| 0 <= j < i ==> out[j]@ == powered(v[j]@),
        decreases v.len() - i,
    {
        out.push(v[i].expand_pow());
        i = i + 1;
    }
    assert(models(out) =~= powered_each(models(*v)));
    out
}

impl Expr {
    /// For small integer powers, expand them into multiplication.
    pub fn expand_pow(&self) -> (r: Expr)
        ensures
            r@ == powered(self@),
        decreases self,
    {
        match self {
            Expr::Pow(a, b) => match small_power_of(b) {
                Some(n) => {
                    let mut out: Vec<Expr> = Vec::new();
                    let mut i: usize = 0;
                    while i < n
                        invariant
                            i <= n,
                            out.len() == i,
                            forall|j: int| 0 <= j < i ==> out[j]@ == a@,
                        decreases n - i,
                    {
                        out.push((**a).clone());
                        i = i + 1;
                    }
                    assert(models(out) =~= Seq::new(n as nat, |i: int| a@));
                    Expr::Mul(out)
                },
                None => self.clone(),
            },
            Expr::Add(n) => Expr::Add(expand_pow_all(n)),
            Expr::Mul(n) => Expr::Mul(expand_pow_all(n)),
            _ => self.clone(),
        }
    }
}

} // verus!

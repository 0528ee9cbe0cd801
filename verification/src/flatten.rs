//! Flattening: a sum directly inside a sum, or a product directly inside a
//! product, gives its operands to the outer node.

use vstd::prelude::*;
use crate::expr::{models, Expr, ExprV};

verus! {

/// The operands that an expression contributes to a sum (`sum`) or product
/// around it: its own flattened operands where it is a node of that kind,
/// else itself, flattened.
pub open spec fn operands(e: ExprV, sum: bool) -> Seq<ExprV>
    decreases e, 1nat,
{
    match e {
        ExprV::Add(c) => if sum {
            spliced(c, sum)
        } else {
            seq![flat(e)]
        },
        ExprV::Mul(c) => if !sum {
            spliced(c, sum)
        } else {
            seq![flat(e)]
        },
        _ => seq![flat(e)],
    }
}

/// The operands that the members of a list contribute, one after the other.
pub open spec fn spliced(c: Seq<ExprV>, sum: bool) -> Seq<ExprV>
    decreases c, 0nat,
{
    if c.len() == 0 {
        Seq::empty()
    } else {
        spliced(c.drop_last(), sum) + operands(c.last(), sum)
    }
}

/// Each expression of a list, flattened.
pub open spec fn flat_each(c: Seq<ExprV>) -> Seq<ExprV>
    decreases c, 0nat,
{
    Seq::new(
        c.len(),
        |i: int|
            if 0 <= i < c.len() {
                flat(c[i])
            } else {
                ExprV::Add(Seq::empty())
            },
    )
}

/// The expression with every nest of sums made one sum and every nest of
/// products one product.
pub open spec fn flat(e: ExprV) -> ExprV
    decreases e, 0nat,
{
    match e {
        ExprV::Term(_) => e,
        ExprV::Add(c) => ExprV::Add(spliced(c, true)),
        ExprV::Mul(c) => ExprV::Mul(spliced(c, false)),
        ExprV::Pow(a, b) => ExprV::Pow(Box::new(flat(*a)), Box::new(flat(*b))),
        ExprV::Unary(kind, a) => ExprV::Unary(kind, Box::new(flat(*a))),
        ExprV::Fn(name, args) => ExprV::Fn(name, flat_each(args)),
    }
}

/// The operands that the members of a list contribute to a sum or product.
pub fn splice(v: &Vec<Expr>, sum: bool) -> (r: Vec<Expr>)
    ensures
        models(r) == spliced(models(*v), sum),
    decreases v, 0nat,
{
    let mut out: Vec<Expr> = Vec::new();
    let mut i: usize = 0;
    assert(models(*v).take(0) =~= Seq::empty());
    assert(models(out) =~= Seq::empty());
    while i < v.len()
        invariant
            i <= v.len(),
            models(out) == spliced(models(*v).take(i as int), sum),
        decreases v.len() - i,
    {
        let ghost before = models(out);
        proof {
            let c = models(*v);
            assert(c.take(i + 1).drop_last() =~= c.take(i as int));
            assert(c.take(i + 1).last() == v[i as int]@);
        }
        let mut more: Vec<Expr> = if sum {
            v[i].flatten_add()
        } else {
            v[i].flatten_mul()
        };
        let ghost added = models(more);
        out.append(&mut more);
        assert(models(out) =~= before + added);
        i = i + 1;
    }
    assert(models(*v).take(v.len() as int) =~= models(*v));
    out
}

/// Each expression of a list, flattened.
pub fn flatten_all(v: &Vec<Expr>) -> (r: Vec<Expr>)
    ensures
        models(r) == flat_each(models(*v)),
    decreases v, 0nat,
{
    let mut out: Vec<Expr> = Vec::new();
    let mut i: usize = 0;
    while i < v.len()
        invariant
            i <= v.len(),
            out.len() == i,
            forall|j: int| 0 <= j < i ==> out[j]@ == flat(v[j]@),
        decreases v.len() - i,
    {
        out.push(v[i].flatten());
        i = i + 1;
    }
    assert(models(out) =~= flat_each(models(*v)));
    out
}

impl Expr {
    /// Flattens Add and Mul trees.
    pub fn flatten(&self) -> (r: Expr)
        ensures
            r@ == flat(self@),
        decreases self, 0nat,
    {
        match self {
            Expr::Term(_) => self.clone(),
            Expr::Add(n) => Expr::Add(splice(n, true)),
            Expr::Mul(n) => Expr::Mul(splice(n, false)),
            Expr::Pow(a, b) => Expr::Pow(Box::new(a.flatten()), Box::new(b.flatten())),
            Expr::Unary(kind, a) => Expr::Unary(*kind, Box::new(a.flatten())),
            Expr::Fn(name, args) => Expr::Fn(name.clone(), flatten_all(args)),
        }
    }

    /// The operands that `self` gives to a product around it.
    pub fn flatten_mul(&self) -> (r: Vec<Expr>)
        ensures
            models(r) == operands(self@, false),
        decreases self, 1nat,
    {
        match self {
            Expr::Mul(n) => splice(n, false),
            _ => {
                let mut out: Vec<Expr> = Vec::new();
                out.push(self.flatten());
                assert(models(out) =~= seq![flat(self@)]);
                out
            },
        }
    }

    /// The operands that `self` gives to a sum around it.
    pub fn flatten_add(&self) -> (r: Vec<Expr>)
        ensures
            models(r) == operands(self@, true),
        decreases self, 1nat,
    {
        match self {
            Expr::Add(n) => splice(n, true),
            _ => {
                let mut out: Vec<Expr> = Vec::new();
                out.push(self.flatten());
                assert(models(out) =~= seq![flat(self@)]);
                out
            },
        }
    }
}

} // verus!

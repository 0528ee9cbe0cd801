//! The expression tree.
//!
//! A composite node owns its children. Subtraction and division are no node
//! kinds of their own: `a - b` is `a + (-1) * b`, and `a / b` is
//! `a * b ^ (-1)`.

use vstd::prelude::*;
use crate::number::UnaryKind;
use crate::term::{Term, TermV};

pub mod f;

verus! {

/// A boxed expression, as the constructors of [`f`] hand them out.
pub type Exp = Box<Expr>;

/// An expression tree node.
#[derive(Debug, PartialEq)]
pub enum Expr {
    Term(Term),
    Add(Vec<Expr>),
    Mul(Vec<Expr>),
    Pow(Box<Expr>, Box<Expr>),
    Unary(UnaryKind, Box<Expr>),
    Fn(String, Vec<Expr>),
}

/// An expression as contracts speak of it.
pub ghost enum ExprV {
    Term(TermV),
    Add(Seq<ExprV>),
    Mul(Seq<ExprV>),
    Pow(Box<ExprV>, Box<ExprV>),
    Unary(UnaryKind, Box<ExprV>),
    Fn(Seq<char>, Seq<ExprV>),
}

/// The views of a list of expressions, in order.
pub open spec fn models(v: Vec<Expr>) -> Seq<ExprV>
    decreases v,
{
    Seq::new(
        v.len() as nat,
        |i: int|
            if 0 <= i < v.len() {
                v[i].model()
            } else {
                ExprV::Add(Seq::empty())
            },
    )
}

impl Expr {
    /// The view, by recursion over the tree.
    pub open spec fn model(&self) -> ExprV
        decreases self,
    {
        match self {
            Expr::Term(t) => ExprV::Term(t@),
            Expr::Add(v) => ExprV::Add(models(*v)),
            Expr::Mul(v) => ExprV::Mul(models(*v)),
            Expr::Pow(a, b) => ExprV::Pow(Box::new(a.model()), Box::new(b.model())),
            Expr::Unary(kind, a) => ExprV::Unary(*kind, Box::new(a.model())),
            Expr::Fn(name, args) => ExprV::Fn(name@, models(*args)),
        }
    }
}

impl View for Expr {
    type V = ExprV;

    open spec fn view(&self) -> ExprV {
        self.model()
    }
}

impl ExprV {
    /// The node is a leaf.
    pub open spec fn term(self) -> bool {
        self is Term
    }

    /// The node is a numeric leaf.
    pub open spec fn constant(self) -> bool {
        self matches ExprV::Term(t) && t.constant()
    }

    /// The node is a leaf that holds zero.
    pub open spec fn zero(self) -> bool {
        self matches ExprV::Term(t) && t.zero()
    }

    /// The node is a leaf that holds one.
    pub open spec fn one(self) -> bool {
        self matches ExprV::Term(t) && t.one()
    }

    /// The node is a leaf that holds minus one.
    pub open spec fn neg_one(self) -> bool {
        self matches ExprV::Term(t) && t.neg_one()
    }

    /// The node is a sum or a product.
    pub open spec fn commutative(self) -> bool {
        self is Add || self is Mul
    }

    /// The key by which the children of a sum or product are ordered: 0 for a
    /// number, 1 for a variable, 2 for a composite node.
    pub open spec fn order(self) -> u8 {
        match self {
            ExprV::Term(TermV::Var(_)) => 1,
            ExprV::Term(_) => 0,
            _ => 2,
        }
    }

    /// The node is a product whose first factor is minus one.
    pub open spec fn negation(self) -> bool {
        self matches ExprV::Mul(n) && n.len() > 0 && n[0].neg_one()
    }

    /// The node is a power whose exponent is minus one.
    pub open spec fn inverse(self) -> bool {
        self matches ExprV::Pow(_, p) && p.neg_one()
    }

    /// The node is a product of two of which one, and only one, is an
    /// inverse.
    pub open spec fn division(self) -> bool {
        self matches ExprV::Mul(n) && n.len() == 2 && (n[0].inverse() != n[1].inverse())
    }

    /// The node is an operation on two: a power, or a sum or product of two.
    pub open spec fn binary(self) -> bool {
        match self {
            ExprV::Add(n) => n.len() == 2,
            ExprV::Mul(n) => n.len() == 2,
            ExprV::Pow(_, _) => true,
            _ => false,
        }
    }
}

/// A copy of each expression of a list.
pub fn clone_all(v: &Vec<Expr>) -> (r: Vec<Expr>)
    ensures
        models(r) == models(*v),
    decreases v,
{
    let mut out: Vec<Expr> = Vec::new();
    let mut i: usize = 0;
    while i < v.len()
        invariant
            i <= v.len(),
            out.len() == i,
            forall|j: int| 0 <= j < i ==> out[j]@ == v[j]@,
        decreases v.len() - i,
    {
        out.push(v[i].clone());
        i = i + 1;
    }
    assert(models(out) =~= models(*v));
    out
}

impl Clone for Expr {
    fn clone(&self) -> (r: Expr)
        ensures
            r@ == self@,
        decreases self,
    {
        match self {
            Expr::Term(t) => Expr::Term(t.clone()),
            Expr::Add(v) => Expr::Add(clone_all(v)),
            Expr::Mul(v) => Expr::Mul(clone_all(v)),
            Expr::Pow(a, b) => Expr::Pow(Box::new((**a).clone()), Box::new((**b).clone())),
            Expr::Unary(kind, a) => Expr::Unary(*kind, Box::new((**a).clone())),
            Expr::Fn(name, args) => Expr::Fn(name.clone(), clone_all(args)),
        }
    }
}

impl Expr {
    /// Checks if `self` is a term.
    pub fn is_term(&self) -> (r: bool)
        ensures
            r == self@.term(),
    {
        match self {
            Expr::Term(_) => true,
            _ => false,
        }
    }

    /// Checks if `self` is a constant term.
    pub fn is_const(&self) -> (r: bool)
        ensures
            r == self@.constant(),
    {
        match self {
            Expr::Term(t) => t.is_const(),
            _ => false,
        }
    }

    /// Checks if `self` is zero.
    pub fn is_zero(&self) -> (r: bool)
        ensures
            r == self@.zero(),
    {
        match self {
            Expr::Term(t) => t.is_zero(),
            _ => false,
        }
    }

    /// Checks if `self` is one.
    pub fn is_one(&self) -> (r: bool)
        ensures
            r == self@.one(),
    {
        match self {
            Expr::Term(t) => t.is_one(),
            _ => false,
        }
    }

    /// Checks if `self` is minus one. Constants are taken as they stand.
    pub fn is_neg_one(&self) -> (r: bool)
        ensures
            r == self@.neg_one(),
    {
        match self {
            Expr::Term(t) => t.is_neg_one(),
            _ => false,
        }
    }

    /// Checks if `self` is a commutative operation.
    pub fn is_commutative(&self) -> (r: bool)
        ensures
            r == self@.commutative(),
    {
        match self {
            Expr::Add(_) | Expr::Mul(_) => true,
            _ => false,
        }
    }

    /// Checks if `self` is a negation: a product that starts with minus one.
    pub fn is_neg(&self) -> (r: bool)
        ensures
            r == self@.negation(),
    {
        match self {
            Expr::Mul(n) => {
                assert(models(*n).len() == n.len());
                if n.len() > 0 {
                    assert(models(*n)[0] == n[0]@);
                    n[0].is_neg_one()
                } else {
                    false
                }
            },
            _ => false,
        }
    }

    /// Checks if `self` is an inverse: a power with the exponent minus one.
    pub fn is_inv(&self) -> (r: bool)
        ensures
            r == self@.inverse(),
    {
        match self {
            Expr::Pow(_, p) => p.is_neg_one(),
            _ => false,
        }
    }

    /// Checks if `self` is a division: a product of two of which one, and
    /// only one, is an inverse.
    pub fn is_div(&self) -> (r: bool)
        ensures
            r == self@.division(),
    {
        match self {
            Expr::Mul(n) => {
                assert(models(*n).len() == n.len());
                if n.len() == 2 {
                    assert(models(*n)[0] == n[0]@);
                    assert(models(*n)[1] == n[1]@);
                    n[0].is_inv() != n[1].is_inv()
                } else {
                    false
                }
            },
            _ => false,
        }
    }

    /// Checks if `self` is a binary operation (has 2 inputs).
    pub fn is_binary(&self) -> (r: bool)
        ensures
            r == self@.binary(),
    {
        match self {
            Expr::Add(n) => {
                assert(models(*n).len() == n.len());
                n.len() == 2
            },
            Expr::Mul(n) => {
                assert(models(*n).len() == n.len());
                n.len() == 2
            },
            Expr::Pow(_, _) => true,
            _ => false,
        }
    }

    /// The constant that the leaf holds. Only a numeric leaf can be forced.
    pub fn force_const(&self) -> (r: Term)
        requires
            self@.constant(),
        ensures
            ExprV::Term(r@) == self@,
    {
        match self {
            Expr::Term(t) => t.force_const(),
            _ => {
                proof {
                    assert(false);
                }
                Term::zero()
            },
        }
    }

    /// The key by which the children of a sum or product are ordered.
    pub fn order_num(&self) -> (r: u8)
        ensures
            r == self@.order(),
    {
        match self {
            Expr::Term(Term::Real(_)) => 0,
            Expr::Term(Term::Complex(_, _)) => 0,
            Expr::Term(Term::Var(_)) => 1,
            _ => 2,
        }
    }

    /// Boxes up `self`.
    pub fn boxed(self) -> (r: Exp)
        ensures
            r@ == self@,
    {
        Box::new(self)
    }

}

impl From<Term> for Expr {
    /// The leaf that holds a term.
    fn from(value: Term) -> (r: Expr) {
        Expr::Term(value)
    }
}

impl vstd::std_specs::convert::FromSpecImpl<Term> for Expr {
    open spec fn obeys_from_spec() -> bool {
        true
    }

    open spec fn from_spec(v: Term) -> Expr {
        Expr::Term(v)
    }
}

} // verus!

//! The leaves of an expression: real numbers, complex numbers and variables.

use vstd::prelude::*;
use vstd::std_specs::cmp::PartialEqSpecImpl;
use crate::number::{binary, binary_result, oracle, unary, unary_result, usable, Arith, Op, Scalar, UnaryKind, ONE_BITS, ZERO_BITS};

verus! {

/// A leaf value. The two numeric variants are constants; a variable is not.
#[derive(Debug)]
pub enum Term {
    Real(u64),
    Complex(u64, u64),
    Var(String),
}

/// A leaf as contracts speak of it: a variable by the characters of its name.
pub ghost enum TermV {
    Real(u64),
    Complex(u64, u64),
    Var(Seq<char>),
}

impl TermV {
    /// The leaf is a number.
    pub open spec fn constant(self) -> bool {
        !(self is Var)
    }

    /// The number of a constant leaf.
    pub open spec fn scalar(self) -> Scalar
        recommends
            self.constant(),
    {
        match self {
            TermV::Real(a) => Scalar::Real(a),
            TermV::Complex(re, im) => Scalar::Complex(re, im),
            TermV::Var(_) => Scalar::Real(ZERO_BITS),
        }
    }

    /// The leaf that holds a number.
    pub open spec fn of(s: Scalar) -> TermV {
        match s {
            Scalar::Real(a) => TermV::Real(a),
            Scalar::Complex(re, im) => TermV::Complex(re, im),
        }
    }

    /// The leaf is a number, and that number is zero.
    pub open spec fn zero(self) -> bool {
        self.constant() && self.scalar().zero()
    }

    /// The leaf is a number, and that number is one.
    pub open spec fn one(self) -> bool {
        self.constant() && self.scalar().one()
    }

    /// The leaf is a number, and that number is minus one.
    pub open spec fn neg_one(self) -> bool {
        self.constant() && self.scalar().neg_one()
    }

    /// Two numbers are equal by value, a real being promoted to a complex
    /// number where the other is one; two variables are equal by name; a
    /// number never equals a variable.
    pub open spec fn equal(self, other: TermV) -> bool {
        match (self, other) {
            (TermV::Var(a), TermV::Var(b)) => a == b,
            (TermV::Var(_), _) => false,
            (_, TermV::Var(_)) => false,
            _ => self.scalar().same_value(other.scalar()),
        }
    }

    /// The sum, product or power of two constant leaves.
    pub open spec fn combined(self, op: Op, other: TermV, arith: Arith) -> TermV
        recommends
            self.constant(),
            other.constant(),
    {
        TermV::of(binary_result(op, self.scalar(), other.scalar(), arith))
    }

    /// A function of one argument applied to a constant leaf.
    pub open spec fn applied(self, kind: UnaryKind, arith: Arith) -> TermV
        recommends
            self.constant(),
    {
        TermV::of(unary_result(kind, self.scalar(), arith))
    }
}

impl View for Term {
    type V = TermV;

    open spec fn view(&self) -> TermV {
        match self {
            Term::Real(a) => TermV::Real(*a),
            Term::Complex(re, im) => TermV::Complex(*re, *im),
            Term::Var(name) => TermV::Var(name@),
        }
    }
}

impl Clone for Term {
    fn clone(&self) -> (r: Term)
        ensures
            r@ == self@,
    {
        match self {
            Term::Real(a) => Term::Real(*a),
            Term::Complex(re, im) => Term::Complex(*re, *im),
            Term::Var(name) => Term::Var(name.clone()),
        }
    }
}

impl PartialEq for Term {
    fn eq(&self, other: &Term) -> (r: bool) {
        match (self, other) {
            (Term::Var(a), Term::Var(b)) => *a == *b,
            (Term::Var(_), _) => false,
            (_, Term::Var(_)) => false,
            _ => self.number().equals(&other.number()),
        }
    }
}

impl PartialEqSpecImpl for Term {
    open spec fn obeys_eq_spec() -> bool {
        true
    }

    open spec fn eq_spec(&self, other: &Term) -> bool {
        self@.equal(other@)
    }
}

impl From<String> for Term {
    /// The variable of that name.
    fn from(value: String) -> (r: Term) {
        Term::Var(value)
    }
}

impl vstd::std_specs::convert::FromSpecImpl<String> for Term {
    open spec fn obeys_from_spec() -> bool {
        true
    }

    open spec fn from_spec(v: String) -> Term {
        Term::Var(v)
    }
}

impl Term {
    /// The leaf that holds a number.
    pub fn from_scalar(s: Scalar) -> (r: Term)
        ensures
            r@ == TermV::of(s),
    {
        match s {
            Scalar::Real(a) => Term::Real(a),
            Scalar::Complex(re, im) => Term::Complex(re, im),
        }
    }

    /// The number of a constant leaf; real zero for a variable.
    pub fn number(&self) -> (r: Scalar)
        ensures
            r == self@.scalar(),
    {
        match self {
            Term::Real(a) => Scalar::Real(*a),
            Term::Complex(re, im) => Scalar::Complex(*re, *im),
            Term::Var(_) => Scalar::Real(ZERO_BITS),
        }
    }

    /// The real number zero.
    pub fn zero() -> (r: Term)
        ensures
            r@ == TermV::Real(ZERO_BITS),
            r@.zero(),
    {
        Term::Real(ZERO_BITS)
    }

    /// The real number one.
    pub fn one() -> (r: Term)
        ensures
            r@ == TermV::Real(ONE_BITS),
            r@.one(),
    {
        Term::Real(ONE_BITS)
    }

    /// Checks if `self` is const.
    pub fn is_const(&self) -> (r: bool)
        ensures
            r == self@.constant(),
    {
        match self {
            Term::Var(_) => false,
            Term::Real(_) => true,
            Term::Complex(_, _) => true,
        }
    }

    /// The constant itself. A variable cannot be forced.
    pub fn force_const(&self) -> (r: Term)
        requires
            self@.constant(),
        ensures
            r@ == self@,
    {
        self.clone()
    }

    /// Checks if `self` is zero.
    pub fn is_zero(&self) -> (r: bool)
        ensures
            r == self@.zero(),
    {
        match self {
            Term::Var(_) => false,
            _ => self.number().is_zero(),
        }
    }

    /// Checks if `self` is one.
    pub fn is_one(&self) -> (r: bool)
        ensures
            r == self@.one(),
    {
        match self {
            Term::Var(_) => false,
            _ => self.number().is_one(),
        }
    }

    /// Checks if `self` is minus one.
    pub fn is_neg_one(&self) -> (r: bool)
        ensures
            r == self@.neg_one(),
    {
        match self {
            Term::Var(_) => false,
            _ => self.number().is_neg_one(),
        }
    }

    /// The sum of two constants.
    pub fn add<A: Fn(Op, Scalar, Scalar) -> Scalar>(&self, rhs: &Term, arith: &A) -> (r: Term)
        requires
            usable(arith),
            self@.constant(),
            rhs@.constant(),
        ensures
            r@ == self@.combined(Op::Add, rhs@, oracle(arith)),
    {
        Term::from_scalar(binary(Op::Add, self.number(), rhs.number(), arith))
    }

    /// The product of two constants.
    pub fn mul<A: Fn(Op, Scalar, Scalar) -> Scalar>(&self, rhs: &Term, arith: &A) -> (r: Term)
        requires
            usable(arith),
            self@.constant(),
            rhs@.constant(),
        ensures
            r@ == self@.combined(Op::Mul, rhs@, oracle(arith)),
    {
        Term::from_scalar(binary(Op::Mul, self.number(), rhs.number(), arith))
    }

    /// A constant raised to a constant.
    pub fn pow<A: Fn(Op, Scalar, Scalar) -> Scalar>(&self, rhs: &Term, arith: &A) -> (r: Term)
        requires
            usable(arith),
            self@.constant(),
            rhs@.constant(),
        ensures
            r@ == self@.combined(Op::Pow, rhs@, oracle(arith)),
    {
        Term::from_scalar(binary(Op::Pow, self.number(), rhs.number(), arith))
    }

    /// The sum, product or power of two constants, by the operation's name.
    pub fn combine<A: Fn(Op, Scalar, Scalar) -> Scalar>(
        &self,
        op: Op,
        rhs: &Term,
        arith: &A,
    ) -> (r: Term)
        requires
            usable(arith),
            self@.constant(),
            rhs@.constant(),
        ensures
            r@ == self@.combined(op, rhs@, oracle(arith)),
    {
        Term::from_scalar(binary(op, self.number(), rhs.number(), arith))
    }

    /// A function of one argument applied to a constant.
    pub fn apply<A: Fn(Op, Scalar, Scalar) -> Scalar>(&self, kind: UnaryKind, arith: &A) -> (r:
        Term)
        requires
            usable(arith),
            self@.constant(),
        ensures
            r@ == self@.applied(kind, oracle(arith)),
    {
        Term::from_scalar(unary(kind, self.number(), arith))
    }
}

} // verus!

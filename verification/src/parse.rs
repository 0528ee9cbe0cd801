//! The statements of a context description, as a parser hands them over.
//!
//! A statement declares a variable or a function. The body of either is an
//! expression in three levels of binding strength: sums, products, powers.
//! Each level associates to the left. A number literal is held as the
//! bit pattern of its value.

use vstd::prelude::*;

verus! {

/// A standalone statement in some context description.
#[derive(Debug)]
pub enum Statement {
    Let { name: String, body: Expr },
    Fn { recursive: bool, name: String, args: Vec<String>, body: Expr },
}

/// The operators of a sum.
#[derive(Clone, Copy, Debug, PartialEq, Eq, Structural)]
pub enum AddOp {
    Add,
    Sub,
}

/// The operators of a product.
#[derive(Clone, Copy, Debug, PartialEq, Eq, Structural)]
pub enum MulOp {
    Mul,
    Div,
}

/// The operator of a power.
#[derive(Clone, Copy, Debug, PartialEq, Eq, Structural)]
pub enum PowOp {
    Pow,
}

/// An expression: a sum or difference of products, read left to right.
#[derive(Debug)]
pub enum Expr {
    Binary { lhs: Box<Expr>, op: AddOp, rhs: Product },
    Rhs(Product),
}

/// A product or quotient of powers, read left to right.
#[derive(Debug)]
pub enum Product {
    Binary { lhs: Box<Product>, op: MulOp, rhs: Power },
    Rhs(Power),
}

/// A power of nodes, read left to right.
#[derive(Debug)]
pub enum Power {
    Binary { lhs: Box<Power>, op: PowOp, rhs: Node },
    Rhs(Node),
}

/// A node that binds tighter than any operator.
#[derive(Debug)]
pub enum Node {
    Ln(Box<Expr>),
    /// The logarithm to a base: the base, then the argument.
    Log(Box<Expr>, Box<Expr>),
    /// The root of a degree: the degree, then the argument.
    Root(Box<Expr>, Box<Expr>),
    Sqrt(Box<Expr>),
    Cbrt(Box<Expr>),
    Sin(Box<Expr>),
    Cos(Box<Expr>),
    Tan(Box<Expr>),
    Sinh(Box<Expr>),
    Cosh(Box<Expr>),
    Tanh(Box<Expr>),
    Asin(Box<Expr>),
    Acos(Box<Expr>),
    Atan(Box<Expr>),
    Asinh(Box<Expr>),
    Acosh(Box<Expr>),
    Atanh(Box<Expr>),
    Abs(Box<Expr>),
    Fn(String, Vec<Expr>),
    Paren(Box<Expr>),
    Term(Term),
    Neg(Box<Expr>),
}

/// A leaf: a name, or a number literal by the bit pattern of its value.
#[derive(Debug)]
pub enum Term {
    Var(String),
    Float(u64),
    Int(u64),
}

} // verus!

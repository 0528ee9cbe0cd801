//! Numbers as the library holds them, and the arithmetic it is handed.
//!
//! A real number is carried as the 64-bit pattern of an IEEE-754 binary64
//! value, a complex number as two such patterns. The library never computes
//! with them: every sum, product, power and transcendental function is asked
//! of an arithmetic function that the caller supplies. What the library does
//! decide on its own are the tests that only read a bit pattern: whether a
//! number is zero, one, minus one or not a number, and whether two numbers
//! are numerically equal.

use vstd::prelude::*;

verus! {

/// The sign bit of a binary64 pattern.
pub const SIGN_BIT: u64 = 0x8000_0000_0000_0000;

/// The pattern of positive infinity; every larger magnitude is not a number.
pub const INFINITY_BITS: u64 = 0x7FF0_0000_0000_0000;

/// The pattern of `1.0`.
pub const ONE_BITS: u64 = 0x3FF0_0000_0000_0000;

/// The pattern of `-1.0`.
pub const NEG_ONE_BITS: u64 = 0xBFF0_0000_0000_0000;

/// The pattern of `+0.0`.
pub const ZERO_BITS: u64 = 0;

/// The pattern of `0.5`.
pub const HALF_BITS: u64 = 0x3FE0_0000_0000_0000;

/// The pattern of `2.0`.
pub const TWO_BITS: u64 = 0x4000_0000_0000_0000;

/// The pattern of `3.0`.
pub const THREE_BITS: u64 = 0x4008_0000_0000_0000;

/// The pattern of `4.0`.
pub const FOUR_BITS: u64 = 0x4010_0000_0000_0000;

/// The pattern of `5.0`.
pub const FIVE_BITS: u64 = 0x4014_0000_0000_0000;

/// The pattern of Euler's number.
pub const E_BITS: u64 = 0x4005_BF0A_8B14_5769;

/// The pattern of the circle constant.
pub const PI_BITS: u64 = 0x4009_21FB_5444_2D18;

/// The pattern with the sign bit cleared.
pub open spec fn bits_magnitude(b: u64) -> u64 {
    if b >= SIGN_BIT {
        (b - SIGN_BIT) as u64
    } else {
        b
    }
}

/// The pattern stands for no number.
pub open spec fn bits_is_nan(b: u64) -> bool {
    bits_magnitude(b) > INFINITY_BITS
}

/// The pattern stands for positive or negative zero.
pub open spec fn bits_is_zero(b: u64) -> bool {
    bits_magnitude(b) == 0
}

/// Binary64 equality: nothing equals a pattern that is not a number, the two
/// zeros equal each other, and any other pattern equals only itself.
pub open spec fn bits_equal(a: u64, b: u64) -> bool {
    &&& !bits_is_nan(a)
    &&& !bits_is_nan(b)
    &&& (a == b || (bits_is_zero(a) && bits_is_zero(b)))
}

/// Whether the pattern stands for no number.
pub fn is_nan_bits(b: u64) -> (r: bool)
    ensures
        r == bits_is_nan(b),
{
    let magnitude: u64 = if b >= SIGN_BIT {
        b - SIGN_BIT
    } else {
        b
    };
    magnitude > INFINITY_BITS
}

/// Whether the pattern stands for positive or negative zero.
pub fn is_zero_bits(b: u64) -> (r: bool)
    ensures
        r == bits_is_zero(b),
{
    b == ZERO_BITS || b == SIGN_BIT
}

/// Whether two patterns stand for equal numbers.
pub fn equal_bits(a: u64, b: u64) -> (r: bool)
    ensures
        r == bits_equal(a, b),
{
    !is_nan_bits(a) && !is_nan_bits(b) && (a == b || (is_zero_bits(a) && is_zero_bits(b)))
}

/// The functions of one argument that an expression can apply.
#[derive(Clone, Copy, Debug, PartialEq, Eq, Structural)]
pub enum UnaryKind {
    Neg,
    Inv,
    Abs,
    Ln,
    Sin,
    Cos,
    Tan,
    Sinh,
    Cosh,
    Tanh,
    Asin,
    Acos,
    Atan,
    Asinh,
    Acosh,
    Atanh,
}

/// What the library asks of the arithmetic it is handed.
#[derive(Clone, Copy, Debug, PartialEq, Eq, Structural)]
pub enum Op {
    /// The sum of the two operands.
    Add,
    /// The first operand less the second.
    Sub,
    /// The product of the two operands.
    Mul,
    /// The first operand divided by the second.
    Div,
    /// The first operand raised to the second.
    Pow,
    /// A function of the first operand; the second repeats the first.
    Unary(UnaryKind),
    /// The real number of that count; both operands are real zero.
    Count(u64),
}

/// A real or complex number, by its bit patterns.
#[derive(Clone, Copy, Debug, PartialEq, Eq, Structural)]
pub enum Scalar {
    Real(u64),
    Complex(u64, u64),
}

/// Arithmetic as contracts speak of it: the operation, two operands, the
/// result.
pub type Arith = spec_fn(Op, Scalar, Scalar) -> Scalar;

/// The arithmetic can be asked anything, and what it answers depends on the
/// question alone.
pub open spec fn usable<A: Fn(Op, Scalar, Scalar) -> Scalar>(arith: &A) -> bool {
    &&& forall|op: Op, a: Scalar, b: Scalar| #[trigger] arith.requires((op, a, b))
    &&& forall|op: Op, a: Scalar, b: Scalar, r: Scalar, s: Scalar|
        #[trigger] arith.ensures((op, a, b), r) && #[trigger] arith.ensures((op, a, b), s) ==> r
            == s
}

/// The function that a usable arithmetic computes.
pub open spec fn oracle<A: Fn(Op, Scalar, Scalar) -> Scalar>(arith: &A) -> Arith {
    |op: Op, a: Scalar, b: Scalar| choose|r: Scalar| arith.ensures((op, a, b), r)
}

impl Scalar {
    /// The number as a complex one: a real gets the imaginary part `+0.0`.
    pub open spec fn promoted(self) -> Scalar {
        match self {
            Scalar::Real(a) => Scalar::Complex(a, ZERO_BITS),
            Scalar::Complex(re, im) => Scalar::Complex(re, im),
        }
    }

    /// The number is zero: each part is positive or negative zero.
    pub open spec fn zero(self) -> bool {
        match self {
            Scalar::Real(a) => bits_is_zero(a),
            Scalar::Complex(re, im) => bits_is_zero(re) && bits_is_zero(im),
        }
    }

    /// The number is one: the real part is `1.0`, the imaginary part, if any,
    /// zero.
    pub open spec fn one(self) -> bool {
        match self {
            Scalar::Real(a) => a == ONE_BITS,
            Scalar::Complex(re, im) => re == ONE_BITS && bits_is_zero(im),
        }
    }

    /// The number is minus one: the real part is `-1.0`, the imaginary part,
    /// if any, zero.
    pub open spec fn neg_one(self) -> bool {
        match self {
            Scalar::Real(a) => a == NEG_ONE_BITS,
            Scalar::Complex(re, im) => re == NEG_ONE_BITS && bits_is_zero(im),
        }
    }

    /// Numeric equality after promotion of a real to a complex number.
    pub open spec fn same_value(self, other: Scalar) -> bool {
        match (self.promoted(), other.promoted()) {
            (Scalar::Complex(a, b), Scalar::Complex(c, d)) => bits_equal(a, c) && bits_equal(b, d),
            _ => false,
        }
    }

    /// The number as a complex one.
    pub fn promote(self) -> (r: Scalar)
        ensures
            r == self.promoted(),
    {
        match self {
            Scalar::Real(a) => Scalar::Complex(a, ZERO_BITS),
            Scalar::Complex(re, im) => Scalar::Complex(re, im),
        }
    }

    /// Whether the number is zero.
    pub fn is_zero(&self) -> (r: bool)
        ensures
            r == self.zero(),
    {
        match self {
            Scalar::Real(a) => is_zero_bits(*a),
            Scalar::Complex(re, im) => is_zero_bits(*re) && is_zero_bits(*im),
        }
    }

    /// Whether the number is one.
    pub fn is_one(&self) -> (r: bool)
        ensures
            r == self.one(),
    {
        match self {
            Scalar::Real(a) => *a == ONE_BITS,
            Scalar::Complex(re, im) => *re == ONE_BITS && is_zero_bits(*im),
        }
    }

    /// Whether the number is minus one.
    pub fn is_neg_one(&self) -> (r: bool)
        ensures
            r == self.neg_one(),
    {
        match self {
            Scalar::Real(a) => *a == NEG_ONE_BITS,
            Scalar::Complex(re, im) => *re == NEG_ONE_BITS && is_zero_bits(*im),
        }
    }

    /// Whether two numbers are equal by value, a real being promoted where the
    /// other is complex.
    pub fn equals(&self, other: &Scalar) -> (r: bool)
        ensures
            r == self.same_value(*other),
    {
        match (self.promote(), other.promote()) {
            (Scalar::Complex(a, b), Scalar::Complex(c, d)) => equal_bits(a, c) && equal_bits(b, d),
            _ => false,
        }
    }
}

/// What a binary operation yields: two reals are combined as reals, and a pair
/// with a complex member is combined after both are promoted.
pub open spec fn binary_result(op: Op, a: Scalar, b: Scalar, arith: Arith) -> Scalar {
    if a is Real && b is Real {
        arith(op, a, b)
    } else {
        arith(op, a.promoted(), b.promoted())
    }
}

/// What a function of one argument yields, in the real or the complex variant
/// according to the operand.
pub open spec fn unary_result(kind: UnaryKind, a: Scalar, arith: Arith) -> Scalar {
    arith(Op::Unary(kind), a, a)
}

/// The real number of a count.
pub open spec fn count_result(n: u64, arith: Arith) -> Scalar {
    arith(Op::Count(n), Scalar::Real(ZERO_BITS), Scalar::Real(ZERO_BITS))
}

/// Asks the arithmetic for a sum, difference, product, quotient or power,
/// after promotion where one operand is complex.
pub fn binary<A: Fn(Op, Scalar, Scalar) -> Scalar>(op: Op, a: Scalar, b: Scalar, arith: &A) -> (r:
    Scalar)
    requires
        usable(arith),
    ensures
        r == binary_result(op, a, b, oracle(arith)),
{
    match (a, b) {
        (Scalar::Real(_), Scalar::Real(_)) => arith(op, a, b),
        _ => arith(op, a.promote(), b.promote()),
    }
}

/// Asks the arithmetic for a function of one argument.
pub fn unary<A: Fn(Op, Scalar, Scalar) -> Scalar>(kind: UnaryKind, a: Scalar, arith: &A) -> (r:
    Scalar)
    requires
        usable(arith),
    ensures
        r == unary_result(kind, a, oracle(arith)),
{
    arith(Op::Unary(kind), a, a)
}

/// Asks the arithmetic for the real number of a count.
pub fn count<A: Fn(Op, Scalar, Scalar) -> Scalar>(n: u64, arith: &A) -> (r: Scalar)
    requires
        usable(arith),
    ensures
        r == count_result(n, oracle(arith)),
{
    arith(Op::Count(n), Scalar::Real(ZERO_BITS), Scalar::Real(ZERO_BITS))
}

} // verus!

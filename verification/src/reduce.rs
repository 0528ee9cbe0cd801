//! Constant reduction: the constant operands of a sum, product, power or
//! function of one argument are folded into one number.

use vstd::prelude::*;
use crate::expr::{models, Expr, ExprV};
use crate::number::{oracle, usable, Arith, Op, Scalar, ZERO_BITS};
use crate::order::{keep, select, sort_by_name, sorted};
use crate::term::{Term, TermV};

verus! {

impl ExprV {
    /// The term of a leaf; real zero for any other node.
    pub open spec fn leaf(self) -> TermV {
        match self {
            ExprV::Term(t) => t,
            _ => TermV::Real(ZERO_BITS),
        }
    }
}

/// The operation that a sum or a product folds its constants with.
pub open spec fn fold_op(sum: bool) -> Op {
    if sum {
        Op::Add
    } else {
        Op::Mul
    }
}

/// A sum or a product of the given children.
pub open spec fn node(sum: bool, c: Seq<ExprV>) -> ExprV {
    if sum {
        ExprV::Add(c)
    } else {
        ExprV::Mul(c)
    }
}

/// The constants of a list combined pairwise, left to right.
pub open spec fn folded(op: Op, s: Seq<ExprV>, arith: Arith) -> TermV
    decreases s.len(),
{
    if s.len() <= 1 {
        s[0].leaf()
    } else {
        folded(op, s.drop_last(), arith).combined(op, s.last().leaf(), arith)
    }
}

/// A sum or product of children that are reduced already: its constants are
/// folded into one number, which comes first; the variables follow by name,
/// then the composite children. Where every child is a constant, the node
/// becomes that number.
pub open spec fn collapsed(sum: bool, c: Seq<ExprV>, arith: Arith) -> ExprV {
    let constants = keep(c, 0);
    let rest = sorted(keep(c, 1)) + keep(c, 2);
    if constants.len() == 0 {
        node(sum, rest)
    } else if rest.len() == 0 {
        ExprV::Term(folded(fold_op(sum), constants, arith))
    } else {
        node(sum, seq![ExprV::Term(folded(fold_op(sum), constants, arith))] + rest)
    }
}

/// Each expression of a list, reduced.
pub open spec fn reduced_each(c: Seq<ExprV>, arith: Arith) -> Seq<ExprV>
    decreases c,
{
    Seq::new(
        c.len(),
        |i: int|
            if 0 <= i < c.len() {
                reduced(c[i], arith)
            } else {
                ExprV::Add(Seq::empty())
            },
    )
}

/// The expression with its constant operands folded, from the leaves up.
pub open spec fn reduced(e: ExprV, arith: Arith) -> ExprV
    decreases e,
{
    match e {
        ExprV::Term(_) => e,
        ExprV::Add(c) => collapsed(true, reduced_each(c, arith), arith),
        ExprV::Mul(c) => collapsed(false, reduced_each(c, arith), arith),
        ExprV::Pow(a, b) => {
            let x = reduced(*a, arith);
            let y = reduced(*b, arith);
            if x.constant() && y.constant() {
                ExprV::Term(x.leaf().combined(Op::Pow, y.leaf(), arith))
            } else {
                ExprV::Pow(Box::new(x), Box::new(y))
            }
        },
        ExprV::Unary(kind, a) => {
            let x = reduced(*a, arith);
            if x.constant() {
                ExprV::Term(x.leaf().applied(kind, arith))
            } else {
                ExprV::Unary(kind, Box::new(x))
            }
        },
        ExprV::Fn(name, args) => ExprV::Fn(name, reduced_each(args, arith)),
    }
}

/// Every member that `keep` keeps has the key it was kept for.
pub proof fn lemma_keep_order(c: Seq<ExprV>, order: u8)
    ensures
        forall|j: int| 0 <= j < keep(c, order).len() ==> (#[trigger] keep(c, order)[j]).order()
            == order,
    decreases c.len(),
{
    if c.len() > 0 {
        let before = keep(c.drop_last(), order);
        lemma_keep_order(c.drop_last(), order);
        assert forall|j: int| 0 <= j < keep(c, order).len() implies (#[trigger] keep(
            c,
            order,
        )[j]).order() == order by {
            if j < before.len() {
                assert(keep(c, order)[j] == before[j]);
            }
        }
    }
}

/// A sum or product of children that are reduced already, with its constants
/// folded.
pub fn collapse<A: Fn(Op, Scalar, Scalar) -> Scalar>(sum: bool, n: &Vec<Expr>, arith: &A) -> (r:
    Expr)
    requires
        usable(arith),
    ensures
        r@ == collapsed(sum, models(*n), oracle(arith)),
{
    let constants: Vec<Expr> = select(n, 0);
    let variables: Vec<Expr> = select(n, 1);
    let mut rest: Vec<Expr> = sort_by_name(&variables);
    let mut composite: Vec<Expr> = select(n, 2);
    let ghost a = models(rest);
    let ghost b = models(composite);
    rest.append(&mut composite);
    assert(models(rest) =~= a + b);
    if constants.len() == 0 {
        return if sum {
            Expr::Add(rest)
        } else {
            Expr::Mul(rest)
        };
    }
    let op: Op = if sum {
        Op::Add
    } else {
        Op::Mul
    };
    let ghost c = models(constants);
    proof {
        lemma_keep_order(models(*n), 0);
    }
    assert(c[0] == constants[0]@);
    let mut acc: Term = constants[0].force_const();
    let mut i: usize = 1;
    assert(c.take(1).len() == 1);
    while i < constants.len()
        invariant
            usable(arith),
            1 <= i <= constants.len(),
            c == models(constants),
            c == keep(models(*n), 0),
            forall|j: int| 0 <= j < c.len() ==> (#[trigger] c[j]).order() == 0,
            acc@ == folded(op, c.take(i as int), oracle(arith)),
            acc@.constant(),
        decreases constants.len() - i,
    {
        proof {
            assert(c.take(i + 1).drop_last() =~= c.take(i as int));
            assert(c.take(i + 1).last() == constants[i as int]@);
            assert(c[i as int].order() == 0);
        }
        let next: Term = constants[i].force_const();
        acc = acc.combine(op, &next, arith);
        i = i + 1;
    }
    assert(c.take(constants.len() as int) =~= c);
    if rest.len() == 0 {
        return Expr::Term(acc);
    }
    let mut out: Vec<Expr> = Vec::new();
    let ghost first = ExprV::Term(acc@);
    let ghost tail = models(rest);
    out.push(Expr::Term(acc));
    out.append(&mut rest);
    assert(models(out) =~= seq![first] + tail);
    if sum {
        Expr::Add(out)
    } else {
        Expr::Mul(out)
    }
}

/// Each expression of a list, reduced.
pub fn reduce_all<A: Fn(Op, Scalar, Scalar) -> Scalar>(v: &Vec<Expr>, arith: &A) -> (r: Vec<Expr>)
    requires
        usable(arith),
    ensures
        models(r) == reduced_each(models(*v), oracle(arith)),
    decreases v,
{
    let mut out: Vec<Expr> = Vec::new();
    let mut i: usize = 0;
    while i < v.len()
        invariant
            usable(arith),
            i <= v.len(),
            out.len() == i,
            forall|j: int| 0 <= j < i ==> out[j]@ == reduced(v[j]@, oracle(arith)),
        decreases v.len() - i,
    {
        out.push(v[i].reduce_const(arith));
        i = i + 1;
    }
    assert(models(out) =~= reduced_each(models(*v), oracle(arith)));
    out
}

impl Expr {
    /// Reduce constant nodes into terms.
    ///
    /// The children are reduced first. The constants among the children of a
    /// sum or product are then folded left to right into one number, which
    /// comes first; a power of two constants and a function of a constant
    /// become that number.
    pub fn reduce_const<A: Fn(Op, Scalar, Scalar) -> Scalar>(&self, arith: &A) -> (r: Expr)
        requires
            usable(arith),
        ensures
            r@ == reduced(self@, oracle(arith)),
        decreases self,
    {
        match self {
            Expr::Term(_) => self.clone(),
            Expr::Add(n) => {
                let children: Vec<Expr> = reduce_all(n, arith);
                collapse(true, &children, arith)
            },
            Expr::Mul(n) => {
                let children: Vec<Expr> = reduce_all(n, arith);
                collapse(false, &children, arith)
            },
            Expr::Pow(a, b) => {
                let x: Expr = a.reduce_const(arith);
                let y: Expr = b.reduce_const(arith);
                if x.is_const() && y.is_const() {
                    Expr::Term(x.force_const().pow(&y.force_const(), arith))
                } else {
                    Expr::Pow(Box::new(x), Box::new(y))
                }
            },
            Expr::Unary(kind, a) => {
                let x: Expr = a.reduce_const(arith);
                if x.is_const() {
                    Expr::Term(x.force_const().apply(*kind, arith))
                } else {
                    Expr::Unary(*kind, Box::new(x))
                }
            },
            Expr::Fn(name, args) => Expr::Fn(name.clone(), reduce_all(args, arith)),
        }
    }
}

} // verus!

//! Evaluation: an expression is brought down to one number, or found to have
//! no value.
//!
//! A variable has the value of the expression that the context binds to it;
//! failing that, the value that a call around it has given it as a
//! parameter. A parameter is thus bound only where its name is not bound
//! already: a name of the context is never overridden, nor is a parameter of
//! a call further out. Definitions are followed to a given depth only, and an
//! expression that needs more has no value.

use vstd::prelude::*;
use crate::expr::{models, Expr, ExprV};
use crate::number::{oracle, usable, Arith, Op, Scalar};
use crate::reduce::{fold_op, folded};
use crate::scope::{
    bindings, find, find_fn, fn_position, functions, names, position, Binding, Func, FuncV,
    Variable,
};
use crate::term::{Term, TermV};

verus! {

/// What a name is checked against and looked up in.
pub ghost struct Scope {
    /// The variables of the context.
    pub vars: Seq<Binding>,
    /// The functions of the context.
    pub fns: Seq<FuncV>,
    /// The arithmetic.
    pub arith: Arith,
}

/// The terms of a list of outcomes, as leaves.
pub open spec fn leaves(s: Seq<Option<TermV>>) -> Seq<ExprV> {
    Seq::new(s.len(), |i: int| ExprV::Term(s[i].unwrap()))
}

/// The terms of a list of outcomes.
pub open spec fn terms(s: Seq<Option<TermV>>) -> Seq<TermV> {
    Seq::new(s.len(), |i: int| s[i].unwrap())
}

/// Every outcome of the list is a value.
pub open spec fn all_valued(s: Seq<Option<TermV>>) -> bool {
    forall|i: int| 0 <= i < s.len() ==> (#[trigger] s[i]) is Some
}

/// The values of the operands of a sum or product combined left to right;
/// nothing where there is no operand or one of them has no value.
pub open spec fn total(op: Op, s: Seq<Option<TermV>>, arith: Arith) -> Option<TermV> {
    if s.len() > 0 && all_valued(s) {
        Some(folded(op, leaves(s), arith))
    } else {
        None
    }
}

/// The parameters of a call bound to the values of its arguments, as far as
/// both lists reach up to `n`, behind the parameters bound already. A name
/// that the context or a call further out binds is left as it is.
pub open spec fn extended(
    vars: Seq<Binding>,
    locals: Seq<Binding>,
    params: Seq<Seq<char>>,
    vals: Seq<TermV>,
    n: nat,
) -> Seq<Binding>
    decreases n,
{
    if n == 0 {
        locals
    } else {
        let before = extended(vars, locals, params, vals, (n - 1) as nat);
        let p = params[n - 1];
        if find(vars, p) is Some || find(before, p) is Some {
            before
        } else {
            before.push(Binding { name: p, value: ExprV::Term(vals[n - 1]) })
        }
    }
}

/// How many parameters of a call get an argument.
pub open spec fn reach(params: Seq<Seq<char>>, vals: Seq<TermV>) -> nat {
    if params.len() <= vals.len() {
        params.len()
    } else {
        vals.len()
    }
}

/// What each expression of a list evaluates to.
pub open spec fn values(c: Seq<ExprV>, scope: Scope, locals: Seq<Binding>, depth: nat) -> Seq<
    Option<TermV>,
>
    decreases depth, c,
{
    Seq::new(
        c.len(),
        |i: int|
            if 0 <= i < c.len() {
                value(c[i], scope, locals, depth)
            } else {
                None
            },
    )
}

/// What an expression evaluates to.
///
/// A number is its own value. A variable has the value of what the context
/// binds to it, else the value it has as a parameter, else none. A sum or
/// product combines the values of its operands left to right, a power those
/// of base and exponent, a function of one argument is applied to the value
/// of its operand. A call evaluates its arguments, then the body of the
/// function with the parameters bound to them; a call of a function that is
/// not declared has no value. Where a part has no value, the whole has none.
pub open spec fn value(e: ExprV, scope: Scope, locals: Seq<Binding>, depth: nat) -> Option<TermV>
    decreases depth, e,
{
    match e {
        ExprV::Term(TermV::Var(n)) => match find(scope.vars, n) {
            Some(b) => if depth == 0 {
                None
            } else {
                value(b, scope, locals, (depth - 1) as nat)
            },
            None => match find(locals, n) {
                Some(b) => if b.constant() {
                    Some(b.leaf())
                } else {
                    None
                },
                None => None,
            },
        },
        ExprV::Term(t) => Some(t),
        ExprV::Add(c) => total(Op::Add, values(c, scope, locals, depth), scope.arith),
        ExprV::Mul(c) => total(Op::Mul, values(c, scope, locals, depth), scope.arith),
        ExprV::Pow(a, b) => match (
            value(*a, scope, locals, depth),
            value(*b, scope, locals, depth),
        ) {
            (Some(x), Some(y)) => Some(x.combined(Op::Pow, y, scope.arith)),
            _ => None,
        },
        ExprV::Unary(kind, a) => match value(*a, scope, locals, depth) {
            Some(x) => Some(x.applied(kind, scope.arith)),
            None => None,
        },
        ExprV::Fn(name, args) => match find_fn(scope.fns, name) {
            Some(f) => {
                let given = values(args, scope, locals, depth);
                if all_valued(given) && depth > 0 {
                    value(
                        f.body,
                        scope,
                        extended(
                            scope.vars,
                            locals,
                            f.args,
                            terms(given),
                            reach(f.args, terms(given)),
                        ),
                        (depth - 1) as nat,
                    )
                } else {
                    None
                }
            },
            None => None,
        },
    }
}

/// The views of a list of terms, in order.
pub open spec fn term_views(v: Vec<Term>) -> Seq<TermV> {
    Seq::new(v.len() as nat, |i: int| v[i]@)
}

/// A copy of a list of variables.
pub fn clone_variables(v: &Vec<Variable>) -> (r: Vec<Variable>)
    ensures
        bindings(r) == bindings(*v),
{
    let mut out: Vec<Variable> = Vec::new();
    let mut i: usize = 0;
    while i < v.len()
        invariant
            i <= v.len(),
            out.len() == i,
            forall|j: int| 0 <= j < i ==> out[j]@ == v[j]@,
        decreases v.len() - i,
    {
        out.push(v[i].clone());
        i = i + 1;
    }
    assert(bindings(out) =~= bindings(*v));
    out
}

/// The parameters of a call bound to the values of its arguments, behind the
/// parameters bound already.
pub fn extend(vars: &Vec<Variable>, locals: &Vec<Variable>, params: &Vec<String>, vals: &Vec<Term>)
    -> (r: Vec<Variable>)
    ensures
        bindings(r) == extended(
            bindings(*vars),
            bindings(*locals),
            names(*params),
            term_views(*vals),
            reach(names(*params), term_views(*vals)),
        ),
{
    let count: usize = if params.len() <= vals.len() {
        params.len()
    } else {
        vals.len()
    };
    let mut out: Vec<Variable> = clone_variables(locals);
    let mut i: usize = 0;
    while i < count
        invariant
            i <= count,
            count <= params.len(),
            count <= vals.len(),
            bindings(out) == extended(
                bindings(*vars),
                bindings(*locals),
                names(*params),
                term_views(*vals),
                i as nat,
            ),
        decreases count - i,
    {
        let ghost before = bindings(out);
        assert(names(*params)[i as int] == params[i as int]@);
        assert(term_views(*vals)[i as int] == vals[i as int]@);
        if position(vars, &params[i]).is_none() && position(&out, &params[i]).is_none() {
            out.push(Variable { name: params[i].clone(), value: Expr::Term(vals[i].clone()) });
            assert(bindings(out) =~= before.push(
                Binding { name: params[i as int]@, value: ExprV::Term(vals[i as int]@) },
            ));
        }
        i = i + 1;
    }
    out
}

/// What each expression of a list evaluates to, as long as each has a value.
pub fn evaluate_all<A: Fn(Op, Scalar, Scalar) -> Scalar>(
    v: &Vec<Expr>,
    vars: &Vec<Variable>,
    fns: &Vec<Func>,
    locals: &Vec<Variable>,
    arith: &A,
    depth: usize,
) -> (r: Option<Vec<Term>>)
    requires
        usable(arith),
    ensures
        ({
            let scope = Scope {
                vars: bindings(*vars),
                fns: functions(*fns),
                arith: oracle(arith),
            };
            let given = values(models(*v), scope, bindings(*locals), depth as nat);
            match r {
                Some(out) => all_valued(given) && term_views(out) == terms(given) && forall|
                    j: int,
                | 0 <= j < out.len() ==> (#[trigger] out[j])@.constant(),
                None => !all_valued(given),
            }
        }),
    decreases depth, v,
{
    let ghost scope = Scope { vars: bindings(*vars), fns: functions(*fns), arith: oracle(arith) };
    let ghost given = values(models(*v), scope, bindings(*locals), depth as nat);
    let mut out: Vec<Term> = Vec::new();
    let mut i: usize = 0;
    while i < v.len()
        invariant
            usable(arith),
            i <= v.len(),
            out.len() == i,
            scope == (Scope { vars: bindings(*vars), fns: functions(*fns), arith: oracle(arith) }),
            given == values(models(*v), scope, bindings(*locals), depth as nat),
            forall|j: int| 0 <= j < i ==> given[j] == Some(out[j]@),
            forall|j: int| 0 <= j < i ==> (#[trigger] out[j])@.constant(),
        decreases v.len() - i,
    {
        assert(models(*v)[i as int] == v[i as int]@);
        match v[i].evaluate(vars, fns, locals, arith, depth) {
            Some(t) => {
                out.push(t);
            },
            None => {
                assert(given[i as int] is None);
                return None;
            },
        }
        i = i + 1;
    }
    assert(term_views(out) =~= terms(given));
    Some(out)
}

/// The values of the operands of a sum or product, combined left to right.
pub fn evaluate_total<A: Fn(Op, Scalar, Scalar) -> Scalar>(
    sum: bool,
    v: &Vec<Expr>,
    vars: &Vec<Variable>,
    fns: &Vec<Func>,
    locals: &Vec<Variable>,
    arith: &A,
    depth: usize,
) -> (r: Option<Term>)
    requires
        usable(arith),
    ensures
        ({
            let scope = Scope {
                vars: bindings(*vars),
                fns: functions(*fns),
                arith: oracle(arith),
            };
            let given = values(models(*v), scope, bindings(*locals), depth as nat);
            match r {
                Some(t) => total(fold_op(sum), given, oracle(arith)) == Some(t@) && t@.constant(),
                None => total(fold_op(sum), given, oracle(arith)) is None,
            }
        }),
    decreases depth, v,
{
    let ghost scope = Scope { vars: bindings(*vars), fns: functions(*fns), arith: oracle(arith) };
    let ghost given = values(models(*v), scope, bindings(*locals), depth as nat);
    let op: Op = if sum {
        Op::Add
    } else {
        Op::Mul
    };
    if v.len() == 0 {
        return None;
    }
    assert(models(*v)[0] == v[0]@);
    let mut acc: Term = match v[0].evaluate(vars, fns, locals, arith, depth) {
        Some(t) => t,
        None => {
            assert(given[0] is None);
            return None;
        },
    };
    let mut i: usize = 1;
    assert(leaves(given).take(1).len() == 1);
    while i < v.len()
        invariant
            usable(arith),
            1 <= i <= v.len(),
            op == fold_op(sum),
            scope == (Scope { vars: bindings(*vars), fns: functions(*fns), arith: oracle(arith) }),
            given == values(models(*v), scope, bindings(*locals), depth as nat),
            forall|j: int| 0 <= j < i ==> (#[trigger] given[j]) is Some,
            acc@ == folded(op, leaves(given).take(i as int), oracle(arith)),
            acc@.constant(),
        decreases v.len() - i,
    {
        assert(models(*v)[i as int] == v[i as int]@);
        match v[i].evaluate(vars, fns, locals, arith, depth) {
            Some(t) => {
                proof {
                    let s = leaves(given);
                    assert(s.take(i + 1).drop_last() =~= s.take(i as int));
                    assert(s.take(i + 1).last() == ExprV::Term(t@));
                }
                acc = acc.combine(op, &t, arith);
            },
            None => {
                assert(given[i as int] is None);
                return None;
            },
        }
        i = i + 1;
    }
    assert(leaves(given).take(v.len() as int) =~= leaves(given));
    Some(acc)
}

impl Expr {
    /// The value of the expression, if it has one.
    ///
    /// `vars` and `fns` are the declarations of the context; `locals` holds
    /// the parameters that calls around the expression have bound; `depth`
    /// is how many definitions, one inside the other, may be followed.
    pub fn evaluate<A: Fn(Op, Scalar, Scalar) -> Scalar>(
        &self,
        vars: &Vec<Variable>,
        fns: &Vec<Func>,
        locals: &Vec<Variable>,
        arith: &A,
        depth: usize,
    ) -> (r: Option<Term>)
        requires
            usable(arith),
        ensures
            ({
                let scope = Scope {
                    vars: bindings(*vars),
                    fns: functions(*fns),
                    arith: oracle(arith),
                };
                match r {
                    Some(t) => value(self@, scope, bindings(*locals), depth as nat) == Some(t@)
                        && t@.constant(),
                    None => value(self@, scope, bindings(*locals), depth as nat) is None,
                }
            }),
        decreases depth, self,
    {
        match self {
            Expr::Term(Term::Var(n)) => match position(vars, n) {
                Some(i) => {
                    assert(bindings(*vars)[i as int] == vars[i as int]@);
                    if depth == 0 {
                        None
                    } else {
                        vars[i].value.evaluate(vars, fns, locals, arith, depth - 1)
                    }
                },
                None => match position(locals, n) {
                    Some(i) => {
                        assert(bindings(*locals)[i as int] == locals[i as int]@);
                        if locals[i].value.is_const() {
                            Some(locals[i].value.force_const())
                        } else {
                            None
                        }
                    },
                    None => None,
                },
            },
            Expr::Term(t) => Some(t.clone()),
            Expr::Add(n) => evaluate_total(true, n, vars, fns, locals, arith, depth),
            Expr::Mul(n) => evaluate_total(false, n, vars, fns, locals, arith, depth),
            Expr::Pow(a, b) => match a.evaluate(vars, fns, locals, arith, depth) {
                Some(x) => match b.evaluate(vars, fns, locals, arith, depth) {
                    Some(y) => Some(x.pow(&y, arith)),
                    None => None,
                },
                None => None,
            },
            Expr::Unary(kind, a) => match a.evaluate(vars, fns, locals, arith, depth) {
                Some(x) => Some(x.apply(*kind, arith)),
                None => None,
            },
            Expr::Fn(name, args) => match fn_position(fns, name) {
                Some(i) => {
                    assert(functions(*fns)[i as int] == fns[i as int]@);
                    match evaluate_all(args, vars, fns, locals, arith, depth) {
                        Some(given) => {
                            if depth == 0 {
                                None
                            } else {
                                let inner: Vec<Variable> = extend(
                                    vars,
                                    locals,
                                    &fns[i].args,
                                    &given,
                                );
                                fns[i].body.evaluate(vars, fns, &inner, arith, depth - 1)
                            }
                        },
                        None => None,
                    }
                },
                None => None,
            },
        }
    }
}

} // verus!

//! Expressions that simplification leaves as they are.
//!
//! Each pass of the pipeline has a shape of expression that it does not
//! change. An expression that has all of these shapes at once is in normal
//! form, and the whole pipeline gives it back unchanged.

use vstd::prelude::*;
use crate::context::{simplified, ContextV};
use crate::expand::{expanded, expansions, gathered, inlined, inlinings};
use crate::expr::ExprV;
use crate::flatten::{flat, flat_each, operands, spliced};
use crate::number::Arith;
use crate::order::{keep, reordered, sorted};
use crate::reduce::{collapsed, fold_op, folded, lemma_keep_order, node, reduced, reduced_each};
use crate::scope::{find, find_fn, Binding, FuncV};
use crate::special::{leads_with_identity, special, special_each};
use crate::term::TermV;

verus! {

/// Every member of the list holds.
pub open spec fn all(s: Seq<bool>) -> bool {
    forall|i: int| 0 <= i < s.len() ==> #[trigger] s[i]
}

/// For each expression of a list, whether it names no bound variable.
pub open spec fn free_flags(c: Seq<ExprV>, vars: Seq<Binding>) -> Seq<bool>
    decreases c,
{
    Seq::new(
        c.len(),
        |i: int|
            if 0 <= i < c.len() {
                free_of(c[i], vars)
            } else {
                true
            },
    )
}

/// The expression names no variable that `vars` binds.
pub open spec fn free_of(e: ExprV, vars: Seq<Binding>) -> bool
    decreases e,
{
    match e {
        ExprV::Term(TermV::Var(n)) => find(vars, n) is None,
        ExprV::Term(_) => true,
        ExprV::Add(c) => all(free_flags(c, vars)),
        ExprV::Mul(c) => all(free_flags(c, vars)),
        ExprV::Pow(a, b) => free_of(*a, vars) && free_of(*b, vars),
        ExprV::Unary(_, a) => free_of(*a, vars),
        ExprV::Fn(_, args) => all(free_flags(args, vars)),
    }
}

/// For each expression of a list, whether it calls recursive functions only.
pub open spec fn call_flags(c: Seq<ExprV>, fns: Seq<FuncV>) -> Seq<bool>
    decreases c,
{
    Seq::new(
        c.len(),
        |i: int|
            if 0 <= i < c.len() {
                calls_recursive_only(c[i], fns)
            } else {
                true
            },
    )
}

/// The function of that name is declared, and declared recursive.
pub open spec fn is_recursive(fns: Seq<FuncV>, name: Seq<char>) -> bool {
    match find_fn(fns, name) {
        Some(f) => f.recursive,
        None => false,
    }
}

/// Every call in the expression is a call of a declared recursive function.
pub open spec fn calls_recursive_only(e: ExprV, fns: Seq<FuncV>) -> bool
    decreases e,
{
    match e {
        ExprV::Term(_) => true,
        ExprV::Add(c) => all(call_flags(c, fns)),
        ExprV::Mul(c) => all(call_flags(c, fns)),
        ExprV::Pow(a, b) => calls_recursive_only(*a, fns) && calls_recursive_only(*b, fns),
        ExprV::Unary(_, a) => calls_recursive_only(*a, fns),
        ExprV::Fn(name, args) => is_recursive(fns, name) && all(call_flags(args, fns)),
    }
}

/// The node is a sum (`sum`) or a product (not `sum`).
pub open spec fn of_kind(e: ExprV, sum: bool) -> bool {
    if sum {
        e is Add
    } else {
        e is Mul
    }
}

/// For each expression of a list, whether it is flat and, where `inside`
/// names a kind of node, is no node of that kind.
pub open spec fn flat_flags(c: Seq<ExprV>, inside: Option<bool>) -> Seq<bool>
    decreases c,
{
    Seq::new(
        c.len(),
        |i: int|
            if 0 <= i < c.len() {
                is_flat(c[i]) && match inside {
                    Some(sum) => !of_kind(c[i], sum),
                    None => true,
                }
            } else {
                true
            },
    )
}

/// No sum stands directly in a sum, no product directly in a product.
pub open spec fn is_flat(e: ExprV) -> bool
    decreases e,
{
    match e {
        ExprV::Term(_) => true,
        ExprV::Add(c) => all(flat_flags(c, Some(true))),
        ExprV::Mul(c) => all(flat_flags(c, Some(false))),
        ExprV::Pow(a, b) => is_flat(*a) && is_flat(*b),
        ExprV::Unary(_, a) => is_flat(*a),
        ExprV::Fn(_, args) => all(flat_flags(args, None)),
    }
}

/// The children of a sum or product stand as constant reduction leaves them:
/// in order, with at most one number, and that number not alone.
pub open spec fn folded_already(c: Seq<ExprV>) -> bool {
    &&& reordered(c) == c
    &&& keep(c, 0).len() <= 1
    &&& keep(c, 0).len() == 1 ==> c.len() >= 2
}

/// For each expression of a list, whether it is reduced.
pub open spec fn reduced_flags(c: Seq<ExprV>) -> Seq<bool>
    decreases c,
{
    Seq::new(
        c.len(),
        |i: int|
            if 0 <= i < c.len() {
                is_reduced(c[i])
            } else {
                true
            },
    )
}

/// No node has constants left to fold: the children of each sum and product
/// stand as constant reduction leaves them, no power has a constant base and
/// a constant exponent, and no function of one argument a constant operand.
pub open spec fn is_reduced(e: ExprV) -> bool
    decreases e,
{
    match e {
        ExprV::Term(_) => true,
        ExprV::Add(c) => all(reduced_flags(c)) && folded_already(c),
        ExprV::Mul(c) => all(reduced_flags(c)) && folded_already(c),
        ExprV::Pow(a, b) => is_reduced(*a) && is_reduced(*b) && !(a.constant() && b.constant()),
        ExprV::Unary(_, a) => is_reduced(*a) && !a.constant(),
        ExprV::Fn(_, args) => all(reduced_flags(args)),
    }
}

/// For each expression of a list, whether it is settled.
pub open spec fn settled_flags(c: Seq<ExprV>) -> Seq<bool>
    decreases c,
{
    Seq::new(
        c.len(),
        |i: int|
            if 0 <= i < c.len() {
                is_settled(c[i])
            } else {
                true
            },
    )
}

/// No identity is left to eliminate: no sum of two or more starts with zero,
/// no product of two or more with one, and no power has zero or one as its
/// base or its exponent.
pub open spec fn is_settled(e: ExprV) -> bool
    decreases e,
{
    match e {
        ExprV::Term(_) => true,
        ExprV::Add(c) => all(settled_flags(c)) && !leads_with_identity(true, c),
        ExprV::Mul(c) => all(settled_flags(c)) && !leads_with_identity(false, c),
        ExprV::Pow(a, b) => is_settled(*a) && is_settled(*b) && !a.zero() && !a.one() && !b.zero()
            && !b.one(),
        ExprV::Unary(_, a) => is_settled(*a),
        ExprV::Fn(_, args) => all(settled_flags(args)),
    }
}

/// The expression is in normal form for a context: it names no variable and
/// calls no function that the pipeline would replace, it is flat, it has no
/// constants left to fold and no identity left to eliminate.
pub open spec fn normal(e: ExprV, c: ContextV) -> bool {
    &&& free_of(e, c.vars)
    &&& calls_recursive_only(e, c.fns)
    &&& is_flat(e)
    &&& is_reduced(e)
    &&& is_settled(e)
}

/// Expansion leaves a list of expressions that name no bound variable as it
/// is.
pub proof fn lemma_expansions_fixed(c: Seq<ExprV>, vars: Seq<Binding>, depth: nat)
    requires
        all(free_flags(c, vars)),
    ensures
        gathered(expansions(c, vars, depth)) == Some(c),
    decreases c,
{
    let s = expansions(c, vars, depth);
    assert forall|i: int| 0 <= i < c.len() implies s[i] == Some(c[i]) by {
        assert(free_flags(c, vars)[i]);
        lemma_expanded_fixed(c[i], vars, depth);
    }
    assert(gathered(s).unwrap() =~= c);
}

/// Expansion leaves an expression that names no bound variable as it is.
pub proof fn lemma_expanded_fixed(e: ExprV, vars: Seq<Binding>, depth: nat)
    requires
        free_of(e, vars),
    ensures
        expanded(e, vars, depth) == Some(e),
    decreases e,
{
    match e {
        ExprV::Term(_) => {},
        ExprV::Add(c) => {
            lemma_expansions_fixed(c, vars, depth);
        },
        ExprV::Mul(c) => {
            lemma_expansions_fixed(c, vars, depth);
        },
        ExprV::Pow(a, b) => {
            lemma_expanded_fixed(*a, vars, depth);
            lemma_expanded_fixed(*b, vars, depth);
        },
        ExprV::Unary(_, a) => {
            lemma_expanded_fixed(*a, vars, depth);
        },
        ExprV::Fn(_, args) => {
            lemma_expansions_fixed(args, vars, depth);
        },
    }
}

/// Inlining leaves a list of expressions that call recursive functions only
/// as it is.
pub proof fn lemma_inlinings_fixed(
    c: Seq<ExprV>,
    vars: Seq<Binding>,
    fns: Seq<FuncV>,
    depth: nat,
)
    requires
        all(call_flags(c, fns)),
    ensures
        gathered(inlinings(c, vars, fns, depth)) == Some(c),
    decreases c,
{
    let s = inlinings(c, vars, fns, depth);
    assert forall|i: int| 0 <= i < c.len() implies s[i] == Some(c[i]) by {
        assert(call_flags(c, fns)[i]);
        lemma_inlined_fixed(c[i], vars, fns, depth);
    }
    assert(gathered(s).unwrap() =~= c);
}

/// Inlining leaves an expression that calls recursive functions only as it
/// is.
pub proof fn lemma_inlined_fixed(e: ExprV, vars: Seq<Binding>, fns: Seq<FuncV>, depth: nat)
    requires
        calls_recursive_only(e, fns),
    ensures
        inlined(e, vars, fns, depth) == Some(e),
    decreases e,
{
    match e {
        ExprV::Term(_) => {},
        ExprV::Add(c) => {
            lemma_inlinings_fixed(c, vars, fns, depth);
        },
        ExprV::Mul(c) => {
            lemma_inlinings_fixed(c, vars, fns, depth);
        },
        ExprV::Pow(a, b) => {
            lemma_inlined_fixed(*a, vars, fns, depth);
            lemma_inlined_fixed(*b, vars, fns, depth);
        },
        ExprV::Unary(_, a) => {
            lemma_inlined_fixed(*a, vars, fns, depth);
        },
        ExprV::Fn(_, args) => {
            lemma_inlinings_fixed(args, vars, fns, depth);
        },
    }
}

/// The flat children of a flat sum or product are the operands it has.
pub proof fn lemma_spliced_fixed(c: Seq<ExprV>, sum: bool)
    requires
        all(flat_flags(c, Some(sum))),
    ensures
        spliced(c, sum) == c,
    decreases c,
{
    if c.len() > 0 {
        let rest = c.drop_last();
        assert forall|i: int| 0 <= i < rest.len() implies #[trigger] flat_flags(rest, Some(sum))[i] by {
            assert(flat_flags(c, Some(sum))[i]);
        }
        lemma_spliced_fixed(rest, sum);
        assert(flat_flags(c, Some(sum))[c.len() - 1]);
        lemma_flat_fixed(c.last());
        assert(operands(c.last(), sum) == seq![c.last()]);
        assert(rest + seq![c.last()] =~= c);
    } else {
        assert(spliced(c, sum) =~= c);
    }
}

/// Flattening leaves a flat expression as it is.
pub proof fn lemma_flat_fixed(e: ExprV)
    requires
        is_flat(e),
    ensures
        flat(e) == e,
    decreases e,
{
    match e {
        ExprV::Term(_) => {},
        ExprV::Add(c) => {
            lemma_spliced_fixed(c, true);
        },
        ExprV::Mul(c) => {
            lemma_spliced_fixed(c, false);
        },
        ExprV::Pow(a, b) => {
            lemma_flat_fixed(*a);
            lemma_flat_fixed(*b);
        },
        ExprV::Unary(_, a) => {
            lemma_flat_fixed(*a);
        },
        ExprV::Fn(_, args) => {
            assert forall|i: int| 0 <= i < args.len() implies flat(args[i]) == args[i] by {
                assert(flat_flags(args, None)[i]);
                lemma_flat_fixed(args[i]);
            }
            assert(flat_each(args) =~= args);
        },
    }
}

/// Children that stand as constant reduction leaves them make the node that
/// constant reduction gives.
pub proof fn lemma_collapsed_fixed(sum: bool, c: Seq<ExprV>, arith: Arith)
    requires
        folded_already(c),
    ensures
        collapsed(sum, c, arith) == node(sum, c),
{
    let constants = keep(c, 0);
    let rest = sorted(keep(c, 1)) + keep(c, 2);
    assert(reordered(c) =~= constants + rest);
    if constants.len() == 0 {
        assert(constants + rest =~= rest);
    } else {
        lemma_keep_order(c, 0);
        let k = constants[0];
        assert(k.order() == 0);
        assert(ExprV::Term(k.leaf()) == k);
        assert(folded(fold_op(sum), constants, arith) == k.leaf());
        assert(seq![k] + rest =~= constants + rest);
    }
}

/// Constant reduction leaves a list of reduced expressions as it is.
pub proof fn lemma_reduced_each_fixed(c: Seq<ExprV>, arith: Arith)
    requires
        all(reduced_flags(c)),
    ensures
        reduced_each(c, arith) == c,
    decreases c,
{
    assert forall|i: int| 0 <= i < c.len() implies reduced(c[i], arith) == c[i] by {
        assert(reduced_flags(c)[i]);
        lemma_reduced_fixed(c[i], arith);
    }
    assert(reduced_each(c, arith) =~= c);
}

/// Constant reduction leaves a reduced expression as it is.
pub proof fn lemma_reduced_fixed(e: ExprV, arith: Arith)
    requires
        is_reduced(e),
    ensures
        reduced(e, arith) == e,
    decreases e,
{
    match e {
        ExprV::Term(_) => {},
        ExprV::Add(c) => {
            lemma_reduced_each_fixed(c, arith);
            lemma_collapsed_fixed(true, c, arith);
        },
        ExprV::Mul(c) => {
            lemma_reduced_each_fixed(c, arith);
            lemma_collapsed_fixed(false, c, arith);
        },
        ExprV::Pow(a, b) => {
            lemma_reduced_fixed(*a, arith);
            lemma_reduced_fixed(*b, arith);
        },
        ExprV::Unary(_, a) => {
            lemma_reduced_fixed(*a, arith);
        },
        ExprV::Fn(_, args) => {
            lemma_reduced_each_fixed(args, arith);
        },
    }
}

/// Identity elimination leaves a list of settled expressions as it is.
pub proof fn lemma_special_each_fixed(c: Seq<ExprV>)
    requires
        all(settled_flags(c)),
    ensures
        special_each(c) == c,
    decreases c,
{
    assert forall|i: int| 0 <= i < c.len() implies special(c[i]) == c[i] by {
        assert(settled_flags(c)[i]);
        lemma_special_fixed(c[i]);
    }
    assert(special_each(c) =~= c);
}

/// Identity elimination leaves a settled expression as it is.
pub proof fn lemma_special_fixed(e: ExprV)
    requires
        is_settled(e),
    ensures
        special(e) == e,
    decreases e,
{
    match e {
        ExprV::Term(_) => {},
        ExprV::Add(c) => {
            lemma_special_each_fixed(c);
        },
        ExprV::Mul(c) => {
            lemma_special_each_fixed(c);
        },
        ExprV::Pow(a, b) => {
            lemma_special_fixed(*a);
            lemma_special_fixed(*b);
        },
        ExprV::Unary(_, a) => {
            lemma_special_fixed(*a);
        },
        ExprV::Fn(_, args) => {
            lemma_special_each_fixed(args);
        },
    }
}

/// Simplification leaves an expression in normal form as it is.
pub proof fn lemma_normal_is_fixed(e: ExprV, c: ContextV, arith: Arith)
    requires
        normal(e, c),
    ensures
        simplified(e, c, arith) == Some(e),
{
    lemma_expanded_fixed(e, c.vars, c.vars.len());
    lemma_inlined_fixed(e, c.vars, c.fns, c.fns.len());
    lemma_flat_fixed(e);
    lemma_reduced_fixed(e, arith);
    lemma_special_fixed(e);
}

} // verus!

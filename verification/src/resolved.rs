//! What simplification leaves behind.
//!
//! The passes that follow expansion and inlining only rearrange, fold and
//! drop nodes. They bring in no variable and no call that was not there, so
//! the result of the pipeline names no variable of the context and calls no
//! function but the recursive ones.

use vstd::prelude::*;
use crate::context::{simplified, ContextV};
use crate::expand::{expanded, inlined};
use crate::expr::ExprV;
use crate::flatten::{flat, flat_each, operands, spliced};
use crate::laws::{lemma_expanded_free, lemma_inlined_calls};
use crate::normal::{all, call_flags, calls_recursive_only, free_flags, free_of, is_recursive};
use crate::number::Arith;
use crate::order::{keep, placed, sorted};
use crate::reduce::{collapsed, fold_op, folded, node, reduced, reduced_each};
use crate::scope::{find, Binding, FuncV};
use crate::special::{special, special_each, trimmed};
use crate::term::TermV;

verus! {

/// A test on names.
pub type NameTest = spec_fn(Seq<char>) -> bool;

/// The test that every name passes.
pub open spec fn anything() -> NameTest {
    |n: Seq<char>| true
}

/// The test that the names pass that `vars` does not bind.
pub open spec fn unbound(vars: Seq<Binding>) -> NameTest {
    |n: Seq<char>| find(vars, n) is None
}

/// The test that the names of the declared recursive functions pass.
pub open spec fn recursive_in(fns: Seq<FuncV>) -> NameTest {
    |n: Seq<char>| is_recursive(fns, n)
}

/// For each expression of a list, whether it is clean.
pub open spec fn clean_flags(c: Seq<ExprV>, var_ok: NameTest, fn_ok: NameTest) -> Seq<bool>
    decreases c,
{
    Seq::new(
        c.len(),
        |i: int|
            if 0 <= i < c.len() {
                clean(c[i], var_ok, fn_ok)
            } else {
                true
            },
    )
}

/// Every variable that the expression names passes the one test, and every
/// function that it calls the other.
pub open spec fn clean(e: ExprV, var_ok: NameTest, fn_ok: NameTest) -> bool
    decreases e,
{
    match e {
        ExprV::Term(TermV::Var(n)) => var_ok(n),
        ExprV::Term(_) => true,
        ExprV::Add(c) => all(clean_flags(c, var_ok, fn_ok)),
        ExprV::Mul(c) => all(clean_flags(c, var_ok, fn_ok)),
        ExprV::Pow(a, b) => clean(*a, var_ok, fn_ok) && clean(*b, var_ok, fn_ok),
        ExprV::Unary(_, a) => clean(*a, var_ok, fn_ok),
        ExprV::Fn(name, args) => fn_ok(name) && all(clean_flags(args, var_ok, fn_ok)),
    }
}

/// An expression names no bound variable exactly where its variables pass
/// the test of being unbound.
pub proof fn lemma_free_clean(e: ExprV, vars: Seq<Binding>)
    ensures
        free_of(e, vars) == clean(e, unbound(vars), anything()),
    decreases e,
{
    match e {
        ExprV::Term(_) => {},
        ExprV::Add(c) => {
            lemma_free_clean_each(c, vars);
        },
        ExprV::Mul(c) => {
            lemma_free_clean_each(c, vars);
        },
        ExprV::Pow(a, b) => {
            lemma_free_clean(*a, vars);
            lemma_free_clean(*b, vars);
        },
        ExprV::Unary(_, a) => {
            lemma_free_clean(*a, vars);
        },
        ExprV::Fn(_, args) => {
            lemma_free_clean_each(args, vars);
        },
    }
}

/// The expressions of a list name no bound variable exactly where their
/// variables pass the test of being unbound.
pub proof fn lemma_free_clean_each(c: Seq<ExprV>, vars: Seq<Binding>)
    ensures
        free_flags(c, vars) == clean_flags(c, unbound(vars), anything()),
    decreases c,
{
    assert forall|i: int| 0 <= i < c.len() implies free_flags(c, vars)[i] == clean_flags(
        c,
        unbound(vars),
        anything(),
    )[i] by {
        lemma_free_clean(c[i], vars);
    }
    assert(free_flags(c, vars) =~= clean_flags(c, unbound(vars), anything()));
}

/// An expression calls recursive functions only exactly where its calls pass
/// the test of naming one.
pub proof fn lemma_calls_clean(e: ExprV, fns: Seq<FuncV>)
    ensures
        calls_recursive_only(e, fns) == clean(e, anything(), recursive_in(fns)),
    decreases e,
{
    match e {
        ExprV::Term(_) => {},
        ExprV::Add(c) => {
            lemma_calls_clean_each(c, fns);
        },
        ExprV::Mul(c) => {
            lemma_calls_clean_each(c, fns);
        },
        ExprV::Pow(a, b) => {
            lemma_calls_clean(*a, fns);
            lemma_calls_clean(*b, fns);
        },
        ExprV::Unary(_, a) => {
            lemma_calls_clean(*a, fns);
        },
        ExprV::Fn(_, args) => {
            lemma_calls_clean_each(args, fns);
        },
    }
}

/// The expressions of a list call recursive functions only exactly where
/// their calls pass the test of naming one.
pub proof fn lemma_calls_clean_each(c: Seq<ExprV>, fns: Seq<FuncV>)
    ensures
        call_flags(c, fns) == clean_flags(c, anything(), recursive_in(fns)),
    decreases c,
{
    assert forall|i: int| 0 <= i < c.len() implies call_flags(c, fns)[i] == clean_flags(
        c,
        anything(),
        recursive_in(fns),
    )[i] by {
        lemma_calls_clean(c[i], fns);
    }
    assert(call_flags(c, fns) =~= clean_flags(c, anything(), recursive_in(fns)));
}

/// Two lists of clean expressions, one behind the other, are a list of clean
/// expressions.
pub proof fn lemma_joined_clean(a: Seq<ExprV>, b: Seq<ExprV>, var_ok: NameTest, fn_ok: NameTest)
    requires
        all(clean_flags(a, var_ok, fn_ok)),
        all(clean_flags(b, var_ok, fn_ok)),
    ensures
        all(clean_flags(a + b, var_ok, fn_ok)),
{
    assert forall|i: int| 0 <= i < (a + b).len() implies #[trigger] clean_flags(
        a + b,
        var_ok,
        fn_ok,
    )[i] by {
        if i < a.len() {
            assert(clean_flags(a, var_ok, fn_ok)[i]);
        } else {
            assert(clean_flags(b, var_ok, fn_ok)[i - a.len()]);
        }
    }
}

/// A list of clean expressions without its last member is one.
pub proof fn lemma_front_clean(c: Seq<ExprV>, var_ok: NameTest, fn_ok: NameTest)
    requires
        c.len() > 0,
        all(clean_flags(c, var_ok, fn_ok)),
    ensures
        all(clean_flags(c.drop_last(), var_ok, fn_ok)),
        clean(c.last(), var_ok, fn_ok),
{
    let rest = c.drop_last();
    assert forall|i: int| 0 <= i < rest.len() implies #[trigger] clean_flags(
        rest,
        var_ok,
        fn_ok,
    )[i] by {
        assert(clean_flags(c, var_ok, fn_ok)[i]);
    }
    assert(clean_flags(c, var_ok, fn_ok)[c.len() - 1]);
}

/// A list of clean expressions with one more clean member is one.
pub proof fn lemma_pushed_clean(c: Seq<ExprV>, x: ExprV, var_ok: NameTest, fn_ok: NameTest)
    requires
        all(clean_flags(c, var_ok, fn_ok)),
        clean(x, var_ok, fn_ok),
    ensures
        all(clean_flags(c.push(x), var_ok, fn_ok)),
{
    let one = seq![x];
    assert forall|i: int| 0 <= i < one.len() implies #[trigger] clean_flags(one, var_ok, fn_ok)[i] by {}
    lemma_joined_clean(c, one, var_ok, fn_ok);
    assert(c + one =~= c.push(x));
}

/// The members kept of a list of clean expressions are clean.
pub proof fn lemma_keep_clean(c: Seq<ExprV>, order: u8, var_ok: NameTest, fn_ok: NameTest)
    requires
        all(clean_flags(c, var_ok, fn_ok)),
    ensures
        all(clean_flags(keep(c, order), var_ok, fn_ok)),
    decreases c.len(),
{
    if c.len() > 0 {
        lemma_front_clean(c, var_ok, fn_ok);
        lemma_keep_clean(c.drop_last(), order, var_ok, fn_ok);
        if c.last().order() == order {
            lemma_pushed_clean(keep(c.drop_last(), order), c.last(), var_ok, fn_ok);
        }
    }
}

/// A list of clean expressions with a clean one put in by name is one.
pub proof fn lemma_placed_clean(s: Seq<ExprV>, x: ExprV, var_ok: NameTest, fn_ok: NameTest)
    requires
        all(clean_flags(s, var_ok, fn_ok)),
        clean(x, var_ok, fn_ok),
    ensures
        all(clean_flags(placed(s, x), var_ok, fn_ok)),
    decreases s.len(),
{
    if s.len() == 0 {
        lemma_pushed_clean(s, x, var_ok, fn_ok);
        assert(s.push(x) =~= seq![x]);
    } else if crate::order::name_le(s.last().key(), x.key()) {
        lemma_pushed_clean(s, x, var_ok, fn_ok);
    } else {
        lemma_front_clean(s, var_ok, fn_ok);
        lemma_placed_clean(s.drop_last(), x, var_ok, fn_ok);
        lemma_pushed_clean(placed(s.drop_last(), x), s.last(), var_ok, fn_ok);
    }
}

/// A list of clean expressions, put in the order of their names, is one.
pub proof fn lemma_sorted_clean(s: Seq<ExprV>, var_ok: NameTest, fn_ok: NameTest)
    requires
        all(clean_flags(s, var_ok, fn_ok)),
    ensures
        all(clean_flags(sorted(s), var_ok, fn_ok)),
    decreases s.len(),
{
    if s.len() > 0 {
        lemma_front_clean(s, var_ok, fn_ok);
        lemma_sorted_clean(s.drop_last(), var_ok, fn_ok);
        lemma_placed_clean(sorted(s.drop_last()), s.last(), var_ok, fn_ok);
    }
}

/// The operands that a clean expression gives to a sum or product around it
/// are clean.
pub proof fn lemma_operands_clean(e: ExprV, sum: bool, var_ok: NameTest, fn_ok: NameTest)
    requires
        clean(e, var_ok, fn_ok),
    ensures
        all(clean_flags(operands(e, sum), var_ok, fn_ok)),
    decreases e, 1nat,
{
    let own = match e {
        ExprV::Add(c) => sum,
        ExprV::Mul(c) => !sum,
        _ => false,
    };
    if own {
        match e {
            ExprV::Add(c) => {
                lemma_spliced_clean(c, sum, var_ok, fn_ok);
            },
            ExprV::Mul(c) => {
                lemma_spliced_clean(c, sum, var_ok, fn_ok);
            },
            _ => {},
        }
    } else {
        lemma_flat_clean(e, var_ok, fn_ok);
        lemma_pushed_clean(Seq::empty(), flat(e), var_ok, fn_ok);
        assert(Seq::<ExprV>::empty().push(flat(e)) =~= seq![flat(e)]);
    }
}

/// The operands that clean expressions give to a sum or product are clean.
pub proof fn lemma_spliced_clean(c: Seq<ExprV>, sum: bool, var_ok: NameTest, fn_ok: NameTest)
    requires
        all(clean_flags(c, var_ok, fn_ok)),
    ensures
        all(clean_flags(spliced(c, sum), var_ok, fn_ok)),
    decreases c, 0nat,
{
    if c.len() > 0 {
        lemma_front_clean(c, var_ok, fn_ok);
        lemma_spliced_clean(c.drop_last(), sum, var_ok, fn_ok);
        lemma_operands_clean(c.last(), sum, var_ok, fn_ok);
        lemma_joined_clean(spliced(c.drop_last(), sum), operands(c.last(), sum), var_ok, fn_ok);
    }
}

/// Flattening keeps a clean expression clean.
pub proof fn lemma_flat_clean(e: ExprV, var_ok: NameTest, fn_ok: NameTest)
    requires
        clean(e, var_ok, fn_ok),
    ensures
        clean(flat(e), var_ok, fn_ok),
    decreases e, 0nat,
{
    match e {
        ExprV::Term(_) => {
        },
        ExprV::Add(c) => {
            lemma_spliced_clean(c, true, var_ok, fn_ok);
        },
        ExprV::Mul(c) => {
            lemma_spliced_clean(c, false, var_ok, fn_ok);
        },
        ExprV::Pow(a, b) => {
            lemma_flat_clean(*a, var_ok, fn_ok);
            lemma_flat_clean(*b, var_ok, fn_ok);
        },
        ExprV::Unary(_, a) => {
            lemma_flat_clean(*a, var_ok, fn_ok);
        },
        ExprV::Fn(name, args) => {
            let out = flat_each(args);
            assert forall|i: int| 0 <= i < out.len() implies #[trigger] clean_flags(
                out,
                var_ok,
                fn_ok,
            )[i] by {
                assert(clean_flags(args, var_ok, fn_ok)[i]);
                lemma_flat_clean(args[i], var_ok, fn_ok);
                assert(out[i] == flat(args[i]));
            }
            assert(flat(e) == ExprV::Fn(name, out));
            assert(fn_ok(name));
            assert(all(clean_flags(out, var_ok, fn_ok)));
            assert(clean(ExprV::Fn(name, out), var_ok, fn_ok));
        },
    }
}

/// A sum or product of clean expressions that are reduced already comes out
/// of constant reduction clean.
pub proof fn lemma_collapsed_clean(
    sum: bool,
    c: Seq<ExprV>,
    arith: Arith,
    var_ok: NameTest,
    fn_ok: NameTest,
)
    requires
        all(clean_flags(c, var_ok, fn_ok)),
    ensures
        clean(collapsed(sum, c, arith), var_ok, fn_ok),
{
    lemma_keep_clean(c, 0, var_ok, fn_ok);
    lemma_keep_clean(c, 1, var_ok, fn_ok);
    lemma_keep_clean(c, 2, var_ok, fn_ok);
    lemma_sorted_clean(keep(c, 1), var_ok, fn_ok);
    let rest = sorted(keep(c, 1)) + keep(c, 2);
    lemma_joined_clean(sorted(keep(c, 1)), keep(c, 2), var_ok, fn_ok);
    let constants = keep(c, 0);
    if constants.len() > 0 {
        crate::reduce::lemma_keep_order(c, 0);
        lemma_folded_constant(fold_op(sum), constants, arith);
        let first = ExprV::Term(folded(fold_op(sum), constants, arith));
        assert(clean(first, var_ok, fn_ok));
        let none = Seq::<ExprV>::empty();
        assert(all(clean_flags(none, var_ok, fn_ok)));
        lemma_pushed_clean(none, first, var_ok, fn_ok);
        assert(none.push(first) =~= seq![first]);
        lemma_joined_clean(seq![first], rest, var_ok, fn_ok);
        if rest.len() == 0 {
            assert(collapsed(sum, c, arith) == first);
        } else {
            lemma_node_clean(sum, seq![first] + rest, var_ok, fn_ok);
            assert(collapsed(sum, c, arith) == node(sum, seq![first] + rest));
        }
    } else {
        lemma_node_clean(sum, rest, var_ok, fn_ok);
        assert(collapsed(sum, c, arith) == node(sum, rest));
    }
}

/// Folding a list of numbers gives a number.
pub proof fn lemma_folded_constant(op: crate::number::Op, s: Seq<ExprV>, arith: Arith)
    requires
        s.len() > 0,
        forall|j: int| 0 <= j < s.len() ==> (#[trigger] s[j]).order() == 0,
    ensures
        folded(op, s, arith).constant(),
    decreases s.len(),
{
    assert(s[0].order() == 0);
}

/// Constant reduction keeps each of a list of clean expressions clean.
pub proof fn lemma_reduced_each_clean(
    c: Seq<ExprV>,
    arith: Arith,
    var_ok: NameTest,
    fn_ok: NameTest,
)
    requires
        all(clean_flags(c, var_ok, fn_ok)),
    ensures
        all(clean_flags(reduced_each(c, arith), var_ok, fn_ok)),
    decreases c,
{
    let out = reduced_each(c, arith);
    assert forall|i: int| 0 <= i < out.len() implies #[trigger] clean_flags(out, var_ok, fn_ok)[i] by {
        assert(clean_flags(c, var_ok, fn_ok)[i]);
        lemma_reduced_clean(c[i], arith, var_ok, fn_ok);
    }
}

/// Constant reduction keeps a clean expression clean.
pub proof fn lemma_reduced_clean(e: ExprV, arith: Arith, var_ok: NameTest, fn_ok: NameTest)
    requires
        clean(e, var_ok, fn_ok),
    ensures
        clean(reduced(e, arith), var_ok, fn_ok),
    decreases e,
{
    match e {
        ExprV::Term(_) => {},
        ExprV::Add(c) => {
            lemma_reduced_each_clean(c, arith, var_ok, fn_ok);
            lemma_collapsed_clean(true, reduced_each(c, arith), arith, var_ok, fn_ok);
        },
        ExprV::Mul(c) => {
            lemma_reduced_each_clean(c, arith, var_ok, fn_ok);
            lemma_collapsed_clean(false, reduced_each(c, arith), arith, var_ok, fn_ok);
        },
        ExprV::Pow(a, b) => {
            lemma_reduced_clean(*a, arith, var_ok, fn_ok);
            lemma_reduced_clean(*b, arith, var_ok, fn_ok);
        },
        ExprV::Unary(_, a) => {
            lemma_reduced_clean(*a, arith, var_ok, fn_ok);
        },
        ExprV::Fn(_, args) => {
            lemma_reduced_each_clean(args, arith, var_ok, fn_ok);
        },
    }
}

/// A sum or product of clean expressions without its leading identity
/// element is clean.
pub proof fn lemma_trimmed_clean(sum: bool, c: Seq<ExprV>, var_ok: NameTest, fn_ok: NameTest)
    requires
        all(clean_flags(c, var_ok, fn_ok)),
    ensures
        clean(trimmed(sum, c), var_ok, fn_ok),
{
    if crate::special::leads_with_identity(sum, c) {
        if c.len() == 2 {
            assert(clean_flags(c, var_ok, fn_ok)[1]);
            assert(trimmed(sum, c) == c[1]);
        } else {
            let rest = c.skip(1);
            assert forall|i: int| 0 <= i < rest.len() implies #[trigger] clean_flags(
                rest,
                var_ok,
                fn_ok,
            )[i] by {
                assert(clean_flags(c, var_ok, fn_ok)[i + 1]);
                assert(rest[i] == c[i + 1]);
            }
            assert(all(clean_flags(rest, var_ok, fn_ok)));
            lemma_node_clean(sum, rest, var_ok, fn_ok);
            assert(trimmed(sum, c) == node(sum, rest));
        }
    } else {
        lemma_node_clean(sum, c, var_ok, fn_ok);
        assert(trimmed(sum, c) == node(sum, c));
    }
}

/// A sum or product of clean expressions is clean.
pub proof fn lemma_node_clean(sum: bool, c: Seq<ExprV>, var_ok: NameTest, fn_ok: NameTest)
    requires
        all(clean_flags(c, var_ok, fn_ok)),
    ensures
        clean(node(sum, c), var_ok, fn_ok),
{
    if sum {
        assert(node(sum, c) == ExprV::Add(c));
    } else {
        assert(node(sum, c) == ExprV::Mul(c));
    }
}

/// Identity elimination keeps each of a list of clean expressions clean.
pub proof fn lemma_special_each_clean(c: Seq<ExprV>, var_ok: NameTest, fn_ok: NameTest)
    requires
        all(clean_flags(c, var_ok, fn_ok)),
    ensures
        all(clean_flags(special_each(c), var_ok, fn_ok)),
    decreases c,
{
    let out = special_each(c);
    assert forall|i: int| 0 <= i < out.len() implies #[trigger] clean_flags(out, var_ok, fn_ok)[i] by {
        assert(clean_flags(c, var_ok, fn_ok)[i]);
        lemma_special_clean(c[i], var_ok, fn_ok);
    }
}

/// Identity elimination keeps a clean expression clean.
pub proof fn lemma_special_clean(e: ExprV, var_ok: NameTest, fn_ok: NameTest)
    requires
        clean(e, var_ok, fn_ok),
    ensures
        clean(special(e), var_ok, fn_ok),
    decreases e,
{
    match e {
        ExprV::Term(_) => {},
        ExprV::Add(c) => {
            lemma_special_each_clean(c, var_ok, fn_ok);
            lemma_trimmed_clean(true, special_each(c), var_ok, fn_ok);
        },
        ExprV::Mul(c) => {
            lemma_special_each_clean(c, var_ok, fn_ok);
            lemma_trimmed_clean(false, special_each(c), var_ok, fn_ok);
        },
        ExprV::Pow(a, b) => {
            lemma_special_clean(*a, var_ok, fn_ok);
            lemma_special_clean(*b, var_ok, fn_ok);
        },
        ExprV::Unary(_, a) => {
            lemma_special_clean(*a, var_ok, fn_ok);
        },
        ExprV::Fn(_, args) => {
            lemma_special_each_clean(args, var_ok, fn_ok);
        },
    }
}

/// The passes that follow inlining keep a clean expression clean.
pub proof fn lemma_tail_clean(e: ExprV, arith: Arith, var_ok: NameTest, fn_ok: NameTest)
    requires
        clean(e, var_ok, fn_ok),
    ensures
        clean(special(reduced(flat(e), arith)), var_ok, fn_ok),
{
    lemma_flat_clean(e, var_ok, fn_ok);
    lemma_reduced_clean(flat(e), arith, var_ok, fn_ok);
    lemma_special_clean(reduced(flat(e), arith), var_ok, fn_ok);
}

/// What simplification yields names no variable that the context binds, and
/// calls no function but the declared recursive ones: every bound variable
/// has given way to its binding, and every call of a function that is not
/// recursive to the function's body.
pub proof fn lemma_simplified_resolved(e: ExprV, c: ContextV, arith: Arith)
    requires
        simplified(e, c, arith) is Some,
    ensures
        free_of(simplified(e, c, arith).unwrap(), c.vars),
        calls_recursive_only(simplified(e, c, arith).unwrap(), c.fns),
{
    let e1 = expanded(e, c.vars, c.vars.len()).unwrap();
    lemma_expanded_free(e, c.vars, c.vars.len());
    let e2 = inlined(e1, c.vars, c.fns, c.fns.len()).unwrap();
    lemma_inlined_calls(e1, c.vars, c.fns, c.fns.len());
    let r = special(reduced(flat(e2), arith));
    lemma_free_clean(e2, c.vars);
    lemma_tail_clean(e2, arith, unbound(c.vars), anything());
    lemma_free_clean(r, c.vars);
    lemma_calls_clean(e2, c.fns);
    lemma_tail_clean(e2, arith, anything(), recursive_in(c.fns));
    lemma_calls_clean(r, c.fns);
}

/// Simplifying twice gives what simplifying once gives, wherever the first
/// result is flat, has no constants left to fold and no identity left to
/// eliminate. That it names no bound variable and calls no function but
/// recursive ones holds of every result.
pub proof fn lemma_simplify_idempotent(e: ExprV, c: ContextV, arith: Arith)
    requires
        simplified(e, c, arith) is Some,
        crate::normal::is_flat(simplified(e, c, arith).unwrap()),
        crate::normal::is_reduced(simplified(e, c, arith).unwrap()),
        crate::normal::is_settled(simplified(e, c, arith).unwrap()),
    ensures
        simplified(simplified(e, c, arith).unwrap(), c, arith) == simplified(e, c, arith),
{
    lemma_simplified_resolved(e, c, arith);
    crate::normal::lemma_normal_is_fixed(simplified(e, c, arith).unwrap(), c, arith);
}

} // verus!

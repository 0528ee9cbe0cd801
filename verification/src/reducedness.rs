//! What holds of constant reduction: its result has no constants left to
//! fold, and a flat expression stays flat.

use vstd::prelude::*;
use crate::context::{simplified, ContextV};
use crate::expand::{expanded, inlined};
use crate::expr::ExprV;
use crate::flatness::lemma_flat_is_flat;
use crate::flatten::flat;
use crate::normal::{
    all, flat_flags, folded_already, is_flat, is_reduced, is_settled, lemma_reduced_fixed,
    lemma_special_fixed, of_kind, reduced_flags,
};
use crate::number::Arith;
use crate::order::{
    keep, lemma_sorted_fixed, lemma_sorted_ordered, placed, reordered, sorted,
};
use crate::reduce::{
    collapsed, fold_op, folded, lemma_keep_order, node, reduced, reduced_each,
};
use crate::resolved::lemma_simplify_idempotent;
use crate::special::special;

verus! {

/// A test on expressions.
pub type Test = spec_fn(ExprV) -> bool;

/// Every member of the list passes the test.
pub open spec fn every(s: Seq<ExprV>, t: Test) -> bool {
    forall|i: int| 0 <= i < s.len() ==> t(#[trigger] s[i])
}

/// The members kept of a list whose members all pass a test pass it.
pub proof fn lemma_keep_every(c: Seq<ExprV>, order: u8, t: Test)
    requires
        every(c, t),
    ensures
        every(keep(c, order), t),
    decreases c.len(),
{
    if c.len() > 0 {
        let rest = c.drop_last();
        assert forall|i: int| 0 <= i < rest.len() implies t(#[trigger] rest[i]) by {
            assert(rest[i] == c[i]);
        }
        lemma_keep_every(rest, order, t);
        assert(t(c[c.len() - 1]));
        let k = keep(rest, order);
        if c.last().order() == order {
            assert forall|i: int| 0 <= i < k.push(c.last()).len() implies t(
                #[trigger] k.push(c.last())[i],
            ) by {
                if i < k.len() {
                    assert(k.push(c.last())[i] == k[i]);
                }
            }
        }
    }
}

/// A list whose members all pass a test, with one more that passes it put
/// in by name, is such a list.
pub proof fn lemma_placed_every(s: Seq<ExprV>, x: ExprV, t: Test)
    requires
        every(s, t),
        t(x),
    ensures
        every(placed(s, x), t),
    decreases s.len(),
{
    if s.len() == 0 {
    } else if crate::order::name_le(s.last().key(), x.key()) {
        assert forall|i: int| 0 <= i < s.push(x).len() implies t(#[trigger] s.push(x)[i]) by {
            if i < s.len() {
                assert(s.push(x)[i] == s[i]);
            }
        }
    } else {
        let rest = s.drop_last();
        assert forall|i: int| 0 <= i < rest.len() implies t(#[trigger] rest[i]) by {
            assert(rest[i] == s[i]);
        }
        lemma_placed_every(rest, x, t);
        assert(t(s[s.len() - 1]));
        let p = placed(rest, x);
        assert forall|i: int| 0 <= i < p.push(s.last()).len() implies t(
            #[trigger] p.push(s.last())[i],
        ) by {
            if i < p.len() {
                assert(p.push(s.last())[i] == p[i]);
            }
        }
    }
}

/// A list whose members all pass a test, put in the order of names, is such
/// a list.
pub proof fn lemma_sorted_every(s: Seq<ExprV>, t: Test)
    requires
        every(s, t),
    ensures
        every(sorted(s), t),
    decreases s.len(),
{
    if s.len() > 0 {
        let rest = s.drop_last();
        assert forall|i: int| 0 <= i < rest.len() implies t(#[trigger] rest[i]) by {
            assert(rest[i] == s[i]);
        }
        lemma_sorted_every(rest, t);
        assert(t(s[s.len() - 1]));
        lemma_placed_every(sorted(rest), s.last(), t);
    }
}

/// Of two lists, one behind the other, the members of a key are those of
/// the first followed by those of the second.
pub proof fn lemma_keep_joined(a: Seq<ExprV>, b: Seq<ExprV>, order: u8)
    ensures
        keep(a + b, order) == keep(a, order) + keep(b, order),
    decreases b.len(),
{
    if b.len() == 0 {
        assert(a + b =~= a);
        assert(keep(a, order) + keep(b, order) =~= keep(a, order));
    } else {
        let rest = b.drop_last();
        lemma_keep_joined(a, rest, order);
        assert((a + b).drop_last() =~= a + rest);
        assert((a + b).last() == b.last());
        if b.last().order() == order {
            assert((keep(a, order) + keep(rest, order)).push(b.last()) =~= keep(a, order) + keep(
                rest,
                order,
            ).push(b.last()));
        }
    }
}

/// Of a list whose members all have one key, the members of that key are
/// all of them, and there are none of another key.
pub proof fn lemma_keep_of_one_key(s: Seq<ExprV>, own: u8, order: u8)
    requires
        forall|i: int| 0 <= i < s.len() ==> (#[trigger] s[i]).order() == own,
    ensures
        keep(s, order) == if order == own {
            s
        } else {
            Seq::<ExprV>::empty()
        },
    decreases s.len(),
{
    if s.len() > 0 {
        let rest = s.drop_last();
        assert forall|i: int| 0 <= i < rest.len() implies (#[trigger] rest[i]).order() == own by {
            assert(rest[i] == s[i]);
        }
        lemma_keep_of_one_key(rest, own, order);
        assert(s[s.len() - 1].order() == own);
        assert(rest.push(s.last()) =~= s);
    } else {
        assert(keep(s, order) =~= s);
    }
}

/// What constant reduction makes of children that are reduced one by one
/// stands as constant reduction leaves it.
pub proof fn lemma_collapsed_settles(sum: bool, c: Seq<ExprV>, arith: Arith)
    requires
        all(reduced_flags(c)),
    ensures
        is_reduced(collapsed(sum, c, arith)),
{
    let constants = keep(c, 0);
    let variables = sorted(keep(c, 1));
    let composite = keep(c, 2);
    let rest = variables + composite;
    let well: Test = |x: ExprV| is_reduced(x);
    assert forall|i: int| 0 <= i < c.len() implies well(#[trigger] c[i]) by {
        assert(reduced_flags(c)[i]);
    }
    lemma_keep_every(c, 1, well);
    lemma_sorted_every(keep(c, 1), well);
    lemma_keep_every(c, 2, well);
    let ones: Test = |x: ExprV| x.order() == 1;
    lemma_keep_order(c, 1);
    assert(every(keep(c, 1), ones));
    lemma_sorted_every(keep(c, 1), ones);
    lemma_keep_order(c, 2);
    assert forall|i: int| 0 <= i < variables.len() implies (#[trigger] variables[i]).order()
        == 1 by {
        assert(ones(variables[i]));
    }
    lemma_sorted_ordered(keep(c, 1));
    lemma_sorted_fixed(variables);
    lemma_keep_of_one_key(variables, 1, 0);
    lemma_keep_of_one_key(variables, 1, 1);
    lemma_keep_of_one_key(variables, 1, 2);
    lemma_keep_of_one_key(composite, 2, 0);
    lemma_keep_of_one_key(composite, 2, 1);
    lemma_keep_of_one_key(composite, 2, 2);
    lemma_keep_joined(variables, composite, 0);
    lemma_keep_joined(variables, composite, 1);
    lemma_keep_joined(variables, composite, 2);
    let none = Seq::<ExprV>::empty();
    assert(keep(rest, 0) =~= none);
    assert(keep(rest, 1) =~= variables);
    assert(keep(rest, 2) =~= composite);
    assert forall|i: int| 0 <= i < rest.len() implies #[trigger] reduced_flags(rest)[i] by {
        if i < variables.len() {
            assert(rest[i] == variables[i]);
            assert(well(variables[i]));
        } else {
            assert(rest[i] == composite[i - variables.len()]);
            assert(well(composite[i - variables.len()]));
        }
    }
    if constants.len() == 0 {
        assert(reordered(rest) =~= rest);
        assert(folded_already(rest));
        lemma_node_reduced(sum, rest);
    } else if rest.len() == 0 {
    } else {
        let first = ExprV::Term(folded(fold_op(sum), constants, arith));
        lemma_keep_order(c, 0);
        crate::resolved::lemma_folded_constant(fold_op(sum), constants, arith);
        let one = seq![first];
        assert(first.order() == 0);
        assert forall|i: int| 0 <= i < one.len() implies (#[trigger] one[i]).order() == 0 by {}
        lemma_keep_of_one_key(one, 0, 0);
        lemma_keep_of_one_key(one, 0, 1);
        lemma_keep_of_one_key(one, 0, 2);
        lemma_keep_joined(one, rest, 0);
        lemma_keep_joined(one, rest, 1);
        lemma_keep_joined(one, rest, 2);
        let whole = one + rest;
        assert(keep(whole, 0) =~= one);
        assert(keep(whole, 1) =~= variables);
        assert(keep(whole, 2) =~= composite);
        assert(reordered(whole) =~= whole);
        assert(folded_already(whole));
        assert forall|i: int| 0 <= i < whole.len() implies #[trigger] reduced_flags(whole)[i] by {
            if i > 0 {
                assert(whole[i] == rest[i - 1]);
                assert(reduced_flags(rest)[i - 1]);
            }
        }
        lemma_node_reduced(sum, whole);
    }
}

/// A sum or product of reduced children that stand as constant reduction
/// leaves them is reduced.
pub proof fn lemma_node_reduced(sum: bool, c: Seq<ExprV>)
    requires
        all(reduced_flags(c)),
        folded_already(c),
    ensures
        is_reduced(node(sum, c)),
{
    if sum {
        assert(node(sum, c) == ExprV::Add(c));
    } else {
        assert(node(sum, c) == ExprV::Mul(c));
    }
}

/// What constant reduction yields of each expression of a list has no
/// constants left to fold.
pub proof fn lemma_reduced_each_is_reduced(c: Seq<ExprV>, arith: Arith)
    ensures
        all(reduced_flags(reduced_each(c, arith))),
    decreases c,
{
    let out = reduced_each(c, arith);
    assert forall|i: int| 0 <= i < out.len() implies #[trigger] reduced_flags(out)[i] by {
        lemma_reduced_is_reduced(c[i], arith);
        assert(out[i] == reduced(c[i], arith));
    }
}

/// What constant reduction yields has no constants left to fold.
pub proof fn lemma_reduced_is_reduced(e: ExprV, arith: Arith)
    ensures
        is_reduced(reduced(e, arith)),
    decreases e,
{
    match e {
        ExprV::Term(_) => {},
        ExprV::Add(c) => {
            lemma_reduced_each_is_reduced(c, arith);
            lemma_collapsed_settles(true, reduced_each(c, arith), arith);
        },
        ExprV::Mul(c) => {
            lemma_reduced_each_is_reduced(c, arith);
            lemma_collapsed_settles(false, reduced_each(c, arith), arith);
        },
        ExprV::Pow(a, b) => {
            lemma_reduced_is_reduced(*a, arith);
            lemma_reduced_is_reduced(*b, arith);
        },
        ExprV::Unary(_, a) => {
            lemma_reduced_is_reduced(*a, arith);
        },
        ExprV::Fn(name, args) => {
            lemma_reduced_each_is_reduced(args, arith);
            assert(reduced(e, arith) == ExprV::Fn(name, reduced_each(args, arith)));
        },
    }
}

/// Reducing what is reduced changes nothing: constant reduction twice is
/// constant reduction once.
pub proof fn lemma_reduced_idempotent(e: ExprV, arith: Arith)
    ensures
        reduced(reduced(e, arith), arith) == reduced(e, arith),
{
    lemma_reduced_is_reduced(e, arith);
    lemma_reduced_fixed(reduced(e, arith), arith);
}

/// Constant reduction makes a number of a node or leaves its kind: what it
/// yields is a sum only where the expression was one, and a product only
/// where the expression was one.
pub proof fn lemma_reduced_kind(e: ExprV, arith: Arith, sum: bool)
    ensures
        of_kind(reduced(e, arith), sum) ==> of_kind(e, sum),
{
}

/// What constant reduction makes of flat children, none of them a node of
/// the kind, is flat.
pub proof fn lemma_collapsed_flat(sum: bool, c: Seq<ExprV>, arith: Arith)
    requires
        all(flat_flags(c, Some(sum))),
    ensures
        is_flat(collapsed(sum, c, arith)),
{
    let fit: Test = |x: ExprV| is_flat(x) && !of_kind(x, sum);
    assert forall|i: int| 0 <= i < c.len() implies fit(#[trigger] c[i]) by {
        assert(flat_flags(c, Some(sum))[i]);
    }
    lemma_keep_every(c, 1, fit);
    lemma_sorted_every(keep(c, 1), fit);
    lemma_keep_every(c, 2, fit);
    let variables = sorted(keep(c, 1));
    let composite = keep(c, 2);
    let rest = variables + composite;
    assert forall|i: int| 0 <= i < rest.len() implies #[trigger] flat_flags(rest, Some(sum))[i] by {
        if i < variables.len() {
            assert(rest[i] == variables[i]);
            assert(fit(variables[i]));
        } else {
            assert(rest[i] == composite[i - variables.len()]);
            assert(fit(composite[i - variables.len()]));
        }
    }
    let constants = keep(c, 0);
    if constants.len() == 0 {
        lemma_node_flat(sum, rest);
    } else if rest.len() == 0 {
    } else {
        let first = ExprV::Term(folded(fold_op(sum), constants, arith));
        let whole = seq![first] + rest;
        assert forall|i: int| 0 <= i < whole.len() implies #[trigger] flat_flags(
            whole,
            Some(sum),
        )[i] by {
            if i > 0 {
                assert(whole[i] == rest[i - 1]);
                assert(flat_flags(rest, Some(sum))[i - 1]);
            }
        }
        lemma_node_flat(sum, whole);
    }
}

/// A sum or product of flat children, none of them a node of its kind, is
/// flat.
pub proof fn lemma_node_flat(sum: bool, c: Seq<ExprV>)
    requires
        all(flat_flags(c, Some(sum))),
    ensures
        is_flat(node(sum, c)),
{
    if sum {
        assert(node(sum, c) == ExprV::Add(c));
    } else {
        assert(node(sum, c) == ExprV::Mul(c));
    }
}

/// Constant reduction keeps the expressions of a list flat, and makes of
/// none of them a node of a kind that it was not.
pub proof fn lemma_reduced_each_flat(c: Seq<ExprV>, arith: Arith, inside: Option<bool>)
    requires
        all(flat_flags(c, inside)),
    ensures
        all(flat_flags(reduced_each(c, arith), inside)),
    decreases c,
{
    let out = reduced_each(c, arith);
    assert forall|i: int| 0 <= i < out.len() implies #[trigger] flat_flags(out, inside)[i] by {
        assert(flat_flags(c, inside)[i]);
        lemma_reduced_flat(c[i], arith);
        assert(out[i] == reduced(c[i], arith));
        match inside {
            Some(sum) => {
                lemma_reduced_kind(c[i], arith, sum);
            },
            None => {},
        }
    }
}

/// Constant reduction keeps a flat expression flat.
pub proof fn lemma_reduced_flat(e: ExprV, arith: Arith)
    requires
        is_flat(e),
    ensures
        is_flat(reduced(e, arith)),
    decreases e,
{
    match e {
        ExprV::Term(_) => {},
        ExprV::Add(c) => {
            lemma_reduced_each_flat(c, arith, Some(true));
            lemma_collapsed_flat(true, reduced_each(c, arith), arith);
        },
        ExprV::Mul(c) => {
            lemma_reduced_each_flat(c, arith, Some(false));
            lemma_collapsed_flat(false, reduced_each(c, arith), arith);
        },
        ExprV::Pow(a, b) => {
            lemma_reduced_flat(*a, arith);
            lemma_reduced_flat(*b, arith);
        },
        ExprV::Unary(_, a) => {
            lemma_reduced_flat(*a, arith);
        },
        ExprV::Fn(name, args) => {
            lemma_reduced_each_flat(args, arith, None);
            assert(reduced(e, arith) == ExprV::Fn(name, reduced_each(args, arith)));
        },
    }
}

/// Simplifying twice gives what simplifying once gives, wherever identity
/// elimination finds nothing to eliminate once the constants are folded.
pub proof fn lemma_simplify_idempotent_unless_eliminated(e: ExprV, c: ContextV, arith: Arith)
    requires
        simplified(e, c, arith) is Some,
        is_settled(
            reduced(
                flat(
                    inlined(
                        expanded(e, c.vars, c.vars.len()).unwrap(),
                        c.vars,
                        c.fns,
                        c.fns.len(),
                    ).unwrap(),
                ),
                arith,
            ),
        ),
    ensures
        simplified(simplified(e, c, arith).unwrap(), c, arith) == simplified(e, c, arith),
{
    let e1 = expanded(e, c.vars, c.vars.len()).unwrap();
    let e2 = inlined(e1, c.vars, c.fns, c.fns.len()).unwrap();
    let y = reduced(flat(e2), arith);
    lemma_flat_is_flat(e2);
    lemma_reduced_flat(flat(e2), arith);
    lemma_reduced_is_reduced(flat(e2), arith);
    lemma_special_fixed(y);
    assert(special(y) == y);
    lemma_simplify_idempotent(e, c, arith);
}

} // verus!

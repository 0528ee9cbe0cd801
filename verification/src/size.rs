//! The size of an expression, and what the passes do to it.
//!
//! Flattening, constant reduction and identity elimination never make an
//! expression larger, and flattening and identity elimination make it
//! smaller wherever they change it. So an expression that the pipeline gives
//! back unchanged was left unchanged by each pass, and is in normal form.

use vstd::prelude::*;
use crate::context::{simplified, ContextV};
use crate::expr::ExprV;
use crate::flatness::lemma_flat_is_flat;
use crate::flatten::{flat, flat_each, operands, spliced};
use crate::normal::{
    all, calls_recursive_only, free_of, is_flat, is_reduced, is_settled, lemma_expanded_fixed,
    lemma_inlined_fixed, settled_flags,
};
use crate::number::Arith;
use crate::order::{keep, placed, sorted};
use crate::reduce::{collapsed, reduced, reduced_each};
use crate::reducedness::lemma_reduced_is_reduced;
use crate::resolved::{lemma_simplified_resolved, lemma_simplify_idempotent};
use crate::special::{leads_with_identity, special, special_each, trimmed};

verus! {

/// The number of nodes of an expression.
pub open spec fn size(e: ExprV) -> nat
    decreases e,
{
    match e {
        ExprV::Term(_) => 1,
        ExprV::Add(c) => 1 + total(c),
        ExprV::Mul(c) => 1 + total(c),
        ExprV::Pow(a, b) => 1 + size(*a) + size(*b),
        ExprV::Unary(_, a) => 1 + size(*a),
        ExprV::Fn(_, args) => 1 + total(args),
    }
}

/// The number of nodes of the expressions of a list.
pub open spec fn total(c: Seq<ExprV>) -> nat
    decreases c,
{
    if c.len() == 0 {
        0
    } else {
        total(c.drop_last()) + size(c.last())
    }
}

/// An expression has at least one node.
pub proof fn lemma_size_positive(e: ExprV)
    ensures
        size(e) >= 1,
{
}

/// A list with one more member has the nodes of both.
pub proof fn lemma_total_push(c: Seq<ExprV>, x: ExprV)
    ensures
        total(c.push(x)) == total(c) + size(x),
{
    assert(c.push(x).drop_last() =~= c);
}

/// A list of one member has the nodes of that member.
pub proof fn lemma_total_one(x: ExprV)
    ensures
        total(seq![x]) == size(x),
{
    let none = Seq::<ExprV>::empty();
    lemma_total_push(none, x);
    assert(none.push(x) =~= seq![x]);
    assert(total(none) == 0);
}

/// Two lists, one behind the other, have the nodes of both.
pub proof fn lemma_total_joined(a: Seq<ExprV>, b: Seq<ExprV>)
    ensures
        total(a + b) == total(a) + total(b),
    decreases b.len(),
{
    if b.len() == 0 {
        assert(a + b =~= a);
    } else {
        lemma_total_joined(a, b.drop_last());
        assert((a + b).drop_last() =~= a + b.drop_last());
        assert((a + b).last() == b.last());
    }
}

/// A list has at least as many nodes as members.
pub proof fn lemma_total_at_least(c: Seq<ExprV>)
    ensures
        total(c) >= c.len(),
    decreases c.len(),
{
    if c.len() > 0 {
        lemma_total_at_least(c.drop_last());
        lemma_size_positive(c.last());
    }
}

/// A list without its first member lacks the nodes of that member.
pub proof fn lemma_total_skip(c: Seq<ExprV>)
    requires
        c.len() >= 1,
    ensures
        total(c.skip(1)) + size(c[0]) == total(c),
{
    let one = seq![c[0]];
    lemma_total_joined(one, c.skip(1));
    assert(one + c.skip(1) =~= c);
    lemma_total_one(c[0]);
}

/// Where each member of a list is no larger than the member in its place in
/// another, the list is no larger; and where the lists are of one size, so
/// are the members.
pub proof fn lemma_total_pointwise(a: Seq<ExprV>, b: Seq<ExprV>)
    requires
        a.len() == b.len(),
        forall|i: int| 0 <= i < a.len() ==> size(#[trigger] a[i]) <= size(b[i]),
    ensures
        total(a) <= total(b),
        total(a) == total(b) ==> forall|i: int| 0 <= i < a.len() ==> size(#[trigger] a[i]) == size(
            b[i],
        ),
    decreases a.len(),
{
    if a.len() > 0 {
        let x = a.drop_last();
        let y = b.drop_last();
        assert forall|i: int| 0 <= i < x.len() implies size(#[trigger] x[i]) <= size(y[i]) by {
            assert(x[i] == a[i]);
            assert(y[i] == b[i]);
        }
        lemma_total_pointwise(x, y);
        assert(size(a[a.len() - 1]) <= size(b[a.len() - 1]));
        if total(a) == total(b) {
            assert forall|i: int| 0 <= i < a.len() implies size(#[trigger] a[i]) == size(
                b[i],
            ) by {
                if i < x.len() {
                    assert(x[i] == a[i]);
                    assert(y[i] == b[i]);
                    assert(size(x[i]) == size(y[i]));
                }
            }
        }
    }
}

/// The members of the three keys together have the nodes of the list.
pub proof fn lemma_total_kept(c: Seq<ExprV>)
    ensures
        total(keep(c, 0)) + total(keep(c, 1)) + total(keep(c, 2)) == total(c),
    decreases c.len(),
{
    if c.len() > 0 {
        let rest = c.drop_last();
        lemma_total_kept(rest);
        lemma_total_push(keep(rest, 0), c.last());
        lemma_total_push(keep(rest, 1), c.last());
        lemma_total_push(keep(rest, 2), c.last());
    }
}

/// Putting a member in adds its nodes.
pub proof fn lemma_total_placed(s: Seq<ExprV>, x: ExprV)
    ensures
        total(placed(s, x)) == total(s) + size(x),
    decreases s.len(),
{
    if s.len() == 0 {
        assert(seq![x] =~= s.push(x));
        lemma_total_push(s, x);
    } else if crate::order::name_le(s.last().key(), x.key()) {
        lemma_total_push(s, x);
    } else {
        lemma_total_placed(s.drop_last(), x);
        lemma_total_push(placed(s.drop_last(), x), s.last());
    }
}

/// Sorting keeps the nodes.
pub proof fn lemma_total_sorted(s: Seq<ExprV>)
    ensures
        total(sorted(s)) == total(s),
    decreases s.len(),
{
    if s.len() > 0 {
        lemma_total_sorted(s.drop_last());
        lemma_total_placed(sorted(s.drop_last()), s.last());
    }
}

/// The operands that an expression gives to a sum or product have no more
/// nodes than the expression, and as many only where the expression gives
/// itself unchanged.
pub proof fn lemma_operands_size(e: ExprV, sum: bool)
    ensures
        total(operands(e, sum)) <= size(e),
        total(operands(e, sum)) == size(e) ==> operands(e, sum) == seq![e],
    decreases e, 1nat,
{
    let own = match e {
        ExprV::Add(c) => sum,
        ExprV::Mul(c) => !sum,
        _ => false,
    };
    if own {
        match e {
            ExprV::Add(c) => {
                lemma_spliced_size(c, sum);
            },
            ExprV::Mul(c) => {
                lemma_spliced_size(c, sum);
            },
            _ => {},
        }
    } else {
        lemma_flat_size(e);
        let one = seq![flat(e)];
        assert(operands(e, sum) == one);
        lemma_total_one(flat(e));
    }
}

/// The operands that the members of a list give to a sum or product have no
/// more nodes than the list, and as many only where they are the list.
pub proof fn lemma_spliced_size(c: Seq<ExprV>, sum: bool)
    ensures
        total(spliced(c, sum)) <= total(c),
        total(spliced(c, sum)) == total(c) ==> spliced(c, sum) == c,
    decreases c, 0nat,
{
    if c.len() > 0 {
        let rest = c.drop_last();
        lemma_spliced_size(rest, sum);
        lemma_operands_size(c.last(), sum);
        lemma_total_joined(spliced(rest, sum), operands(c.last(), sum));
        if total(spliced(c, sum)) == total(c) {
            assert(rest + seq![c.last()] =~= c);
        }
    } else {
        assert(spliced(c, sum) =~= c);
    }
}

/// Flattening makes no expression larger, and smaller wherever it changes
/// it.
pub proof fn lemma_flat_size(e: ExprV)
    ensures
        size(flat(e)) <= size(e),
        size(flat(e)) == size(e) ==> flat(e) == e,
    decreases e, 0nat,
{
    match e {
        ExprV::Term(_) => {
            assert(flat(e) == e);
        },
        ExprV::Add(c) => {
            lemma_spliced_size(c, true);
            assert(flat(e) == ExprV::Add(spliced(c, true)));
        },
        ExprV::Mul(c) => {
            lemma_spliced_size(c, false);
            assert(flat(e) == ExprV::Mul(spliced(c, false)));
        },
        ExprV::Pow(a, b) => {
            lemma_flat_size(*a);
            lemma_flat_size(*b);
            assert(flat(e) == ExprV::Pow(Box::new(flat(*a)), Box::new(flat(*b))));
        },
        ExprV::Unary(kind, a) => {
            lemma_flat_size(*a);
            assert(flat(e) == ExprV::Unary(kind, Box::new(flat(*a))));
        },
        ExprV::Fn(name, args) => {
            let out = flat_each(args);
            assert(flat(e) == ExprV::Fn(name, out));
            assert forall|i: int| 0 <= i < out.len() implies size(#[trigger] out[i]) <= size(
                args[i],
            ) by {
                lemma_flat_size(args[i]);
                assert(out[i] == flat(args[i]));
            }
            lemma_total_pointwise(out, args);
            if size(flat(e)) == size(e) {
                assert forall|i: int| 0 <= i < out.len() implies out[i] == args[i] by {
                    lemma_flat_size(args[i]);
                    assert(out[i] == flat(args[i]));
                    assert(size(out[i]) == size(args[i]));
                }
                assert(out =~= args);
            }
        },
    }
}

/// Constant reduction makes none of the expressions of a list larger.
pub proof fn lemma_reduced_each_size(c: Seq<ExprV>, arith: Arith)
    ensures
        total(reduced_each(c, arith)) <= total(c),
    decreases c,
{
    let out = reduced_each(c, arith);
    assert forall|i: int| 0 <= i < out.len() implies size(#[trigger] out[i]) <= size(c[i]) by {
        lemma_reduced_size(c[i], arith);
        assert(out[i] == reduced(c[i], arith));
    }
    lemma_total_pointwise(out, c);
}

/// What constant reduction makes of children has, with the node itself, no
/// more nodes than they and the node.
pub proof fn lemma_collapsed_size(sum: bool, c: Seq<ExprV>, arith: Arith)
    ensures
        size(collapsed(sum, c, arith)) <= 1 + total(c),
{
    let constants = keep(c, 0);
    let rest = sorted(keep(c, 1)) + keep(c, 2);
    lemma_total_kept(c);
    lemma_total_sorted(keep(c, 1));
    lemma_total_joined(sorted(keep(c, 1)), keep(c, 2));
    lemma_total_at_least(constants);
    if constants.len() == 0 {
        if sum {
            assert(collapsed(sum, c, arith) == ExprV::Add(rest));
        } else {
            assert(collapsed(sum, c, arith) == ExprV::Mul(rest));
        }
    } else if rest.len() == 0 {
    } else {
        let first = ExprV::Term(
            crate::reduce::folded(crate::reduce::fold_op(sum), constants, arith),
        );
        let one = seq![first];
        lemma_total_one(first);
        lemma_total_joined(one, rest);
        if sum {
            assert(collapsed(sum, c, arith) == ExprV::Add(one + rest));
        } else {
            assert(collapsed(sum, c, arith) == ExprV::Mul(one + rest));
        }
    }
}

/// Constant reduction makes no expression larger.
pub proof fn lemma_reduced_size(e: ExprV, arith: Arith)
    ensures
        size(reduced(e, arith)) <= size(e),
    decreases e,
{
    match e {
        ExprV::Term(_) => {},
        ExprV::Add(c) => {
            lemma_reduced_each_size(c, arith);
            lemma_collapsed_size(true, reduced_each(c, arith), arith);
        },
        ExprV::Mul(c) => {
            lemma_reduced_each_size(c, arith);
            lemma_collapsed_size(false, reduced_each(c, arith), arith);
        },
        ExprV::Pow(a, b) => {
            lemma_reduced_size(*a, arith);
            lemma_reduced_size(*b, arith);
        },
        ExprV::Unary(_, a) => {
            lemma_reduced_size(*a, arith);
        },
        ExprV::Fn(name, args) => {
            lemma_reduced_each_size(args, arith);
            assert(reduced(e, arith) == ExprV::Fn(name, reduced_each(args, arith)));
        },
    }
}

/// Identity elimination makes none of the expressions of a list larger, and
/// leaves the list as it is where it leaves its size.
pub proof fn lemma_special_each_size(c: Seq<ExprV>)
    ensures
        total(special_each(c)) <= total(c),
        total(special_each(c)) == total(c) ==> special_each(c) == c,
    decreases c,
{
    let out = special_each(c);
    assert forall|i: int| 0 <= i < out.len() implies size(#[trigger] out[i]) <= size(c[i]) by {
        lemma_special_size(c[i]);
        assert(out[i] == special(c[i]));
    }
    lemma_total_pointwise(out, c);
    if total(out) == total(c) {
        assert forall|i: int| 0 <= i < out.len() implies out[i] == c[i] by {
            lemma_special_size(c[i]);
            assert(out[i] == special(c[i]));
            assert(size(out[i]) == size(c[i]));
        }
        assert(out =~= c);
    }
}

/// A sum or product without its leading identity element has fewer nodes
/// than the node with it.
pub proof fn lemma_trimmed_size(sum: bool, c: Seq<ExprV>)
    ensures
        size(trimmed(sum, c)) <= 1 + total(c),
        size(trimmed(sum, c)) == 1 + total(c) ==> !leads_with_identity(sum, c) && trimmed(sum, c)
            == crate::reduce::node(sum, c),
{
    if leads_with_identity(sum, c) {
        lemma_total_skip(c);
        lemma_size_positive(c[0]);
        if c.len() == 2 {
            let rest = c.skip(1);
            assert(rest =~= seq![c[1]]);
            lemma_total_one(c[1]);
        } else {
            if sum {
                assert(trimmed(sum, c) == ExprV::Add(c.skip(1)));
            } else {
                assert(trimmed(sum, c) == ExprV::Mul(c.skip(1)));
            }
        }
    } else {
        if sum {
            assert(trimmed(sum, c) == ExprV::Add(c));
        } else {
            assert(trimmed(sum, c) == ExprV::Mul(c));
        }
    }
}

/// Identity elimination makes no expression larger, and smaller wherever it
/// changes it.
pub proof fn lemma_special_size(e: ExprV)
    ensures
        size(special(e)) <= size(e),
        size(special(e)) == size(e) ==> special(e) == e,
    decreases e,
{
    match e {
        ExprV::Term(_) => {},
        ExprV::Add(c) => {
            lemma_special_each_size(c);
            lemma_trimmed_size(true, special_each(c));
        },
        ExprV::Mul(c) => {
            lemma_special_each_size(c);
            lemma_trimmed_size(false, special_each(c));
        },
        ExprV::Pow(a, b) => {
            lemma_special_size(*a);
            lemma_special_size(*b);
            lemma_size_positive(special(*a));
            lemma_size_positive(special(*b));
        },
        ExprV::Unary(_, a) => {
            lemma_special_size(*a);
        },
        ExprV::Fn(name, args) => {
            lemma_special_each_size(args);
            assert(special(e) == ExprV::Fn(name, special_each(args)));
        },
    }
}

/// What identity elimination leaves unchanged has no identity left to
/// eliminate.
pub proof fn lemma_unchanged_is_settled(e: ExprV)
    requires
        special(e) == e,
    ensures
        is_settled(e),
    decreases e,
{
    match e {
        ExprV::Term(_) => {},
        ExprV::Add(c) => {
            lemma_special_each_size(c);
            lemma_trimmed_size(true, special_each(c));
            lemma_unchanged_are_settled(c);
        },
        ExprV::Mul(c) => {
            lemma_special_each_size(c);
            lemma_trimmed_size(false, special_each(c));
            lemma_unchanged_are_settled(c);
        },
        ExprV::Pow(a, b) => {
            lemma_special_size(*a);
            lemma_special_size(*b);
            lemma_size_positive(special(*a));
            lemma_size_positive(special(*b));
            lemma_unchanged_is_settled(*a);
            lemma_unchanged_is_settled(*b);
        },
        ExprV::Unary(_, a) => {
            lemma_unchanged_is_settled(*a);
        },
        ExprV::Fn(name, args) => {
            assert(special(e) == ExprV::Fn(name, special_each(args)));
            lemma_unchanged_are_settled(args);
        },
    }
}

/// The expressions of a list that identity elimination leaves unchanged
/// have no identity left to eliminate.
pub proof fn lemma_unchanged_are_settled(c: Seq<ExprV>)
    requires
        special_each(c) == c,
    ensures
        all(settled_flags(c)),
    decreases c,
{
    assert forall|i: int| 0 <= i < c.len() implies #[trigger] settled_flags(c)[i] by {
        assert(special_each(c)[i] == special(c[i]));
        lemma_unchanged_is_settled(c[i]);
    }
}

/// An expression that names no bound variable and calls no function but
/// recursive ones, and that simplification gives back unchanged, is flat,
/// has no constants left to fold and no identity left to eliminate.
pub proof fn lemma_fixed_is_normal(r: ExprV, c: ContextV, arith: Arith)
    requires
        free_of(r, c.vars),
        calls_recursive_only(r, c.fns),
        simplified(r, c, arith) == Some(r),
    ensures
        is_flat(r),
        is_reduced(r),
        is_settled(r),
{
    lemma_expanded_fixed(r, c.vars, c.vars.len());
    lemma_inlined_fixed(r, c.vars, c.fns, c.fns.len());
    let x = flat(r);
    let y = reduced(x, arith);
    assert(special(y) == r);
    lemma_flat_size(r);
    lemma_reduced_size(x, arith);
    lemma_special_size(y);
    assert(x == r);
    assert(y == r);
    lemma_flat_is_flat(r);
    lemma_reduced_is_reduced(r, arith);
    lemma_unchanged_is_settled(r);
}

/// Simplifying twice gives what simplifying once gives exactly where the
/// first result is flat, has no constants left to fold and no identity left
/// to eliminate.
pub proof fn lemma_idempotent_exactly(e: ExprV, c: ContextV, arith: Arith)
    requires
        simplified(e, c, arith) is Some,
    ensures
        simplified(simplified(e, c, arith).unwrap(), c, arith) == simplified(e, c, arith) <==> {
            let r = simplified(e, c, arith).unwrap();
            is_flat(r) && is_reduced(r) && is_settled(r)
        },
{
    let r = simplified(e, c, arith).unwrap();
    lemma_simplified_resolved(e, c, arith);
    if is_flat(r) && is_reduced(r) && is_settled(r) {
        lemma_simplify_idempotent(e, c, arith);
    }
    if simplified(r, c, arith) == simplified(e, c, arith) {
        lemma_fixed_is_normal(r, c, arith);
    }
}

} // verus!

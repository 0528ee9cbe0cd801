//! What holds of the passes and of the pipeline as a whole.

use vstd::prelude::*;
use crate::context::{
    faults, fn_fault, fn_faults, fn_message, simplified, var_fault, var_faults, var_message,
    ContextV,
};
use crate::eval::{leaves, total, value, values, Scope};
use crate::expand::{expanded, expansions, gathered, inlined, inlinings, substituted};
use crate::expr::ExprV;
use crate::normal::{
    all, call_flags, calls_recursive_only, flat_flags, free_flags, free_of, is_flat,
    is_recursive, lemma_expanded_fixed, lemma_flat_fixed, lemma_inlined_fixed,
    lemma_reduced_fixed, lemma_special_fixed, normal,
};
use crate::number::{Arith, Op, ONE_BITS, ZERO_BITS};
use crate::order::{keep, sorted};
use crate::reduce::{collapsed, folded, reduced, reduced_each};
use crate::sample::{chunk, contiguous, samples, stretch, stretch_first, Sweep};
use crate::scope::{find, find_fn, zipped, Binding, FuncV};
use crate::special::{settled, special, special_each, trimmed};
use crate::term::TermV;

verus! {

/// The list after one more member, with the members of a key kept: the key's
/// members of the list before, and the new member where it has the key.
pub proof fn lemma_keep_push(c: Seq<ExprV>, x: ExprV, order: u8)
    ensures
        keep(c.push(x), order) == if x.order() == order {
            keep(c, order).push(x)
        } else {
            keep(c, order)
        },
{
    assert(c.push(x).drop_last() =~= c);
}

/// Of a list whose members are all numbers, every member is kept as a
/// number and none as a variable or a composite node.
pub proof fn lemma_keep_constants(c: Seq<ExprV>)
    requires
        forall|i: int| 0 <= i < c.len() ==> (#[trigger] c[i]).constant(),
    ensures
        keep(c, 0) == c,
        keep(c, 1) == Seq::<ExprV>::empty(),
        keep(c, 2) == Seq::<ExprV>::empty(),
    decreases c.len(),
{
    if c.len() > 0 {
        let rest = c.drop_last();
        assert forall|i: int| 0 <= i < rest.len() implies (#[trigger] rest[i]).constant() by {
            assert(rest[i] == c[i]);
        }
        lemma_keep_constants(rest);
        assert(c.last() == c[c.len() - 1]);
        assert(c.last().constant());
        assert(rest.push(c.last()) =~= c);
    } else {
        assert(keep(c, 0) =~= c);
    }
}

/// What expansion yields names no variable that `vars` binds.
pub proof fn lemma_expanded_free(e: ExprV, vars: Seq<Binding>, depth: nat)
    requires
        expanded(e, vars, depth) is Some,
    ensures
        free_of(expanded(e, vars, depth).unwrap(), vars),
    decreases depth, e,
{
    match e {
        ExprV::Term(TermV::Var(n)) => {
            match find(vars, n) {
                Some(b) => {
                    lemma_expanded_free(b, vars, (depth - 1) as nat);
                },
                None => {},
            }
        },
        ExprV::Term(_) => {},
        ExprV::Add(c) => {
            lemma_expansions_free(c, vars, depth);
        },
        ExprV::Mul(c) => {
            lemma_expansions_free(c, vars, depth);
        },
        ExprV::Pow(a, b) => {
            lemma_expanded_free(*a, vars, depth);
            lemma_expanded_free(*b, vars, depth);
        },
        ExprV::Unary(_, a) => {
            lemma_expanded_free(*a, vars, depth);
        },
        ExprV::Fn(_, args) => {
            lemma_expansions_free(args, vars, depth);
        },
    }
}

/// What the expansion of each expression of a list yields names no variable
/// that `vars` binds.
pub proof fn lemma_expansions_free(c: Seq<ExprV>, vars: Seq<Binding>, depth: nat)
    requires
        gathered(expansions(c, vars, depth)) is Some,
    ensures
        all(free_flags(gathered(expansions(c, vars, depth)).unwrap(), vars)),
    decreases depth, c,
{
    let s = expansions(c, vars, depth);
    let out = gathered(s).unwrap();
    assert forall|i: int| 0 <= i < out.len() implies #[trigger] free_flags(out, vars)[i] by {
        assert(s[i] is Some);
        lemma_expanded_free(c[i], vars, depth);
    }
}

/// After inlining, every call that is left is a call of a declared recursive
/// function: a call of a function that is not recursive has given way to the
/// function's body. And where the expression named no bound variable before,
/// it names none after.
pub proof fn lemma_inlined_calls(e: ExprV, vars: Seq<Binding>, fns: Seq<FuncV>, depth: nat)
    requires
        inlined(e, vars, fns, depth) is Some,
    ensures
        calls_recursive_only(inlined(e, vars, fns, depth).unwrap(), fns),
        free_of(e, vars) ==> free_of(inlined(e, vars, fns, depth).unwrap(), vars),
    decreases depth, e,
{
    match e {
        ExprV::Term(_) => {},
        ExprV::Add(c) => {
            lemma_inlinings_calls(c, vars, fns, depth);
        },
        ExprV::Mul(c) => {
            lemma_inlinings_calls(c, vars, fns, depth);
        },
        ExprV::Pow(a, b) => {
            lemma_inlined_calls(*a, vars, fns, depth);
            lemma_inlined_calls(*b, vars, fns, depth);
        },
        ExprV::Unary(_, a) => {
            lemma_inlined_calls(*a, vars, fns, depth);
        },
        ExprV::Fn(name, args) => {
            let f = find_fn(fns, name).unwrap();
            lemma_inlinings_calls(args, vars, fns, depth);
            if !f.recursive {
                let given = gathered(inlinings(args, vars, fns, depth)).unwrap();
                let body = substituted(f.body, zipped(f.args, given));
                lemma_expanded_free(body, vars, vars.len());
                lemma_inlined_calls(
                    expanded(body, vars, vars.len()).unwrap(),
                    vars,
                    fns,
                    (depth - 1) as nat,
                );
            }
        },
    }
}

/// After inlining each expression of a list, every call that is left in them
/// is a call of a declared recursive function, and those that named no bound
/// variable before name none after.
pub proof fn lemma_inlinings_calls(
    c: Seq<ExprV>,
    vars: Seq<Binding>,
    fns: Seq<FuncV>,
    depth: nat,
)
    requires
        gathered(inlinings(c, vars, fns, depth)) is Some,
    ensures
        all(call_flags(gathered(inlinings(c, vars, fns, depth)).unwrap(), fns)),
        all(free_flags(c, vars)) ==> all(
            free_flags(gathered(inlinings(c, vars, fns, depth)).unwrap(), vars),
        ),
    decreases depth, c,
{
    let s = inlinings(c, vars, fns, depth);
    let out = gathered(s).unwrap();
    assert forall|i: int| 0 <= i < out.len() implies #[trigger] call_flags(out, fns)[i] by {
        assert(s[i] is Some);
        lemma_inlined_calls(c[i], vars, fns, depth);
    }
    if all(free_flags(c, vars)) {
        assert forall|i: int| 0 <= i < out.len() implies #[trigger] free_flags(out, vars)[i] by {
            assert(s[i] is Some);
            assert(free_flags(c, vars)[i]);
            lemma_inlined_calls(c[i], vars, fns, depth);
        }
    }
}

/// A call of a recursive function stays a call of that function, with as
/// many arguments, wherever inlining succeeds.
pub proof fn lemma_recursive_call_stays(
    name: Seq<char>,
    args: Seq<ExprV>,
    vars: Seq<Binding>,
    fns: Seq<FuncV>,
    depth: nat,
)
    requires
        is_recursive(fns, name),
        inlined(ExprV::Fn(name, args), vars, fns, depth) is Some,
    ensures
        inlined(ExprV::Fn(name, args), vars, fns, depth).unwrap() matches ExprV::Fn(n, a) && n
            == name && a.len() == args.len(),
{
    let s = inlinings(args, vars, fns, depth);
    assert(s.len() == args.len());
    assert(gathered(s).unwrap().len() == s.len());
}

/// A sum of an expression in normal form and a zero, in either order,
/// simplifies to that expression, where the expression is no number and no
/// sum itself.
pub proof fn lemma_sum_with_zero(n: ExprV, z: TermV, c: ContextV, arith: Arith)
    requires
        normal(n, c),
        !n.constant(),
        !(n is Add),
        z.zero(),
    ensures
        simplified(ExprV::Add(seq![n, ExprV::Term(z)]), c, arith) == Some(n),
        simplified(ExprV::Add(seq![ExprV::Term(z), n]), c, arith) == Some(n),
        simplified(n, c, arith) == Some(n),
{
    crate::normal::lemma_normal_is_fixed(n, c, arith);
    lemma_pair_with_identity(true, n, z, c, arith, true);
    lemma_pair_with_identity(true, n, z, c, arith, false);
}

/// A product of an expression in normal form and a one, in either order,
/// simplifies to that expression, where the expression is no number and no
/// product itself.
pub proof fn lemma_product_with_one(n: ExprV, u: TermV, c: ContextV, arith: Arith)
    requires
        normal(n, c),
        !n.constant(),
        !(n is Mul),
        u.one(),
    ensures
        simplified(ExprV::Mul(seq![n, ExprV::Term(u)]), c, arith) == Some(n),
        simplified(ExprV::Mul(seq![ExprV::Term(u), n]), c, arith) == Some(n),
        simplified(n, c, arith) == Some(n),
{
    crate::normal::lemma_normal_is_fixed(n, c, arith);
    lemma_pair_with_identity(false, n, u, c, arith, true);
    lemma_pair_with_identity(false, n, u, c, arith, false);
}

/// A sum or product of an expression in normal form and the identity
/// element, the expression first (`first`) or last, simplifies to the
/// expression.
pub proof fn lemma_pair_with_identity(
    sum: bool,
    n: ExprV,
    id: TermV,
    c: ContextV,
    arith: Arith,
    first: bool,
)
    requires
        normal(n, c),
        !n.constant(),
        !crate::normal::of_kind(n, sum),
        if sum {
            id.zero()
        } else {
            id.one()
        },
    ensures
        simplified(
            crate::reduce::node(
                sum,
                if first {
                    seq![n, ExprV::Term(id)]
                } else {
                    seq![ExprV::Term(id), n]
                },
            ),
            c,
            arith,
        ) == Some(n),
{
    let i = ExprV::Term(id);
    let pair = if first {
        seq![n, i]
    } else {
        seq![i, n]
    };
    let e = crate::reduce::node(sum, pair);
    assert forall|k: int| 0 <= k < pair.len() implies #[trigger] free_flags(pair, c.vars)[k] by {}
    assert forall|k: int| 0 <= k < pair.len() implies #[trigger] call_flags(pair, c.fns)[k] by {}
    assert forall|k: int| 0 <= k < pair.len() implies #[trigger] flat_flags(pair, Some(sum))[k] by {}
    assert(pair[0] == if first { n } else { i });
    assert(pair[1] == if first { i } else { n });
    assert(all(free_flags(pair, c.vars)));
    assert(all(call_flags(pair, c.fns)));
    assert(all(flat_flags(pair, Some(sum))));
    if sum {
        assert(e == ExprV::Add(pair));
    } else {
        assert(e == ExprV::Mul(pair));
    }
    lemma_expanded_fixed(e, c.vars, c.vars.len());
    lemma_inlined_fixed(e, c.vars, c.fns, c.fns.len());
    lemma_flat_fixed(e);
    lemma_reduced_fixed(n, arith);
    assert(reduced_each(pair, arith) =~= pair);
    let empty = Seq::<ExprV>::empty();
    assert(keep(empty, 0) =~= empty);
    assert(keep(empty, 1) =~= empty);
    assert(keep(empty, 2) =~= empty);
    if first {
        assert(pair =~= empty.push(n).push(i));
        lemma_keep_push(empty, n, 0);
        lemma_keep_push(empty.push(n), i, 0);
        lemma_keep_push(empty, n, 1);
        lemma_keep_push(empty.push(n), i, 1);
        lemma_keep_push(empty, n, 2);
        lemma_keep_push(empty.push(n), i, 2);
    } else {
        assert(pair =~= empty.push(i).push(n));
        lemma_keep_push(empty, i, 0);
        lemma_keep_push(empty.push(i), n, 0);
        lemma_keep_push(empty, i, 1);
        lemma_keep_push(empty.push(i), n, 1);
        lemma_keep_push(empty, i, 2);
        lemma_keep_push(empty.push(i), n, 2);
    }
    assert(keep(pair, 0) =~= seq![i]);
    let rest = sorted(keep(pair, 1)) + keep(pair, 2);
    if n.order() == 1 {
        assert(keep(pair, 1) =~= seq![n]);
        assert(keep(pair, 1).drop_last() =~= empty);
        assert(sorted(empty) =~= empty);
        assert(sorted(keep(pair, 1)) =~= seq![n]);
        assert(keep(pair, 2) =~= empty);
    } else {
        assert(keep(pair, 1) =~= empty);
        assert(sorted(keep(pair, 1)) =~= empty);
        assert(keep(pair, 2) =~= seq![n]);
    }
    assert(rest =~= seq![n]);
    assert(folded(crate::reduce::fold_op(sum), seq![i], arith) == id);
    let after = seq![i, n];
    assert(seq![i] + rest =~= after);
    assert(collapsed(sum, pair, arith) == crate::reduce::node(sum, after));
    assert(reduced(e, arith) == crate::reduce::node(sum, after));
    lemma_special_fixed(n);
    assert(special_each(after) =~= after);
    assert(trimmed(sum, after) == n);
}

/// The powers with zero or one on either side of an expression in normal
/// form that is no number: the expression to the power zero is one, to the
/// power one is itself; zero to the power of the expression is zero, one to
/// it is one.
pub proof fn lemma_powers_with_identity(n: ExprV, z: TermV, u: TermV, c: ContextV, arith: Arith)
    requires
        normal(n, c),
        !n.constant(),
        z.zero(),
        u.one(),
    ensures
        simplified(ExprV::Pow(Box::new(n), Box::new(ExprV::Term(z))), c, arith) == Some(
            ExprV::Term(TermV::Real(ONE_BITS)),
        ),
        simplified(ExprV::Pow(Box::new(n), Box::new(ExprV::Term(u))), c, arith) == Some(n),
        simplified(ExprV::Pow(Box::new(ExprV::Term(z)), Box::new(n)), c, arith) == Some(
            ExprV::Term(TermV::Real(ZERO_BITS)),
        ),
        simplified(ExprV::Pow(Box::new(ExprV::Term(u)), Box::new(n)), c, arith) == Some(
            ExprV::Term(TermV::Real(ONE_BITS)),
        ),
{
    lemma_power_parts(n, ExprV::Term(z), c, arith);
    lemma_power_parts(n, ExprV::Term(u), c, arith);
    lemma_power_parts(ExprV::Term(z), n, c, arith);
    lemma_power_parts(ExprV::Term(u), n, c, arith);
}

/// A power of two expressions in normal form, one of them no number,
/// simplifies to what identity elimination makes of it.
pub proof fn lemma_power_parts(a: ExprV, b: ExprV, c: ContextV, arith: Arith)
    requires
        normal(a, c),
        normal(b, c),
        !(a.constant() && b.constant()),
    ensures
        simplified(ExprV::Pow(Box::new(a), Box::new(b)), c, arith) == Some(settled(a, b)),
{
    let e = ExprV::Pow(Box::new(a), Box::new(b));
    lemma_expanded_fixed(e, c.vars, c.vars.len());
    lemma_inlined_fixed(e, c.vars, c.fns, c.fns.len());
    lemma_flat_fixed(e);
    lemma_reduced_fixed(a, arith);
    lemma_reduced_fixed(b, arith);
    lemma_special_fixed(a);
    lemma_special_fixed(b);
}

/// Every leaf of the expression is a number, it holds no call, and each of
/// its sums and products has an operand.
pub open spec fn numeric(e: ExprV) -> bool
    decreases e,
{
    match e {
        ExprV::Term(t) => t.constant(),
        ExprV::Add(c) => c.len() > 0 && all(numeric_flags(c)),
        ExprV::Mul(c) => c.len() > 0 && all(numeric_flags(c)),
        ExprV::Pow(a, b) => numeric(*a) && numeric(*b),
        ExprV::Unary(_, a) => numeric(*a),
        ExprV::Fn(_, _) => false,
    }
}

/// For each expression of a list, whether it is numeric.
pub open spec fn numeric_flags(c: Seq<ExprV>) -> Seq<bool>
    decreases c,
{
    Seq::new(
        c.len(),
        |i: int|
            if 0 <= i < c.len() {
                numeric(c[i])
            } else {
                true
            },
    )
}

/// A numeric expression names no variable and holds no call.
pub proof fn lemma_numeric_closed(e: ExprV, vars: Seq<Binding>, fns: Seq<FuncV>)
    requires
        numeric(e),
    ensures
        free_of(e, vars),
        calls_recursive_only(e, fns),
    decreases e,
{
    match e {
        ExprV::Term(_) => {},
        ExprV::Add(c) => {
            lemma_numeric_closed_each(c, vars, fns);
        },
        ExprV::Mul(c) => {
            lemma_numeric_closed_each(c, vars, fns);
        },
        ExprV::Pow(a, b) => {
            lemma_numeric_closed(*a, vars, fns);
            lemma_numeric_closed(*b, vars, fns);
        },
        ExprV::Unary(_, a) => {
            lemma_numeric_closed(*a, vars, fns);
        },
        ExprV::Fn(_, _) => {},
    }
}

/// Numeric expressions name no variable and hold no call.
pub proof fn lemma_numeric_closed_each(c: Seq<ExprV>, vars: Seq<Binding>, fns: Seq<FuncV>)
    requires
        all(numeric_flags(c)),
    ensures
        all(free_flags(c, vars)),
        all(call_flags(c, fns)),
    decreases c,
{
    assert forall|i: int| 0 <= i < c.len() implies #[trigger] free_flags(c, vars)[i] by {
        assert(numeric_flags(c)[i]);
        lemma_numeric_closed(c[i], vars, fns);
    }
    assert forall|i: int| 0 <= i < c.len() implies #[trigger] call_flags(c, fns)[i] by {
        assert(numeric_flags(c)[i]);
        lemma_numeric_closed(c[i], vars, fns);
    }
}

/// Constant reduction brings a numeric expression down to one number, and
/// that number is the value of the expression.
pub proof fn lemma_reduced_numeric(e: ExprV, scope: Scope, locals: Seq<Binding>, depth: nat)
    requires
        numeric(e),
    ensures
        reduced(e, scope.arith).constant(),
        value(e, scope, locals, depth) == Some(reduced(e, scope.arith).leaf()),
    decreases e,
{
    match e {
        ExprV::Term(_) => {},
        ExprV::Add(c) => {
            lemma_reduced_numeric_each(Op::Add, c, scope, locals, depth);
        },
        ExprV::Mul(c) => {
            lemma_reduced_numeric_each(Op::Mul, c, scope, locals, depth);
        },
        ExprV::Pow(a, b) => {
            lemma_reduced_numeric(*a, scope, locals, depth);
            lemma_reduced_numeric(*b, scope, locals, depth);
        },
        ExprV::Unary(_, a) => {
            lemma_reduced_numeric(*a, scope, locals, depth);
        },
        ExprV::Fn(_, _) => {},
    }
}

/// The operands of a numeric sum or product reduce to numbers, all of them
/// are kept as the constants of the node, and folding them gives the value
/// that evaluation gives.
pub proof fn lemma_reduced_numeric_each(
    op: Op,
    c: Seq<ExprV>,
    scope: Scope,
    locals: Seq<Binding>,
    depth: nat,
)
    requires
        c.len() > 0,
        all(numeric_flags(c)),
        op == Op::Add || op == Op::Mul,
    ensures
        collapsed(op == Op::Add, reduced_each(c, scope.arith), scope.arith) == ExprV::Term(
            folded(op, reduced_each(c, scope.arith), scope.arith),
        ),
        total(op, values(c, scope, locals, depth), scope.arith) == Some(
            folded(op, reduced_each(c, scope.arith), scope.arith),
        ),
    decreases c,
{
    let r = reduced_each(c, scope.arith);
    let v = values(c, scope, locals, depth);
    assert forall|i: int| 0 <= i < c.len() implies (#[trigger] r[i]).constant() && v[i] == Some(
        r[i].leaf(),
    ) by {
        assert(numeric_flags(c)[i]);
        lemma_reduced_numeric(c[i], scope, locals, depth);
    }
    lemma_keep_constants(r);
    assert(sorted(Seq::<ExprV>::empty()) =~= Seq::<ExprV>::empty());
    assert(sorted(keep(r, 1)) + keep(r, 2) =~= Seq::<ExprV>::empty());
    assert forall|i: int| 0 <= i < v.len() implies (#[trigger] v[i]) is Some by {
        assert(r[i].constant());
    }
    assert(leaves(v) =~= r);
}

/// The pipeline brings a flat numeric expression down to one number, and
/// that number is what evaluating the expression gives.
pub proof fn lemma_constant_folding(
    e: ExprV,
    c: ContextV,
    arith: Arith,
    locals: Seq<Binding>,
    depth: nat,
)
    requires
        numeric(e),
        is_flat(e),
    ensures
        simplified(e, c, arith) matches Some(ExprV::Term(t)) && t.constant() && value(
            e,
            Scope { vars: c.vars, fns: c.fns, arith },
            locals,
            depth,
        ) == Some(t),
{
    let scope = Scope { vars: c.vars, fns: c.fns, arith };
    lemma_numeric_closed(e, c.vars, c.fns);
    lemma_expanded_fixed(e, c.vars, c.vars.len());
    lemma_inlined_fixed(e, c.vars, c.fns, c.fns.len());
    lemma_flat_fixed(e);
    lemma_reduced_numeric(e, scope, locals, depth);
}

/// A run over a stretch of points is the run over its first part followed by
/// the run over the rest.
pub proof fn lemma_samples_split(
    c: ContextV,
    target: Seq<char>,
    sweep: Seq<char>,
    range: Sweep,
    first: nat,
    a: nat,
    b: nat,
    arith: Arith,
    depth: nat,
)
    ensures
        samples(c, target, sweep, range, first, a + b, arith, depth) == samples(
            c,
            target,
            sweep,
            range,
            first,
            a,
            arith,
            depth,
        ) + samples(c, target, sweep, range, first + a, b, arith, depth),
{
    assert(samples(c, target, sweep, range, first, a + b, arith, depth) =~= samples(
        c,
        target,
        sweep,
        range,
        first,
        a,
        arith,
        depth,
    ) + samples(c, target, sweep, range, first + a, b, arith, depth));
}

/// The runs over the stretches of a list, one after the other.
pub open spec fn joined(
    c: ContextV,
    target: Seq<char>,
    sweep: Seq<char>,
    range: Sweep,
    parts: Seq<(u64, u64)>,
    arith: Arith,
    depth: nat,
) -> Seq<(u64, Option<TermV>)>
    decreases parts.len(),
{
    if parts.len() == 0 {
        Seq::empty()
    } else {
        joined(c, target, sweep, range, parts.drop_last(), arith, depth) + samples(
            c,
            target,
            sweep,
            range,
            parts.last().0 as nat,
            parts.last().1 as nat,
            arith,
            depth,
        )
    }
}

/// The runs over stretches that follow one another without a gap, put
/// together in order, are the one run over all their points: it makes no
/// difference to the samples how a range is shared out.
pub proof fn lemma_samples_joined(
    c: ContextV,
    target: Seq<char>,
    sweep: Seq<char>,
    range: Sweep,
    parts: Seq<(u64, u64)>,
    from: nat,
    to: nat,
    arith: Arith,
    depth: nat,
)
    requires
        contiguous(parts, from, to),
    ensures
        from <= to,
        joined(c, target, sweep, range, parts, arith, depth) == samples(
            c,
            target,
            sweep,
            range,
            from,
            (to - from) as nat,
            arith,
            depth,
        ),
    decreases parts.len(),
{
    if parts.len() == 0 {
        assert(samples(c, target, sweep, range, from, 0, arith, depth) =~= Seq::empty());
    } else {
        let last = parts.last();
        lemma_samples_joined(
            c,
            target,
            sweep,
            range,
            parts.drop_last(),
            from,
            last.0 as nat,
            arith,
            depth,
        );
        lemma_samples_split(
            c,
            target,
            sweep,
            range,
            from,
            (last.0 - from) as nat,
            last.1 as nat,
            arith,
            depth,
        );
    }
}

/// The chunks of a run reach its end: `parts` chunks hold at least `total`
/// points.
pub proof fn lemma_chunks_reach(total: nat, parts: nat)
    requires
        parts > 0,
    ensures
        parts * chunk(total, parts) >= total,
        stretch_first(total, parts, parts) == total,
        stretch_first(total, parts, 0) == 0,
{
    vstd::arithmetic::div_mod::lemma_fundamental_div_mod(total as int, parts as int);
    let q = total / parts;
    let r = total % parts;
    assert(parts * (q + 1) == parts * q + parts) by (nonlinear_arith);
    assert(0 * chunk(total, parts) == 0);
}

/// The starts of the stretches never go back.
pub proof fn lemma_stretch_first_grows(total: nat, parts: nat, k: nat)
    ensures
        stretch_first(total, parts, k) <= stretch_first(total, parts, k + 1) <= total,
{
    let each = chunk(total, parts);
    assert((k + 1) * each == k * each + each) by (nonlinear_arith);
}

/// The first `n` of the stretches that a run is cut into follow one another
/// without a gap, from the first point up to the start of the next stretch.
pub proof fn lemma_stretches_contiguous(s: Seq<(u64, u64)>, total: nat, parts: nat, n: nat)
    requires
        total <= u64::MAX,
        n <= s.len(),
        forall|k: int| 0 <= k < n ==> s[k] == stretch(total, parts, k as nat),
    ensures
        contiguous(s.take(n as int), 0, stretch_first(total, parts, n)),
    decreases n,
{
    if n == 0 {
        assert(0 * chunk(total, parts) == 0);
    } else {
        let t = s.take(n as int);
        assert(t.drop_last() =~= s.take(n - 1));
        assert(t.last() == stretch(total, parts, (n - 1) as nat));
        lemma_stretch_first_grows(total, parts, (n - 1) as nat);
        lemma_stretches_contiguous(s, total, parts, (n - 1) as nat);
    }
}

/// The stretches that a run is cut into follow one another without a gap
/// and hold all of its points, so the runs over them, put together in order,
/// are the run over the whole range.
pub proof fn lemma_stretches_cover(
    c: ContextV,
    target: Seq<char>,
    sweep: Seq<char>,
    range: Sweep,
    s: Seq<(u64, u64)>,
    total: nat,
    arith: Arith,
    depth: nat,
)
    requires
        total <= u64::MAX,
        s.len() > 0,
        forall|k: int| 0 <= k < s.len() ==> s[k] == stretch(total, s.len(), k as nat),
    ensures
        contiguous(s, 0, total),
        joined(c, target, sweep, range, s, arith, depth) == samples(
            c,
            target,
            sweep,
            range,
            0,
            total,
            arith,
            depth,
        ),
{
    lemma_stretches_contiguous(s, total, s.len(), s.len());
    lemma_chunks_reach(total, s.len());
    assert(s.take(s.len() as int) =~= s);
    lemma_samples_joined(c, target, sweep, range, s, 0, total, arith, depth);
}

/// A variable that nothing binds has no value, and neither has a variable
/// bound to it.
pub proof fn lemma_unresolved_has_no_value(
    out: Seq<char>,
    y: Seq<char>,
    scope: Scope,
    locals: Seq<Binding>,
    depth: nat,
)
    requires
        find(scope.vars, y) is None,
        find(locals, y) is None,
        find(scope.vars, out) == Some(ExprV::Term(TermV::Var(y))),
    ensures
        value(ExprV::Term(TermV::Var(y)), scope, locals, depth) is None,
        value(ExprV::Term(TermV::Var(out)), scope, locals, depth) is None,
{
    if depth > 0 {
        assert(value(ExprV::Term(TermV::Var(y)), scope, locals, (depth - 1) as nat) is None);
    }
}

/// A sum or product has no value where one of its operands has none.
pub proof fn lemma_no_value_spreads(
    c: Seq<ExprV>,
    i: int,
    scope: Scope,
    locals: Seq<Binding>,
    depth: nat,
)
    requires
        0 <= i < c.len(),
        value(c[i], scope, locals, depth) is None,
    ensures
        value(ExprV::Add(c), scope, locals, depth) is None,
        value(ExprV::Mul(c), scope, locals, depth) is None,
{
    let v = values(c, scope, locals, depth);
    assert(v[i] is None);
}

/// The reports on the variables hold a report on each variable at fault
/// among the first `n`, and nothing else.
pub proof fn lemma_var_faults(vars: Seq<Binding>, n: nat)
    requires
        n <= vars.len(),
    ensures
        forall|i: int|
            0 <= i < n && var_fault(vars, i) ==> var_faults(vars, n).contains(
                var_message(#[trigger] vars[i].name),
            ),
        var_faults(vars, n).len() == 0 <==> forall|i: int| 0 <= i < n ==> !#[trigger] var_fault(vars, i),
    decreases n,
{
    if n > 0 {
        let before = var_faults(vars, (n - 1) as nat);
        lemma_var_faults(vars, (n - 1) as nat);
        assert forall|i: int| 0 <= i < n && var_fault(vars, i) implies var_faults(
            vars,
            n,
        ).contains(var_message(#[trigger] vars[i].name)) by {
            let after = var_faults(vars, n);
            if i < n - 1 {
                let k = choose|k: int|
                    0 <= k < before.len() && before[k] == var_message(vars[i].name);
                assert(after[k] == var_message(vars[i].name));
            } else {
                assert(after[after.len() - 1] == var_message(vars[i].name));
            }
        }
    }
}

/// The reports on the functions hold a report on each function at fault
/// among the first `n`, and nothing else.
pub proof fn lemma_fn_faults(fns: Seq<FuncV>, n: nat)
    requires
        n <= fns.len(),
    ensures
        forall|i: int|
            0 <= i < n && fn_fault(fns, i) ==> fn_faults(fns, n).contains(
                fn_message(#[trigger] fns[i].name),
            ),
        fn_faults(fns, n).len() == 0 <==> forall|i: int| 0 <= i < n ==> !#[trigger] fn_fault(fns, i),
    decreases n,
{
    if n > 0 {
        let before = fn_faults(fns, (n - 1) as nat);
        lemma_fn_faults(fns, (n - 1) as nat);
        assert forall|i: int| 0 <= i < n && fn_fault(fns, i) implies fn_faults(fns, n).contains(
            fn_message(#[trigger] fns[i].name),
        ) by {
            let after = fn_faults(fns, n);
            if i < n - 1 {
                let k = choose|k: int|
                    0 <= k < before.len() && before[k] == fn_message(fns[i].name);
                assert(after[k] == fn_message(fns[i].name));
            } else {
                assert(after[after.len() - 1] == fn_message(fns[i].name));
            }
        }
    }
}

/// A variable whose binding names the variable itself is at fault, and so is
/// a function that is not labeled recursive and whose body holds a call of
/// the function itself.
pub proof fn lemma_self_reference(c: ContextV, i: int, k: int)
    ensures
        0 <= i < c.vars.len() && crate::reach::mentions(c.vars[i].value, c.vars[i].name)
            ==> var_fault(c.vars, i),
        0 <= k < c.fns.len() && !c.fns[k].recursive && crate::reach::holds_call(
            c.fns[k].body,
            c.fns[k].name,
        ) ==> fn_fault(c.fns, k),
{
    if 0 <= i < c.vars.len() && crate::reach::mentions(c.vars[i].value, c.vars[i].name) {
        let p = seq![c.vars[i].name];
        assert(p.len() >= 1 && crate::reach::mentions(c.vars[i].value, p[0]) && crate::reach::chain(
            crate::reach::var_link(c.vars),
            p,
        ) && p.last() == c.vars[i].name);
    }
    if 0 <= k < c.fns.len() && !c.fns[k].recursive && crate::reach::holds_call(
        c.fns[k].body,
        c.fns[k].name,
    ) {
        let p = seq![c.fns[k].name];
        assert(p.len() >= 1 && crate::reach::holds_call(c.fns[k].body, p[0])
            && crate::reach::chain(crate::reach::fn_link(c.fns), p) && p.last() == c.fns[k].name);
    }
}

/// A context passes the recursion check exactly where no variable is
/// defined through itself and no function that is not labeled recursive
/// comes to call itself; each one that does is reported by its name. A
/// function labeled recursive is never at fault.
pub proof fn lemma_check(c: ContextV)
    ensures
        faults(c).len() == 0 <==> (forall|i: int|
            0 <= i < c.vars.len() ==> !#[trigger] var_fault(c.vars, i)) && (forall|i: int|
            0 <= i < c.fns.len() ==> !#[trigger] fn_fault(c.fns, i)),
        forall|i: int|
            0 <= i < c.vars.len() && var_fault(c.vars, i) ==> faults(c).contains(
                var_message(#[trigger] c.vars[i].name),
            ),
        forall|i: int|
            0 <= i < c.fns.len() && fn_fault(c.fns, i) ==> faults(c).contains(
                fn_message(#[trigger] c.fns[i].name),
            ),
        forall|i: int| 0 <= i < c.fns.len() && c.fns[i].recursive ==> !#[trigger] fn_fault(c.fns, i),
{
    lemma_var_faults(c.vars, c.vars.len());
    lemma_fn_faults(c.fns, c.fns.len());
    let a = var_faults(c.vars, c.vars.len());
    let b = fn_faults(c.fns, c.fns.len());
    assert forall|i: int| 0 <= i < c.vars.len() && var_fault(c.vars, i) implies faults(
        c,
    ).contains(var_message(#[trigger] c.vars[i].name)) by {
        let k = choose|k: int| 0 <= k < a.len() && a[k] == var_message(c.vars[i].name);
        assert((a + b)[k] == var_message(c.vars[i].name));
    }
    assert forall|i: int| 0 <= i < c.fns.len() && fn_fault(c.fns, i) implies faults(c).contains(
        fn_message(#[trigger] c.fns[i].name),
    ) by {
        let k = choose|k: int| 0 <= k < b.len() && b[k] == fn_message(c.fns[i].name);
        assert((a + b)[a.len() + k] == fn_message(c.fns[i].name));
    }
}

} // verus!

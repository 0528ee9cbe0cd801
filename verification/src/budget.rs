//! The depth to which definitions are followed decides whether there is a
//! result, never which: what is found within one depth is found, unchanged,
//! within every greater one.

use vstd::prelude::*;
use crate::check::{any, calls_fn, fn_hits, uses_var, var_hits};
use crate::eval::{all_valued, extended, reach, terms, value, values, Scope};
use crate::expand::{expanded, expansions, gathered, inlined, inlinings, substituted};
use crate::expr::ExprV;
use crate::scope::{find, find_fn, zipped, Binding, FuncV};
use crate::term::TermV;

verus! {

/// What expansion yields within one depth it yields within every greater
/// one.
pub proof fn lemma_expanded_monotone(e: ExprV, vars: Seq<Binding>, depth: nat, more: nat)
    requires
        depth <= more,
        expanded(e, vars, depth) is Some,
    ensures
        expanded(e, vars, more) == expanded(e, vars, depth),
    decreases depth, e,
{
    match e {
        ExprV::Term(TermV::Var(n)) => {
            match find(vars, n) {
                Some(b) => {
                    lemma_expanded_monotone(b, vars, (depth - 1) as nat, (more - 1) as nat);
                },
                None => {},
            }
        },
        ExprV::Term(_) => {},
        ExprV::Add(c) => {
            lemma_expansions_monotone(c, vars, depth, more);
        },
        ExprV::Mul(c) => {
            lemma_expansions_monotone(c, vars, depth, more);
        },
        ExprV::Pow(a, b) => {
            lemma_expanded_monotone(*a, vars, depth, more);
            lemma_expanded_monotone(*b, vars, depth, more);
        },
        ExprV::Unary(_, a) => {
            lemma_expanded_monotone(*a, vars, depth, more);
        },
        ExprV::Fn(_, args) => {
            lemma_expansions_monotone(args, vars, depth, more);
        },
    }
}

/// What the expansion of each expression of a list yields within one depth
/// it yields within every greater one.
pub proof fn lemma_expansions_monotone(c: Seq<ExprV>, vars: Seq<Binding>, depth: nat, more: nat)
    requires
        depth <= more,
        gathered(expansions(c, vars, depth)) is Some,
    ensures
        expansions(c, vars, more) == expansions(c, vars, depth),
    decreases depth, c,
{
    let s = expansions(c, vars, depth);
    let t = expansions(c, vars, more);
    assert forall|i: int| 0 <= i < c.len() implies t[i] == s[i] by {
        assert(s[i] is Some);
        lemma_expanded_monotone(c[i], vars, depth, more);
    }
    assert(t =~= s);
}

/// What inlining yields within one depth it yields within every greater one.
pub proof fn lemma_inlined_monotone(
    e: ExprV,
    vars: Seq<Binding>,
    fns: Seq<FuncV>,
    depth: nat,
    more: nat,
)
    requires
        depth <= more,
        inlined(e, vars, fns, depth) is Some,
    ensures
        inlined(e, vars, fns, more) == inlined(e, vars, fns, depth),
    decreases depth, e,
{
    match e {
        ExprV::Term(_) => {},
        ExprV::Add(c) => {
            lemma_inlinings_monotone(c, vars, fns, depth, more);
        },
        ExprV::Mul(c) => {
            lemma_inlinings_monotone(c, vars, fns, depth, more);
        },
        ExprV::Pow(a, b) => {
            lemma_inlined_monotone(*a, vars, fns, depth, more);
            lemma_inlined_monotone(*b, vars, fns, depth, more);
        },
        ExprV::Unary(_, a) => {
            lemma_inlined_monotone(*a, vars, fns, depth, more);
        },
        ExprV::Fn(name, args) => {
            let f = find_fn(fns, name).unwrap();
            lemma_inlinings_monotone(args, vars, fns, depth, more);
            if !f.recursive {
                let given = gathered(inlinings(args, vars, fns, depth)).unwrap();
                let body = expanded(substituted(f.body, zipped(f.args, given)), vars, vars.len());
                lemma_inlined_monotone(
                    body.unwrap(),
                    vars,
                    fns,
                    (depth - 1) as nat,
                    (more - 1) as nat,
                );
            }
        },
    }
}

/// What the inlining of each expression of a list yields within one depth it
/// yields within every greater one.
pub proof fn lemma_inlinings_monotone(
    c: Seq<ExprV>,
    vars: Seq<Binding>,
    fns: Seq<FuncV>,
    depth: nat,
    more: nat,
)
    requires
        depth <= more,
        gathered(inlinings(c, vars, fns, depth)) is Some,
    ensures
        inlinings(c, vars, fns, more) == inlinings(c, vars, fns, depth),
    decreases depth, c,
{
    let s = inlinings(c, vars, fns, depth);
    let t = inlinings(c, vars, fns, more);
    assert forall|i: int| 0 <= i < c.len() implies t[i] == s[i] by {
        assert(s[i] is Some);
        lemma_inlined_monotone(c[i], vars, fns, depth, more);
    }
    assert(t =~= s);
}

/// The value that an expression has within one depth it has within every
/// greater one.
pub proof fn lemma_value_monotone(
    e: ExprV,
    scope: Scope,
    locals: Seq<Binding>,
    depth: nat,
    more: nat,
)
    requires
        depth <= more,
        value(e, scope, locals, depth) is Some,
    ensures
        value(e, scope, locals, more) == value(e, scope, locals, depth),
    decreases depth, e,
{
    match e {
        ExprV::Term(TermV::Var(n)) => {
            match find(scope.vars, n) {
                Some(b) => {
                    lemma_value_monotone(b, scope, locals, (depth - 1) as nat, (more - 1) as nat);
                },
                None => {},
            }
        },
        ExprV::Term(_) => {},
        ExprV::Add(c) => {
            lemma_values_monotone(c, scope, locals, depth, more);
        },
        ExprV::Mul(c) => {
            lemma_values_monotone(c, scope, locals, depth, more);
        },
        ExprV::Pow(a, b) => {
            lemma_value_monotone(*a, scope, locals, depth, more);
            lemma_value_monotone(*b, scope, locals, depth, more);
        },
        ExprV::Unary(_, a) => {
            lemma_value_monotone(*a, scope, locals, depth, more);
        },
        ExprV::Fn(name, args) => {
            let f = find_fn(scope.fns, name).unwrap();
            lemma_values_monotone(args, scope, locals, depth, more);
            let given = values(args, scope, locals, depth);
            let inner = extended(
                scope.vars,
                locals,
                f.args,
                terms(given),
                reach(f.args, terms(given)),
            );
            lemma_value_monotone(f.body, scope, inner, (depth - 1) as nat, (more - 1) as nat);
        },
    }
}

/// The values that the expressions of a list have within one depth they have
/// within every greater one.
pub proof fn lemma_values_monotone(
    c: Seq<ExprV>,
    scope: Scope,
    locals: Seq<Binding>,
    depth: nat,
    more: nat,
)
    requires
        depth <= more,
        all_valued(values(c, scope, locals, depth)),
    ensures
        values(c, scope, locals, more) == values(c, scope, locals, depth),
    decreases depth, c,
{
    let s = values(c, scope, locals, depth);
    let t = values(c, scope, locals, more);
    assert forall|i: int| 0 <= i < c.len() implies t[i] == s[i] by {
        assert(s[i] is Some);
        lemma_value_monotone(c[i], scope, locals, depth, more);
    }
    assert(t =~= s);
}

/// A variable that is found through a chain of bindings is found through it
/// at every greater depth.
pub proof fn lemma_uses_var_monotone(
    e: ExprV,
    name: Seq<char>,
    vars: Seq<Binding>,
    depth: nat,
    more: nat,
)
    requires
        depth <= more,
        uses_var(e, name, vars, depth),
    ensures
        uses_var(e, name, vars, more),
    decreases depth, e,
{
    match e {
        ExprV::Term(TermV::Var(v)) => {
            if v != name {
                lemma_uses_var_monotone(
                    find(vars, v).unwrap(),
                    name,
                    vars,
                    (depth - 1) as nat,
                    (more - 1) as nat,
                );
            }
        },
        ExprV::Term(_) => {},
        ExprV::Add(c) => {
            lemma_var_hits_monotone(c, name, vars, depth, more);
        },
        ExprV::Mul(c) => {
            lemma_var_hits_monotone(c, name, vars, depth, more);
        },
        ExprV::Pow(a, b) => {
            if uses_var(*a, name, vars, depth) {
                lemma_uses_var_monotone(*a, name, vars, depth, more);
            } else {
                lemma_uses_var_monotone(*b, name, vars, depth, more);
            }
        },
        ExprV::Unary(_, a) => {
            lemma_uses_var_monotone(*a, name, vars, depth, more);
        },
        ExprV::Fn(_, args) => {
            lemma_var_hits_monotone(args, name, vars, depth, more);
        },
    }
}

/// A variable that one expression of a list is found to use is found at
/// every greater depth.
pub proof fn lemma_var_hits_monotone(
    c: Seq<ExprV>,
    name: Seq<char>,
    vars: Seq<Binding>,
    depth: nat,
    more: nat,
)
    requires
        depth <= more,
        any(var_hits(c, name, vars, depth)),
    ensures
        any(var_hits(c, name, vars, more)),
    decreases depth, c,
{
    let s = var_hits(c, name, vars, depth);
    let i = choose|i: int| 0 <= i < s.len() && s[i];
    lemma_uses_var_monotone(c[i], name, vars, depth, more);
    assert(var_hits(c, name, vars, more)[i]);
}

/// A call that is found through a chain of bodies is found through it at
/// every greater depth.
pub proof fn lemma_calls_fn_monotone(
    e: ExprV,
    name: Seq<char>,
    fns: Seq<FuncV>,
    depth: nat,
    more: nat,
)
    requires
        depth <= more,
        calls_fn(e, name, fns, depth),
    ensures
        calls_fn(e, name, fns, more),
    decreases depth, e,
{
    match e {
        ExprV::Term(_) => {},
        ExprV::Add(c) => {
            lemma_fn_hits_monotone(c, name, fns, depth, more);
        },
        ExprV::Mul(c) => {
            lemma_fn_hits_monotone(c, name, fns, depth, more);
        },
        ExprV::Pow(a, b) => {
            if calls_fn(*a, name, fns, depth) {
                lemma_calls_fn_monotone(*a, name, fns, depth, more);
            } else {
                lemma_calls_fn_monotone(*b, name, fns, depth, more);
            }
        },
        ExprV::Unary(_, a) => {
            lemma_calls_fn_monotone(*a, name, fns, depth, more);
        },
        ExprV::Fn(n, args) => {
            if n == name {
            } else if any(fn_hits(args, name, fns, depth)) {
                lemma_fn_hits_monotone(args, name, fns, depth, more);
            } else {
                lemma_calls_fn_monotone(
                    find_fn(fns, n).unwrap().body,
                    name,
                    fns,
                    (depth - 1) as nat,
                    (more - 1) as nat,
                );
            }
        },
    }
}

/// A call that one expression of a list is found to hold is found at every
/// greater depth.
pub proof fn lemma_fn_hits_monotone(
    c: Seq<ExprV>,
    name: Seq<char>,
    fns: Seq<FuncV>,
    depth: nat,
    more: nat,
)
    requires
        depth <= more,
        any(fn_hits(c, name, fns, depth)),
    ensures
        any(fn_hits(c, name, fns, more)),
    decreases depth, c,
{
    let s = fn_hits(c, name, fns, depth);
    let i = choose|i: int| 0 <= i < s.len() && s[i];
    lemma_calls_fn_monotone(c[i], name, fns, depth, more);
    assert(fn_hits(c, name, fns, more)[i]);
}

} // verus!

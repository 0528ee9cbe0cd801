//! When simplification succeeds.
//!
//! Expansion and inlining yield nothing where a definition leads back into
//! itself, or a call names no declared function. Where neither is the case,
//! they yield a result: the depth of the number of declarations is never
//! exhausted.

use vstd::prelude::*;
use crate::check::any;
use crate::context::{simplified, var_fault, ContextV};
use crate::expand::{
    expanded, expansions, gathered, inlined, inlinings, substituted, substituted_each,
};
use crate::expr::ExprV;
use crate::laws::{lemma_expanded_free, lemma_inlinings_calls};
use crate::normal::{all, call_flags, calls_recursive_only, free_flags, free_of, is_recursive};
use crate::number::Arith;
use crate::reach::{
    call_mention_flags, chain, fn_at, holds_call, lemma_expansion_succeeds, lemma_two_alike,
    mention_flags, mentions, var_link, Link,
};
use crate::resolved::{
    anything, clean, clean_flags, lemma_calls_clean, recursive_in,
    NameTest,
};
use crate::scope::{
    find, find_fn, fn_place, lemma_fn_place, lemma_place, place, zipped, Binding, FuncV,
};
use crate::term::TermV;

verus! {

/// The test that the names of the declared functions pass.
pub open spec fn declared_in(fns: Seq<FuncV>) -> NameTest {
    |n: Seq<char>| find_fn(fns, n) is Some
}

/// Every call in the expression names a declared function.
pub open spec fn declared(e: ExprV, fns: Seq<FuncV>) -> bool {
    clean(e, anything(), declared_in(fns))
}

/// Every call in the binding of a variable and in the body of a function
/// names a declared function.
pub open spec fn closed(c: ContextV) -> bool {
    &&& forall|k: int| 0 <= k < c.vars.len() ==> declared((#[trigger] c.vars[k]).value, c.fns)
    &&& forall|k: int| 0 <= k < c.fns.len() ==> declared((#[trigger] c.fns[k]).body, c.fns)
}

/// The variable is bound, and its binding holds a call of the function.
pub open spec fn binding_calls(vars: Seq<Binding>, w: Seq<char>, g: Seq<char>) -> bool {
    match find(vars, w) {
        Some(b) => holds_call(b, g),
        None => false,
    }
}

/// The variable leads to a call of the function: its binding holds one, or
/// that of a variable which a chain of bindings leads to.
pub open spec fn var_calls(vars: Seq<Binding>, v: Seq<char>, g: Seq<char>) -> bool {
    exists|q: Seq<Seq<char>>|
        q.len() >= 1 && q[0] == v && #[trigger] chain(var_link(vars), q) && binding_calls(
            vars,
            q.last(),
            g,
        )
}

/// The expression names a variable that leads to a call of the function.
pub open spec fn var_source(x: ExprV, vars: Seq<Binding>, g: Seq<char>) -> bool {
    exists|v: Seq<char>| mentions(x, v) && #[trigger] var_calls(vars, v, g)
}

/// Unfolding the first function brings up a call of the second: the body of
/// the first holds one, or names a variable that leads to one.
pub open spec fn unfolds(c: ContextV) -> Link {
    |f: Seq<char>, g: Seq<char>|
        match find_fn(c.fns, f) {
            Some(ff) => holds_call(ff.body, g) || var_source(ff.body, c.vars, g),
            None => false,
        }
}

/// Every name of the list is that of a declared function that is not
/// recursive.
pub open spec fn plain(fns: Seq<FuncV>, p: Seq<Seq<char>>) -> bool {
    forall|i: int|
        0 <= i < p.len() ==> find_fn(fns, #[trigger] p[i]) is Some && !is_recursive(fns, p[i])
}

/// No function that is not recursive comes back to itself by unfolding
/// functions that are not recursive.
pub open spec fn unfolding_ends(c: ContextV) -> bool {
    forall|p: Seq<Seq<char>>|
        p.len() >= 2 && #[trigger] chain(unfolds(c), p) && plain(c.fns, p) ==> p[0] != p.last()
}

/// What passes stricter tests passes weaker ones.
pub proof fn lemma_clean_weaken(
    e: ExprV,
    var_ok: NameTest,
    fn_ok: NameTest,
    var_too: NameTest,
    fn_too: NameTest,
)
    requires
        clean(e, var_ok, fn_ok),
        forall|n: Seq<char>| #[trigger] var_ok(n) ==> var_too(n),
        forall|n: Seq<char>| #[trigger] fn_ok(n) ==> fn_too(n),
    ensures
        clean(e, var_too, fn_too),
    decreases e,
{
    match e {
        ExprV::Term(_) => {},
        ExprV::Add(c) => {
            lemma_clean_weaken_each(c, var_ok, fn_ok, var_too, fn_too);
        },
        ExprV::Mul(c) => {
            lemma_clean_weaken_each(c, var_ok, fn_ok, var_too, fn_too);
        },
        ExprV::Pow(a, b) => {
            lemma_clean_weaken(*a, var_ok, fn_ok, var_too, fn_too);
            lemma_clean_weaken(*b, var_ok, fn_ok, var_too, fn_too);
        },
        ExprV::Unary(_, a) => {
            lemma_clean_weaken(*a, var_ok, fn_ok, var_too, fn_too);
        },
        ExprV::Fn(_, args) => {
            lemma_clean_weaken_each(args, var_ok, fn_ok, var_too, fn_too);
        },
    }
}

/// What passes stricter tests passes weaker ones, member by member.
pub proof fn lemma_clean_weaken_each(
    c: Seq<ExprV>,
    var_ok: NameTest,
    fn_ok: NameTest,
    var_too: NameTest,
    fn_too: NameTest,
)
    requires
        all(clean_flags(c, var_ok, fn_ok)),
        forall|n: Seq<char>| #[trigger] var_ok(n) ==> var_too(n),
        forall|n: Seq<char>| #[trigger] fn_ok(n) ==> fn_too(n),
    ensures
        all(clean_flags(c, var_too, fn_too)),
    decreases c,
{
    assert forall|i: int| 0 <= i < c.len() implies #[trigger] clean_flags(c, var_too, fn_too)[i] by {
        assert(clean_flags(c, var_ok, fn_ok)[i]);
        lemma_clean_weaken(c[i], var_ok, fn_ok, var_too, fn_too);
    }
}

/// An expression that calls recursive functions only calls declared
/// functions only.
pub proof fn lemma_recursive_declared(e: ExprV, fns: Seq<FuncV>)
    requires
        calls_recursive_only(e, fns),
    ensures
        declared(e, fns),
{
    lemma_calls_clean(e, fns);
    lemma_clean_weaken(e, anything(), recursive_in(fns), anything(), declared_in(fns));
}

/// Substitution puts in no call that neither the expression nor what is put
/// in held.
pub proof fn lemma_substituted_declared(e: ExprV, pairs: Seq<Binding>, fn_ok: NameTest)
    requires
        clean(e, anything(), fn_ok),
        forall|k: int| 0 <= k < pairs.len() ==> clean((#[trigger] pairs[k]).value, anything(), fn_ok),
    ensures
        clean(substituted(e, pairs), anything(), fn_ok),
    decreases e,
{
    match e {
        ExprV::Term(TermV::Var(n)) => {
            lemma_place(pairs, n);
            match place(pairs, n) {
                Some(k) => {
                    assert(clean(pairs[k].value, anything(), fn_ok));
                },
                None => {},
            }
        },
        ExprV::Term(_) => {},
        ExprV::Add(c) => {
            lemma_substituted_declared_each(c, pairs, fn_ok);
        },
        ExprV::Mul(c) => {
            lemma_substituted_declared_each(c, pairs, fn_ok);
        },
        ExprV::Pow(a, b) => {
            lemma_substituted_declared(*a, pairs, fn_ok);
            lemma_substituted_declared(*b, pairs, fn_ok);
        },
        ExprV::Unary(_, a) => {
            lemma_substituted_declared(*a, pairs, fn_ok);
        },
        ExprV::Fn(_, args) => {
            lemma_substituted_declared_each(args, pairs, fn_ok);
        },
    }
}

/// Substitution puts no call into the expressions of a list that neither
/// they nor what is put in held.
pub proof fn lemma_substituted_declared_each(c: Seq<ExprV>, pairs: Seq<Binding>, fn_ok: NameTest)
    requires
        all(clean_flags(c, anything(), fn_ok)),
        forall|k: int| 0 <= k < pairs.len() ==> clean((#[trigger] pairs[k]).value, anything(), fn_ok),
    ensures
        all(clean_flags(substituted_each(c, pairs), anything(), fn_ok)),
    decreases c,
{
    let out = substituted_each(c, pairs);
    assert forall|i: int| 0 <= i < out.len() implies #[trigger] clean_flags(
        out,
        anything(),
        fn_ok,
    )[i] by {
        assert(clean_flags(c, anything(), fn_ok)[i]);
        lemma_substituted_declared(c[i], pairs, fn_ok);
    }
}

/// Expansion puts in no call that neither the expression nor the bindings
/// held.
pub proof fn lemma_expanded_declared(e: ExprV, vars: Seq<Binding>, depth: nat, fn_ok: NameTest)
    requires
        expanded(e, vars, depth) is Some,
        clean(e, anything(), fn_ok),
        forall|k: int| 0 <= k < vars.len() ==> clean((#[trigger] vars[k]).value, anything(), fn_ok),
    ensures
        clean(expanded(e, vars, depth).unwrap(), anything(), fn_ok),
    decreases depth, e,
{
    match e {
        ExprV::Term(TermV::Var(n)) => {
            lemma_place(vars, n);
            match place(vars, n) {
                Some(k) => {
                    assert(clean(vars[k].value, anything(), fn_ok));
                    lemma_expanded_declared(vars[k].value, vars, (depth - 1) as nat, fn_ok);
                },
                None => {},
            }
        },
        ExprV::Term(_) => {},
        ExprV::Add(c) => {
            lemma_expanded_declared_each(c, vars, depth, fn_ok);
        },
        ExprV::Mul(c) => {
            lemma_expanded_declared_each(c, vars, depth, fn_ok);
        },
        ExprV::Pow(a, b) => {
            lemma_expanded_declared(*a, vars, depth, fn_ok);
            lemma_expanded_declared(*b, vars, depth, fn_ok);
        },
        ExprV::Unary(_, a) => {
            lemma_expanded_declared(*a, vars, depth, fn_ok);
        },
        ExprV::Fn(_, args) => {
            lemma_expanded_declared_each(args, vars, depth, fn_ok);
        },
    }
}

/// Expansion puts no call into the expressions of a list that neither they
/// nor the bindings held.
pub proof fn lemma_expanded_declared_each(
    c: Seq<ExprV>,
    vars: Seq<Binding>,
    depth: nat,
    fn_ok: NameTest,
)
    requires
        gathered(expansions(c, vars, depth)) is Some,
        all(clean_flags(c, anything(), fn_ok)),
        forall|k: int| 0 <= k < vars.len() ==> clean((#[trigger] vars[k]).value, anything(), fn_ok),
    ensures
        all(clean_flags(gathered(expansions(c, vars, depth)).unwrap(), anything(), fn_ok)),
    decreases depth, c,
{
    let s = expansions(c, vars, depth);
    let out = gathered(s).unwrap();
    assert forall|i: int| 0 <= i < out.len() implies #[trigger] clean_flags(
        out,
        anything(),
        fn_ok,
    )[i] by {
        assert(s[i] is Some);
        assert(clean_flags(c, anything(), fn_ok)[i]);
        lemma_expanded_declared(c[i], vars, depth, fn_ok);
    }
}

/// An expression that calls recursive functions only holds no call of a
/// function that is not recursive.
pub proof fn lemma_recursive_only_no_call(e: ExprV, fns: Seq<FuncV>, g: Seq<char>)
    requires
        calls_recursive_only(e, fns),
        !is_recursive(fns, g),
    ensures
        !holds_call(e, g),
    decreases e,
{
    match e {
        ExprV::Term(_) => {},
        ExprV::Add(c) => {
            lemma_recursive_only_no_call_each(c, fns, g);
        },
        ExprV::Mul(c) => {
            lemma_recursive_only_no_call_each(c, fns, g);
        },
        ExprV::Pow(a, b) => {
            lemma_recursive_only_no_call(*a, fns, g);
            lemma_recursive_only_no_call(*b, fns, g);
        },
        ExprV::Unary(_, a) => {
            lemma_recursive_only_no_call(*a, fns, g);
        },
        ExprV::Fn(_, args) => {
            lemma_recursive_only_no_call_each(args, fns, g);
        },
    }
}

/// Expressions that call recursive functions only hold no call of a function
/// that is not recursive.
pub proof fn lemma_recursive_only_no_call_each(c: Seq<ExprV>, fns: Seq<FuncV>, g: Seq<char>)
    requires
        all(call_flags(c, fns)),
        !is_recursive(fns, g),
    ensures
        !any(call_mention_flags(c, g)),
    decreases c,
{
    assert forall|i: int| 0 <= i < c.len() implies !#[trigger] call_mention_flags(c, g)[i] by {
        assert(call_flags(c, fns)[i]);
        lemma_recursive_only_no_call(c[i], fns, g);
    }
}

/// An expression that names no bound variable does not name a bound one.
pub proof fn lemma_free_no_mention(e: ExprV, vars: Seq<Binding>, v: Seq<char>)
    requires
        free_of(e, vars),
        find(vars, v) is Some,
    ensures
        !mentions(e, v),
    decreases e,
{
    match e {
        ExprV::Term(_) => {},
        ExprV::Add(c) => {
            lemma_free_no_mention_each(c, vars, v);
        },
        ExprV::Mul(c) => {
            lemma_free_no_mention_each(c, vars, v);
        },
        ExprV::Pow(a, b) => {
            lemma_free_no_mention(*a, vars, v);
            lemma_free_no_mention(*b, vars, v);
        },
        ExprV::Unary(_, a) => {
            lemma_free_no_mention(*a, vars, v);
        },
        ExprV::Fn(_, args) => {
            lemma_free_no_mention_each(args, vars, v);
        },
    }
}

/// Expressions that name no bound variable do not name a bound one.
pub proof fn lemma_free_no_mention_each(c: Seq<ExprV>, vars: Seq<Binding>, v: Seq<char>)
    requires
        all(free_flags(c, vars)),
        find(vars, v) is Some,
    ensures
        !any(mention_flags(c, v)),
    decreases c,
{
    assert forall|i: int| 0 <= i < c.len() implies !#[trigger] mention_flags(c, v)[i] by {
        assert(free_flags(c, vars)[i]);
        lemma_free_no_mention(c[i], vars, v);
    }
}

/// A variable that leads to a call is bound.
pub proof fn lemma_var_calls_bound(vars: Seq<Binding>, v: Seq<char>, g: Seq<char>)
    requires
        var_calls(vars, v, g),
    ensures
        find(vars, v) is Some,
{
    let q = choose|q: Seq<Seq<char>>|
        q.len() >= 1 && q[0] == v && #[trigger] chain(var_link(vars), q) && binding_calls(
            vars,
            q.last(),
            g,
        );
    if q.len() > 1 {
        assert(var_link(vars)(q[0], q[1]));
    }
}

/// A variable whose binding names a variable that leads to a call leads to
/// that call.
pub proof fn lemma_var_calls_through(vars: Seq<Binding>, v: Seq<char>, w: Seq<char>, g: Seq<char>)
    requires
        var_link(vars)(v, w),
        var_calls(vars, w, g),
    ensures
        var_calls(vars, v, g),
{
    let q = choose|q: Seq<Seq<char>>|
        q.len() >= 1 && q[0] == w && #[trigger] chain(var_link(vars), q) && binding_calls(
            vars,
            q.last(),
            g,
        );
    let p = seq![v] + q;
    assert forall|i: int| 0 <= i < p.len() - 1 implies var_link(vars)(#[trigger] p[i], p[i + 1]) by {
        if i == 0 {
            assert(p[1] == q[0]);
        } else {
            assert(p[i] == q[i - 1]);
            assert(p[i + 1] == q[i]);
            assert(var_link(vars)(q[i - 1], q[i]));
        }
    }
    assert(p.last() == q.last());
    assert(p.len() >= 1 && p[0] == v && chain(var_link(vars), p) && binding_calls(
        vars,
        p.last(),
        g,
    ));
}

/// A variable whose binding holds a call leads to that call.
pub proof fn lemma_var_calls_direct(vars: Seq<Binding>, v: Seq<char>, g: Seq<char>)
    requires
        binding_calls(vars, v, g),
    ensures
        var_calls(vars, v, g),
{
    let p = seq![v];
    assert(p.len() >= 1 && p[0] == v && chain(var_link(vars), p) && binding_calls(
        vars,
        p.last(),
        g,
    ));
}

/// A call that expansion brings up was held by the expression, or a
/// variable that the expression names leads to it.
pub proof fn lemma_expanded_call_source(e: ExprV, vars: Seq<Binding>, depth: nat, g: Seq<char>)
    requires
        expanded(e, vars, depth) is Some,
        holds_call(expanded(e, vars, depth).unwrap(), g),
    ensures
        holds_call(e, g) || var_source(e, vars, g),
    decreases depth, e,
{
    match e {
        ExprV::Term(TermV::Var(v)) => {
            match find(vars, v) {
                Some(b) => {
                    lemma_expanded_call_source(b, vars, (depth - 1) as nat, g);
                    if holds_call(b, g) {
                        lemma_var_calls_direct(vars, v, g);
                    } else {
                        let w = choose|w: Seq<char>| mentions(b, w) && #[trigger] var_calls(vars, w, g);
                        lemma_var_calls_through(vars, v, w, g);
                    }
                    assert(mentions(e, v) && var_calls(vars, v, g));
                },
                None => {},
            }
        },
        ExprV::Term(_) => {},
        ExprV::Add(c) => {
            lemma_expanded_call_source_any(c, vars, depth, g);
        },
        ExprV::Mul(c) => {
            lemma_expanded_call_source_any(c, vars, depth, g);
        },
        ExprV::Pow(a, b) => {
            let x = expanded(*a, vars, depth).unwrap();
            if holds_call(x, g) {
                lemma_expanded_call_source(*a, vars, depth, g);
                if !holds_call(*a, g) {
                    let w = choose|w: Seq<char>| mentions(*a, w) && #[trigger] var_calls(vars, w, g);
                    assert(mentions(e, w) && var_calls(vars, w, g));
                }
            } else {
                lemma_expanded_call_source(*b, vars, depth, g);
                if !holds_call(*b, g) {
                    let w = choose|w: Seq<char>| mentions(*b, w) && #[trigger] var_calls(vars, w, g);
                    assert(mentions(e, w) && var_calls(vars, w, g));
                }
            }
        },
        ExprV::Unary(_, a) => {
            lemma_expanded_call_source(*a, vars, depth, g);
            if !holds_call(*a, g) {
                let w = choose|w: Seq<char>| mentions(*a, w) && #[trigger] var_calls(vars, w, g);
                assert(mentions(e, w) && var_calls(vars, w, g));
            }
        },
        ExprV::Fn(n, args) => {
            if n != g {
                lemma_expanded_call_source_any(args, vars, depth, g);
            }
        },
    }
}

/// A call that the expansion of a list brings up was held by one of its
/// expressions, or a variable that one of them names leads to it.
pub proof fn lemma_expanded_call_source_any(
    c: Seq<ExprV>,
    vars: Seq<Binding>,
    depth: nat,
    g: Seq<char>,
)
    requires
        gathered(expansions(c, vars, depth)) is Some,
        any(call_mention_flags(gathered(expansions(c, vars, depth)).unwrap(), g)),
    ensures
        any(call_mention_flags(c, g)) || exists|v: Seq<char>|
            any(mention_flags(c, v)) && #[trigger] var_calls(vars, v, g),
    decreases depth, c,
{
    let s = expansions(c, vars, depth);
    let out = gathered(s).unwrap();
    let flags = call_mention_flags(out, g);
    let i = choose|i: int| 0 <= i < flags.len() && flags[i];
    assert(s[i] is Some);
    lemma_expanded_call_source(c[i], vars, depth, g);
    if holds_call(c[i], g) {
        assert(call_mention_flags(c, g)[i]);
    } else {
        let w = choose|w: Seq<char>| mentions(c[i], w) && #[trigger] var_calls(vars, w, g);
        assert(mention_flags(c, w)[i]);
        assert(any(mention_flags(c, w)) && var_calls(vars, w, g));
    }
}

/// A call that substitution brings up was held by the expression or by what
/// was put in.
pub proof fn lemma_substituted_call_source(e: ExprV, pairs: Seq<Binding>, g: Seq<char>)
    requires
        holds_call(substituted(e, pairs), g),
    ensures
        holds_call(e, g) || exists|k: int|
            0 <= k < pairs.len() && holds_call((#[trigger] pairs[k]).value, g),
    decreases e,
{
    match e {
        ExprV::Term(TermV::Var(n)) => {
            lemma_place(pairs, n);
            match place(pairs, n) {
                Some(k) => {
                    assert(holds_call(pairs[k].value, g));
                },
                None => {},
            }
        },
        ExprV::Term(_) => {},
        ExprV::Add(c) => {
            lemma_substituted_call_source_any(c, pairs, g);
        },
        ExprV::Mul(c) => {
            lemma_substituted_call_source_any(c, pairs, g);
        },
        ExprV::Pow(a, b) => {
            if holds_call(substituted(*a, pairs), g) {
                lemma_substituted_call_source(*a, pairs, g);
            } else {
                lemma_substituted_call_source(*b, pairs, g);
            }
        },
        ExprV::Unary(_, a) => {
            lemma_substituted_call_source(*a, pairs, g);
        },
        ExprV::Fn(n, args) => {
            if n != g {
                lemma_substituted_call_source_any(args, pairs, g);
            }
        },
    }
}

/// A call that the substitution in a list brings up was held by one of its
/// expressions or by what was put in.
pub proof fn lemma_substituted_call_source_any(c: Seq<ExprV>, pairs: Seq<Binding>, g: Seq<char>)
    requires
        any(call_mention_flags(substituted_each(c, pairs), g)),
    ensures
        any(call_mention_flags(c, g)) || exists|k: int|
            0 <= k < pairs.len() && holds_call((#[trigger] pairs[k]).value, g),
    decreases c,
{
    let out = substituted_each(c, pairs);
    let flags = call_mention_flags(out, g);
    let i = choose|i: int| 0 <= i < flags.len() && flags[i];
    lemma_substituted_call_source(c[i], pairs, g);
    if holds_call(c[i], g) {
        assert(call_mention_flags(c, g)[i]);
    }
}

/// A variable that the result of substitution names was named by the
/// expression or by what was put in.
pub proof fn lemma_substituted_mention_source(e: ExprV, pairs: Seq<Binding>, v: Seq<char>)
    requires
        mentions(substituted(e, pairs), v),
    ensures
        mentions(e, v) || exists|k: int|
            0 <= k < pairs.len() && mentions((#[trigger] pairs[k]).value, v),
    decreases e,
{
    match e {
        ExprV::Term(TermV::Var(n)) => {
            lemma_place(pairs, n);
            match place(pairs, n) {
                Some(k) => {
                    assert(mentions(pairs[k].value, v));
                },
                None => {},
            }
        },
        ExprV::Term(_) => {},
        ExprV::Add(c) => {
            lemma_substituted_mention_source_any(c, pairs, v);
        },
        ExprV::Mul(c) => {
            lemma_substituted_mention_source_any(c, pairs, v);
        },
        ExprV::Pow(a, b) => {
            if mentions(substituted(*a, pairs), v) {
                lemma_substituted_mention_source(*a, pairs, v);
            } else {
                lemma_substituted_mention_source(*b, pairs, v);
            }
        },
        ExprV::Unary(_, a) => {
            lemma_substituted_mention_source(*a, pairs, v);
        },
        ExprV::Fn(_, args) => {
            lemma_substituted_mention_source_any(args, pairs, v);
        },
    }
}

/// A variable that the result of substitution in a list names was named by
/// one of its expressions or by what was put in.
pub proof fn lemma_substituted_mention_source_any(
    c: Seq<ExprV>,
    pairs: Seq<Binding>,
    v: Seq<char>,
)
    requires
        any(mention_flags(substituted_each(c, pairs), v)),
    ensures
        any(mention_flags(c, v)) || exists|k: int|
            0 <= k < pairs.len() && mentions((#[trigger] pairs[k]).value, v),
    decreases c,
{
    let out = substituted_each(c, pairs);
    let flags = mention_flags(out, v);
    let i = choose|i: int| 0 <= i < flags.len() && flags[i];
    lemma_substituted_mention_source(c[i], pairs, v);
    if mentions(c[i], v) {
        assert(mention_flags(c, v)[i]);
    }
}

/// In a closed context every call in the unfolded body of a function names a
/// declared function, where the arguments put in are those of a call that
/// have been inlined.
pub proof fn lemma_unfolded_declared(c: ContextV, at: int, args: Seq<ExprV>, depth: nat)
    requires
        closed(c),
        0 <= at < c.fns.len(),
        gathered(inlinings(args, c.vars, c.fns, depth)) is Some,
        expanded(
            substituted(
                c.fns[at].body,
                zipped(c.fns[at].args, gathered(inlinings(args, c.vars, c.fns, depth)).unwrap()),
            ),
            c.vars,
            c.vars.len(),
        ) is Some,
    ensures
        declared(
            expanded(
                substituted(
                    c.fns[at].body,
                    zipped(
                        c.fns[at].args,
                        gathered(inlinings(args, c.vars, c.fns, depth)).unwrap(),
                    ),
                ),
                c.vars,
                c.vars.len(),
            ).unwrap(),
            c.fns,
        ),
{
    let f = c.fns[at];
    let given = gathered(inlinings(args, c.vars, c.fns, depth)).unwrap();
    lemma_inlinings_calls(args, c.vars, c.fns, depth);
    let pairs = zipped(f.args, given);
    assert(declared(c.fns[at].body, c.fns));
    assert forall|k: int| 0 <= k < pairs.len() implies clean(
        (#[trigger] pairs[k]).value,
        anything(),
        declared_in(c.fns),
    ) by {
        assert(pairs[k].value == given[k]);
        assert(call_flags(given, c.fns)[k]);
        lemma_recursive_declared(given[k], c.fns);
    }
    lemma_substituted_declared(f.body, pairs, declared_in(c.fns));
    assert forall|k: int| 0 <= k < c.vars.len() implies clean(
        (#[trigger] c.vars[k]).value,
        anything(),
        declared_in(c.fns),
    ) by {
        assert(declared(c.vars[k].value, c.fns));
    }
    lemma_expanded_declared(
        substituted(f.body, pairs),
        c.vars,
        c.vars.len(),
        declared_in(c.fns),
    );
}

/// A call of a function that is not recursive, brought up by unfolding a
/// function with arguments that are inlined already, is one that unfolding
/// this function always brings up.
pub proof fn lemma_unfolded_call_source(c: ContextV, f: FuncV, given: Seq<ExprV>, g: Seq<char>)
    requires
        all(call_flags(given, c.fns)),
        all(free_flags(given, c.vars)),
        !is_recursive(c.fns, g),
        expanded(substituted(f.body, zipped(f.args, given)), c.vars, c.vars.len()) is Some,
        holds_call(
            expanded(substituted(f.body, zipped(f.args, given)), c.vars, c.vars.len()).unwrap(),
            g,
        ),
    ensures
        holds_call(f.body, g) || var_source(f.body, c.vars, g),
{
    let pairs = zipped(f.args, given);
    let x = substituted(f.body, pairs);
    lemma_expanded_call_source(x, c.vars, c.vars.len(), g);
    if holds_call(x, g) {
        lemma_substituted_call_source(f.body, pairs, g);
        if !holds_call(f.body, g) {
            let k = choose|k: int|
                0 <= k < pairs.len() && holds_call((#[trigger] pairs[k]).value, g);
            assert(pairs[k].value == given[k]);
            assert(call_flags(given, c.fns)[k]);
            lemma_recursive_only_no_call(given[k], c.fns, g);
        }
    } else {
        let v = choose|v: Seq<char>| mentions(x, v) && #[trigger] var_calls(c.vars, v, g);
        lemma_var_calls_bound(c.vars, v, g);
        lemma_substituted_mention_source(f.body, pairs, v);
        if !mentions(f.body, v) {
            let k = choose|k: int|
                0 <= k < pairs.len() && mentions((#[trigger] pairs[k]).value, v);
            assert(pairs[k].value == given[k]);
            assert(free_flags(given, c.vars)[k]);
            lemma_free_no_mention(given[k], c.vars, v);
        }
        assert(mentions(f.body, v) && var_calls(c.vars, v, g));
    }
}

/// Where inlining runs out of depth, unfolding leads on from a function that
/// the expression calls through as many functions as the depth allowed, none
/// of them recursive.
pub proof fn lemma_inlining_chain(e: ExprV, c: ContextV, depth: nat) -> (p: Seq<Seq<char>>)
    requires
        inlined(e, c.vars, c.fns, depth) is None,
        forall|k: int| 0 <= k < c.vars.len() ==> !#[trigger] var_fault(c.vars, k),
        closed(c),
        declared(e, c.fns),
        free_of(e, c.vars),
    ensures
        p.len() == depth + 1,
        holds_call(e, p[0]),
        chain(unfolds(c), p),
        plain(c.fns, p),
    decreases depth, e,
{
    match e {
        ExprV::Term(_) => Seq::empty(),
        ExprV::Add(s) => lemma_inlining_chain_any(s, c, depth),
        ExprV::Mul(s) => lemma_inlining_chain_any(s, c, depth),
        ExprV::Pow(a, b) => {
            if inlined(*a, c.vars, c.fns, depth) is None {
                lemma_inlining_chain(*a, c, depth)
            } else {
                lemma_inlining_chain(*b, c, depth)
            }
        },
        ExprV::Unary(_, a) => lemma_inlining_chain(*a, c, depth),
        ExprV::Fn(name, args) => {
            assert(declared_in(c.fns)(name));
            let f = find_fn(c.fns, name).unwrap();
            if gathered(inlinings(args, c.vars, c.fns, depth)) is None {
                lemma_inlining_chain_any(args, c, depth)
            } else {
                let given = gathered(inlinings(args, c.vars, c.fns, depth)).unwrap();
                assert(!f.recursive);
                if depth == 0 {
                    let p = seq![name];
                    assert(holds_call(e, name));
                    p
                } else {
                    lemma_inlinings_calls(args, c.vars, c.fns, depth);
                    let pairs = zipped(f.args, given);
                    let x = substituted(f.body, pairs);
                    lemma_expansion_succeeds(x, c.vars);
                    let body = expanded(x, c.vars, c.vars.len()).unwrap();
                    lemma_expanded_free(x, c.vars, c.vars.len());
                    lemma_fn_place(c.fns, name);
                    let at = fn_place(c.fns, name).unwrap();
                    assert(declared(c.fns[at].body, c.fns));
                    assert forall|k: int| 0 <= k < pairs.len() implies clean(
                        (#[trigger] pairs[k]).value,
                        anything(),
                        declared_in(c.fns),
                    ) by {
                        assert(pairs[k].value == given[k]);
                        assert(call_flags(given, c.fns)[k]);
                        lemma_recursive_declared(given[k], c.fns);
                    }
                    lemma_substituted_declared(f.body, pairs, declared_in(c.fns));
                    assert forall|k: int| 0 <= k < c.vars.len() implies clean(
                        (#[trigger] c.vars[k]).value,
                        anything(),
                        declared_in(c.fns),
                    ) by {
                        assert(declared(c.vars[k].value, c.fns));
                    }
                    lemma_expanded_declared(x, c.vars, c.vars.len(), declared_in(c.fns));
                    let q = lemma_inlining_chain(body, c, (depth - 1) as nat);
                    assert(find_fn(c.fns, q[0]) is Some && !is_recursive(c.fns, q[0]));
                    lemma_unfolded_call_source(c, f, given, q[0]);
                    assert(unfolds(c)(name, q[0]));
                    let p = seq![name] + q;
                    assert forall|i: int| 0 <= i < p.len() - 1 implies unfolds(c)(
                        #[trigger] p[i],
                        p[i + 1],
                    ) by {
                        if i == 0 {
                            assert(p[1] == q[0]);
                        } else {
                            assert(p[i] == q[i - 1]);
                            assert(p[i + 1] == q[i]);
                            assert(unfolds(c)(q[i - 1], q[i]));
                        }
                    }
                    assert forall|i: int| 0 <= i < p.len() implies find_fn(c.fns, #[trigger] p[i])
                        is Some && !is_recursive(c.fns, p[i]) by {
                        if i > 0 {
                            assert(p[i] == q[i - 1]);
                            assert(find_fn(c.fns, q[i - 1]) is Some && !is_recursive(
                                c.fns,
                                q[i - 1],
                            ));
                        }
                    }
                    assert(holds_call(e, name));
                    p
                }
            }
        },
    }
}

/// Where the inlining of one expression of a list runs out of depth,
/// unfolding leads on from a function that this expression calls.
pub proof fn lemma_inlining_chain_any(s: Seq<ExprV>, c: ContextV, depth: nat) -> (p: Seq<
    Seq<char>,
>)
    requires
        gathered(inlinings(s, c.vars, c.fns, depth)) is None,
        forall|k: int| 0 <= k < c.vars.len() ==> !#[trigger] var_fault(c.vars, k),
        closed(c),
        all(clean_flags(s, anything(), declared_in(c.fns))),
        all(free_flags(s, c.vars)),
    ensures
        p.len() == depth + 1,
        any(call_mention_flags(s, p[0])),
        chain(unfolds(c), p),
        plain(c.fns, p),
    decreases depth, s,
{
    let outcomes = inlinings(s, c.vars, c.fns, depth);
    let i = choose|i: int| 0 <= i < outcomes.len() && !((#[trigger] outcomes[i]) is Some);
    assert(clean_flags(s, anything(), declared_in(c.fns))[i]);
    assert(free_flags(s, c.vars)[i]);
    let p = lemma_inlining_chain(s[i], c, depth);
    assert(call_mention_flags(s, p[0])[i]);
    p
}

/// Where no variable is defined through itself, every call names a declared
/// function, and no function that is not recursive comes back to itself by
/// unfolding, inlining succeeds within the depth of the number of
/// declarations.
pub proof fn lemma_inlining_succeeds(e: ExprV, c: ContextV)
    requires
        forall|k: int| 0 <= k < c.vars.len() ==> !#[trigger] var_fault(c.vars, k),
        closed(c),
        declared(e, c.fns),
        free_of(e, c.vars),
        unfolding_ends(c),
    ensures
        inlined(e, c.vars, c.fns, c.fns.len()) is Some,
{
    if inlined(e, c.vars, c.fns, c.fns.len()) is None {
        let p = lemma_inlining_chain(e, c, c.fns.len());
        let places = Seq::new(p.len(), |k: int| fn_at(c.fns)(p[k]));
        assert forall|k: int| 0 <= k < places.len() implies 0 <= #[trigger] places[k]
            < c.fns.len() by {
            assert(find_fn(c.fns, p[k]) is Some);
            lemma_fn_place(c.fns, p[k]);
        }
        let pair = lemma_two_alike(places, c.fns.len());
        let i = pair.0;
        let j = pair.1;
        assert(find_fn(c.fns, p[i]) is Some);
        assert(find_fn(c.fns, p[j]) is Some);
        lemma_fn_place(c.fns, p[i]);
        lemma_fn_place(c.fns, p[j]);
        assert(places[i] == fn_at(c.fns)(p[i]));
        assert(places[j] == fn_at(c.fns)(p[j]));
        assert(p[i] == p[j]);
        let r = p.subrange(i, j + 1);
        assert forall|m: int| 0 <= m < r.len() - 1 implies unfolds(c)(#[trigger] r[m], r[m + 1]) by {
            assert(r[m] == p[i + m]);
            assert(r[m + 1] == p[i + m + 1]);
            assert(unfolds(c)(p[i + m], p[i + m + 1]));
        }
        assert forall|m: int| 0 <= m < r.len() implies find_fn(c.fns, #[trigger] r[m]) is Some
            && !is_recursive(c.fns, r[m]) by {
            assert(r[m] == p[i + m]);
            assert(find_fn(c.fns, p[i + m]) is Some && !is_recursive(c.fns, p[i + m]));
        }
        assert(r[0] == p[i]);
        assert(r.last() == p[j]);
        assert(r.len() >= 2 && chain(unfolds(c), r) && plain(c.fns, r));
        assert(false);
    }
}

/// Simplification yields a result for every expression whose calls name
/// declared functions, in every context in which the calls of the bindings
/// and bodies do, no variable is defined through itself, and no function
/// that is not recursive comes back to itself by unfolding.
pub proof fn lemma_simplify_succeeds(e: ExprV, c: ContextV, arith: Arith)
    requires
        forall|k: int| 0 <= k < c.vars.len() ==> !#[trigger] var_fault(c.vars, k),
        closed(c),
        declared(e, c.fns),
        unfolding_ends(c),
    ensures
        simplified(e, c, arith) is Some,
{
    lemma_expansion_succeeds(e, c.vars);
    lemma_expanded_free(e, c.vars, c.vars.len());
    assert forall|k: int| 0 <= k < c.vars.len() implies clean(
        (#[trigger] c.vars[k]).value,
        anything(),
        declared_in(c.fns),
    ) by {
        assert(declared(c.vars[k].value, c.fns));
    }
    lemma_expanded_declared(e, c.vars, c.vars.len(), declared_in(c.fns));
    lemma_inlining_succeeds(expanded(e, c.vars, c.vars.len()).unwrap(), c);
}

/// In a closed context, expansion keeps the calls of an expression those of
/// declared functions.
pub proof fn lemma_closed_expanded(e: ExprV, c: ContextV)
    requires
        closed(c),
        declared(e, c.fns),
        expanded(e, c.vars, c.vars.len()) is Some,
    ensures
        declared(expanded(e, c.vars, c.vars.len()).unwrap(), c.fns),
{
    assert forall|k: int| 0 <= k < c.vars.len() implies clean(
        (#[trigger] c.vars[k]).value,
        anything(),
        declared_in(c.fns),
    ) by {
        assert(declared(c.vars[k].value, c.fns));
    }
    lemma_expanded_declared(e, c.vars, c.vars.len(), declared_in(c.fns));
}

/// A closed context stays closed where a variable is declared, or declared
/// anew, with a binding whose calls name declared functions.
pub proof fn lemma_closed_bound(c: ContextV, name: Seq<char>, value: ExprV)
    requires
        closed(c),
        declared(value, c.fns),
    ensures
        closed(ContextV { vars: crate::scope::bound(c.vars, name, value), fns: c.fns }),
{
    let after = crate::scope::bound(c.vars, name, value);
    lemma_place(c.vars, name);
    assert forall|k: int| 0 <= k < after.len() implies declared(
        (#[trigger] after[k]).value,
        c.fns,
    ) by {
        match place(c.vars, name) {
            Some(i) => {
                if k != i {
                    assert(after[k] == c.vars[k]);
                }
            },
            None => {
                if k < c.vars.len() {
                    assert(after[k] == c.vars[k]);
                }
            },
        }
    }
}

/// The context can be resolved: no variable is defined through itself, every
/// call in a binding or a body names a declared function, and no function
/// that is not recursive comes back to itself by unfolding.
pub open spec fn resolvable(c: ContextV) -> bool {
    &&& forall|k: int| 0 <= k < c.vars.len() ==> !#[trigger] var_fault(c.vars, k)
    &&& closed(c)
    &&& unfolding_ends(c)
}

/// In a context that can be resolved, simplification yields a result for
/// every expression whose calls name declared functions.
pub proof fn lemma_resolvable(e: ExprV, c: ContextV, arith: Arith)
    requires
        resolvable(c),
        declared(e, c.fns),
    ensures
        simplified(e, c, arith) is Some,
{
    lemma_simplify_succeeds(e, c, arith);
}

/// No binding of a variable holds a call.
pub open spec fn bindings_call_free(vars: Seq<Binding>) -> bool {
    forall|k: int, g: Seq<char>| 0 <= k < vars.len() ==> !#[trigger] holds_call(vars[k].value, g)
}

/// Where no binding holds a call, unfolding a function brings up the calls
/// that its body holds and no others.
pub proof fn lemma_unfolds_is_call(c: ContextV, f: Seq<char>, g: Seq<char>)
    requires
        bindings_call_free(c.vars),
        unfolds(c)(f, g),
    ensures
        crate::reach::fn_link(c.fns)(f, g),
{
    let ff = find_fn(c.fns, f).unwrap();
    if !holds_call(ff.body, g) {
        let v = choose|v: Seq<char>| mentions(ff.body, v) && #[trigger] var_calls(c.vars, v, g);
        let q = choose|q: Seq<Seq<char>>|
            q.len() >= 1 && q[0] == v && #[trigger] chain(var_link(c.vars), q) && binding_calls(
                c.vars,
                q.last(),
                g,
            );
        lemma_place(c.vars, q.last());
        let k = place(c.vars, q.last()).unwrap();
        assert(holds_call(c.vars[k].value, g));
    }
}

/// Where the recursion check finds no function at fault and no binding holds
/// a call, no function that is not recursive comes back to itself by
/// unfolding.
pub proof fn lemma_checked_unfolding_ends(c: ContextV)
    requires
        forall|k: int| 0 <= k < c.fns.len() ==> !#[trigger] crate::context::fn_fault(c.fns, k),
        bindings_call_free(c.vars),
    ensures
        unfolding_ends(c),
{
    assert forall|p: Seq<Seq<char>>|
        p.len() >= 2 && #[trigger] chain(unfolds(c), p) && plain(c.fns, p) implies p[0]
        != p.last() by {
        if p[0] == p.last() {
            let link = crate::reach::fn_link(c.fns);
            assert forall|i: int| 0 <= i < p.len() - 1 implies link(#[trigger] p[i], p[i + 1]) by {
                assert(unfolds(c)(p[i], p[i + 1]));
                lemma_unfolds_is_call(c, p[i], p[i + 1]);
            }
            assert(find_fn(c.fns, p[0]) is Some && !is_recursive(c.fns, p[0]));
            lemma_fn_place(c.fns, p[0]);
            let k = fn_place(c.fns, p[0]).unwrap();
            let r = p.skip(1);
            assert(link(p[0], p[1]));
            assert(r[0] == p[1]);
            assert forall|i: int| 0 <= i < r.len() - 1 implies link(#[trigger] r[i], r[i + 1]) by {
                assert(r[i] == p[i + 1]);
                assert(r[i + 1] == p[i + 2]);
                assert(link(p[i + 1], p[i + 1 + 1]));
            }
            assert(r.last() == p.last());
            assert(r.len() >= 1 && holds_call(c.fns[k].body, r[0]) && chain(link, r) && r.last()
                == c.fns[k].name);
            assert(crate::reach::reaches_fn(c.fns[k].body, c.fns[k].name, c.fns));
            assert(crate::context::fn_fault(c.fns, k));
        }
    }
}

/// A context that passes the recursion check can be resolved, where every
/// call in a binding or a body names a declared function and no binding
/// holds a call.
pub proof fn lemma_checked_resolvable(c: ContextV)
    requires
        crate::context::faults(c).len() == 0,
        closed(c),
        bindings_call_free(c.vars),
    ensures
        resolvable(c),
{
    crate::laws::lemma_check(c);
    lemma_checked_unfolding_ends(c);
}

} // verus!

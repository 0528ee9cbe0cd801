//! The search for a name through definitions is exhaustive.
//!
//! The recursion check follows definitions only as deep as there are
//! declarations. That is deep enough: whatever chain of definitions leads
//! from an expression to a name, a chain without a repeated link leads there
//! too, and such a chain is no longer than the list of declarations.

use vstd::prelude::*;
use crate::check::{any, calls_fn, fn_hits, uses_var, var_hits};
use crate::context::var_fault;
use crate::expand::{expanded, expansions, gathered};
use crate::expr::ExprV;
use crate::scope::{
    find, find_fn, fn_place, lemma_fn_place, lemma_place, place, Binding, FuncV,
};
use crate::term::TermV;

verus! {

/// A relation between names: whether the definition of the first leads to
/// the second.
pub type Link = spec_fn(Seq<char>, Seq<char>) -> bool;

/// Each name of the list leads to the one behind it.
pub open spec fn chain(link: Link, p: Seq<Seq<char>>) -> bool {
    forall|i: int| 0 <= i < p.len() - 1 ==> link(#[trigger] p[i], p[i + 1])
}

/// Every name that leads anywhere has a place among `n` declarations, and
/// names of one place are one name.
pub open spec fn placed_in(link: Link, at: spec_fn(Seq<char>) -> int, n: nat) -> bool {
    &&& forall|u: Seq<char>, v: Seq<char>| #[trigger] link(u, v) ==> 0 <= at(u) < n
    &&& forall|u: Seq<char>, v: Seq<char>, w: Seq<char>, x: Seq<char>|
        #[trigger] link(u, v) && #[trigger] link(w, x) && at(u) == at(w) ==> u == w
}

/// Among more than `n` numbers from `0` up to, not including, `n`, two are
/// the same.
pub proof fn lemma_two_alike(s: Seq<int>, n: nat) -> (r: (int, int))
    requires
        s.len() > n,
        forall|i: int| 0 <= i < s.len() ==> 0 <= #[trigger] s[i] < n,
    ensures
        0 <= r.0 < r.1 < s.len(),
        s[r.0] == s[r.1],
{
    if s.no_duplicates() {
        s.unique_seq_to_set();
        let range = Set::new(|i: int| 0 <= i < n);
        vstd::set_lib::lemma_int_range(0, n as int);
        assert(range =~= vstd::set_lib::set_int_range(0, n as int));
        assert forall|x: int| s.to_set().contains(x) implies range.contains(x) by {
            let k = choose|k: int| 0 <= k < s.len() && s[k] == x;
            assert(0 <= s[k] < n);
        }
        vstd::set_lib::lemma_len_subset(s.to_set(), range);
        assert(false);
        (0, 0)
    } else {
        let pair = choose|i: int, j: int|
            0 <= i < s.len() && 0 <= j < s.len() && i != j && s[i] == s[j];
        if pair.0 < pair.1 {
            (pair.0, pair.1)
        } else {
            (pair.1, pair.0)
        }
    }
}

/// A chain with a part cut out that starts and ends with one name is a
/// chain still.
pub proof fn lemma_cut(link: Link, p: Seq<Seq<char>>, i: int, j: int)
    requires
        chain(link, p),
        0 <= i < j < p.len(),
        p[i] == p[j],
    ensures
        chain(link, p.take(i) + p.skip(j)),
        (p.take(i) + p.skip(j)).len() == p.len() - (j - i),
        (p.take(i) + p.skip(j))[0] == p[0],
        (p.take(i) + p.skip(j)).last() == p.last(),
{
    let q = p.take(i) + p.skip(j);
    assert forall|k: int| 0 <= k < q.len() - 1 implies link(#[trigger] q[k], q[k + 1]) by {
        if k + 1 < i {
            assert(q[k] == p[k]);
            assert(q[k + 1] == p[k + 1]);
            assert(link(p[k], p[k + 1]));
        } else if k + 1 == i {
            assert(q[k] == p[k]);
            assert(q[k + 1] == p[j]);
            assert(link(p[k], p[k + 1]));
        } else {
            assert(q[k] == p[k - i + j]);
            assert(q[k + 1] == p[k - i + j + 1]);
            assert(link(p[k - i + j], p[k - i + j + 1]));
        }
    }
    if i == 0 {
        assert(q[0] == p[j]);
    } else {
        assert(q[0] == p[0]);
    }
    assert(q[q.len() - 1] == p[p.len() - 1]);
}

/// Where a chain leads from one name to another, a chain of at most `n`
/// links does.
pub proof fn lemma_shorten(link: Link, at: spec_fn(Seq<char>) -> int, n: nat, p: Seq<Seq<char>>)
    -> (q: Seq<Seq<char>>)
    requires
        placed_in(link, at, n),
        chain(link, p),
        p.len() >= 1,
    ensures
        chain(link, q),
        1 <= q.len() <= n + 1,
        q[0] == p[0],
        q.last() == p.last(),
    decreases p.len(),
{
    if p.len() <= n + 1 {
        p
    } else {
        let places = Seq::new((p.len() - 1) as nat, |k: int| at(p[k]));
        assert forall|k: int| 0 <= k < places.len() implies 0 <= #[trigger] places[k] < n by {
            assert(link(p[k], p[k + 1]));
        }
        let pair = lemma_two_alike(places, n);
        let i = pair.0;
        let j = pair.1;
        assert(link(p[i], p[i + 1]));
        assert(link(p[j], p[j + 1]));
        assert(places[i] == at(p[i]));
        assert(places[j] == at(p[j]));
        assert(p[i] == p[j]);
        lemma_cut(link, p, i, j);
        lemma_shorten(link, at, n, p.take(i) + p.skip(j))
    }
}

/// For each expression of a list, whether it names the variable.
pub open spec fn mention_flags(c: Seq<ExprV>, v: Seq<char>) -> Seq<bool>
    decreases c,
{
    Seq::new(
        c.len(),
        |i: int|
            if 0 <= i < c.len() {
                mentions(c[i], v)
            } else {
                false
            },
    )
}

/// The expression names the variable.
pub open spec fn mentions(e: ExprV, v: Seq<char>) -> bool
    decreases e,
{
    match e {
        ExprV::Term(TermV::Var(n)) => n == v,
        ExprV::Term(_) => false,
        ExprV::Add(c) => any(mention_flags(c, v)),
        ExprV::Mul(c) => any(mention_flags(c, v)),
        ExprV::Pow(a, b) => mentions(*a, v) || mentions(*b, v),
        ExprV::Unary(_, a) => mentions(*a, v),
        ExprV::Fn(_, args) => any(mention_flags(args, v)),
    }
}

/// The first variable is bound, and its binding names the second.
pub open spec fn var_link(vars: Seq<Binding>) -> Link {
    |u: Seq<char>, v: Seq<char>|
        match find(vars, u) {
            Some(b) => mentions(b, v),
            None => false,
        }
}

/// The place of a bound variable among the declarations.
pub open spec fn var_at(vars: Seq<Binding>) -> spec_fn(Seq<char>) -> int {
    |u: Seq<char>|
        match place(vars, u) {
            Some(i) => i,
            None => -1,
        }
}

/// Every bound variable has its place among the declarations.
pub proof fn lemma_vars_placed(vars: Seq<Binding>)
    ensures
        placed_in(var_link(vars), var_at(vars), vars.len()),
{
    let link = var_link(vars);
    let at = var_at(vars);
    assert forall|u: Seq<char>, v: Seq<char>| #[trigger] link(u, v) implies 0 <= at(u)
        < vars.len() by {
        lemma_place(vars, u);
    }
    assert forall|u: Seq<char>, v: Seq<char>, w: Seq<char>, x: Seq<char>|
        #[trigger] link(u, v) && #[trigger] link(w, x) && at(u) == at(w) implies u == w by {
        lemma_place(vars, u);
        lemma_place(vars, w);
    }
}

/// Where the search finds the variable, a chain of bindings leads to it from
/// a variable that the expression names: of no more links than the search was
/// deep.
pub proof fn lemma_search_chain(e: ExprV, name: Seq<char>, vars: Seq<Binding>, depth: nat) -> (p:
    Seq<Seq<char>>)
    requires
        uses_var(e, name, vars, depth),
    ensures
        1 <= p.len() <= depth + 1,
        mentions(e, p[0]),
        chain(var_link(vars), p),
        p.last() == name,
    decreases depth, e,
{
    match e {
        ExprV::Term(TermV::Var(v)) => {
            if v == name {
                seq![name]
            } else {
                let b = find(vars, v).unwrap();
                let q = lemma_search_chain(b, name, vars, (depth - 1) as nat);
                let p = seq![v] + q;
                assert forall|i: int| 0 <= i < p.len() - 1 implies var_link(vars)(
                    #[trigger] p[i],
                    p[i + 1],
                ) by {
                    if i == 0 {
                        assert(p[1] == q[0]);
                    } else {
                        assert(p[i] == q[i - 1]);
                        assert(p[i + 1] == q[i]);
                        assert(var_link(vars)(q[i - 1], q[i]));
                    }
                }
                assert(p.last() == q.last());
                p
            }
        },
        ExprV::Term(_) => Seq::empty(),
        ExprV::Add(c) => lemma_search_chain_any(c, name, vars, depth),
        ExprV::Mul(c) => lemma_search_chain_any(c, name, vars, depth),
        ExprV::Pow(a, b) => {
            if uses_var(*a, name, vars, depth) {
                lemma_search_chain(*a, name, vars, depth)
            } else {
                lemma_search_chain(*b, name, vars, depth)
            }
        },
        ExprV::Unary(_, a) => lemma_search_chain(*a, name, vars, depth),
        ExprV::Fn(_, args) => lemma_search_chain_any(args, name, vars, depth),
    }
}

/// Where the search finds the variable in one expression of a list, a chain
/// of bindings leads to it from a variable that this expression names.
pub proof fn lemma_search_chain_any(
    c: Seq<ExprV>,
    name: Seq<char>,
    vars: Seq<Binding>,
    depth: nat,
) -> (p: Seq<Seq<char>>)
    requires
        any(var_hits(c, name, vars, depth)),
    ensures
        1 <= p.len() <= depth + 1,
        any(mention_flags(c, p[0])),
        chain(var_link(vars), p),
        p.last() == name,
    decreases depth, c,
{
    let s = var_hits(c, name, vars, depth);
    let i = choose|i: int| 0 <= i < s.len() && s[i];
    let p = lemma_search_chain(c[i], name, vars, depth);
    assert(mention_flags(c, p[0])[i]);
    p
}

/// Where a chain of bindings leads to the variable from a variable that the
/// expression names, the search finds it, if it goes as deep as the chain
/// has links.
pub proof fn lemma_chain_search(
    e: ExprV,
    name: Seq<char>,
    vars: Seq<Binding>,
    p: Seq<Seq<char>>,
    depth: nat,
)
    requires
        1 <= p.len() <= depth + 1,
        mentions(e, p[0]),
        chain(var_link(vars), p),
        p.last() == name,
    ensures
        uses_var(e, name, vars, depth),
    decreases p.len(), e,
{
    match e {
        ExprV::Term(TermV::Var(v)) => {
            if v != name {
                assert(var_link(vars)(p[0], p[1]));
                let b = find(vars, v).unwrap();
                let q = p.skip(1);
                assert forall|i: int| 0 <= i < q.len() - 1 implies var_link(vars)(
                    #[trigger] q[i],
                    q[i + 1],
                ) by {
                    assert(q[i] == p[i + 1]);
                    assert(q[i + 1] == p[i + 2]);
                    assert(var_link(vars)(p[i + 1], p[i + 1 + 1]));
                }
                assert(q.last() == p.last());
                lemma_chain_search(b, name, vars, q, (depth - 1) as nat);
            }
        },
        ExprV::Term(_) => {},
        ExprV::Add(c) => {
            lemma_chain_search_any(c, name, vars, p, depth);
        },
        ExprV::Mul(c) => {
            lemma_chain_search_any(c, name, vars, p, depth);
        },
        ExprV::Pow(a, b) => {
            if mentions(*a, p[0]) {
                lemma_chain_search(*a, name, vars, p, depth);
            } else {
                lemma_chain_search(*b, name, vars, p, depth);
            }
        },
        ExprV::Unary(_, a) => {
            lemma_chain_search(*a, name, vars, p, depth);
        },
        ExprV::Fn(_, args) => {
            lemma_chain_search_any(args, name, vars, p, depth);
        },
    }
}

/// Where a chain of bindings leads to the variable from a variable that one
/// expression of a list names, the search finds it in the list.
pub proof fn lemma_chain_search_any(
    c: Seq<ExprV>,
    name: Seq<char>,
    vars: Seq<Binding>,
    p: Seq<Seq<char>>,
    depth: nat,
)
    requires
        1 <= p.len() <= depth + 1,
        any(mention_flags(c, p[0])),
        chain(var_link(vars), p),
        p.last() == name,
    ensures
        any(var_hits(c, name, vars, depth)),
    decreases p.len(), c,
{
    let s = mention_flags(c, p[0]);
    let i = choose|i: int| 0 <= i < s.len() && s[i];
    lemma_chain_search(c[i], name, vars, p, depth);
    assert(var_hits(c, name, vars, depth)[i]);
}

/// The search for a variable is exhaustive at the depth of the number of
/// declarations: what any depth finds, that depth finds.
pub proof fn lemma_var_search_complete(
    e: ExprV,
    name: Seq<char>,
    vars: Seq<Binding>,
    depth: nat,
)
    requires
        uses_var(e, name, vars, depth),
    ensures
        uses_var(e, name, vars, vars.len()),
{
    let p = lemma_search_chain(e, name, vars, depth);
    lemma_vars_placed(vars);
    let q = lemma_shorten(var_link(vars), var_at(vars), vars.len(), p);
    lemma_chain_search(e, name, vars, q, vars.len());
}

/// A chain of bindings leads from the expression to the variable: the
/// expression names a variable, whose binding names a variable, and so on to
/// the variable itself.
pub open spec fn reaches_var(e: ExprV, name: Seq<char>, vars: Seq<Binding>) -> bool {
    exists|p: Seq<Seq<char>>|
        p.len() >= 1 && mentions(e, p[0]) && #[trigger] chain(var_link(vars), p) && p.last()
            == name
}

/// The variable is found at the depth of the number of declarations exactly
/// where a chain of bindings, of whatever length, leads to it from the
/// expression.
pub proof fn lemma_var_search_is_reachability(e: ExprV, name: Seq<char>, vars: Seq<Binding>)
    ensures
        uses_var(e, name, vars, vars.len()) <==> reaches_var(e, name, vars),
{
    if uses_var(e, name, vars, vars.len()) {
        let p = lemma_search_chain(e, name, vars, vars.len());
        assert(p.len() >= 1 && mentions(e, p[0]) && chain(var_link(vars), p) && p.last() == name);
    }
    if reaches_var(e, name, vars) {
        let p = choose|p: Seq<Seq<char>>|
            p.len() >= 1 && mentions(e, p[0]) && #[trigger] chain(var_link(vars), p) && p.last()
                == name;
        lemma_chain_search(e, name, vars, p, (p.len() - 1) as nat);
        lemma_var_search_complete(e, name, vars, (p.len() - 1) as nat);
    }
}

/// Where expansion runs out of depth, a chain of bound variables leads on
/// from the expression for as many links as the depth allowed.
pub proof fn lemma_expansion_chain(e: ExprV, vars: Seq<Binding>, depth: nat) -> (p: Seq<Seq<char>>)
    requires
        expanded(e, vars, depth) is None,
    ensures
        p.len() == depth + 1,
        mentions(e, p[0]),
        chain(var_link(vars), p),
        forall|i: int| 0 <= i < p.len() ==> find(vars, #[trigger] p[i]) is Some,
    decreases depth, e,
{
    match e {
        ExprV::Term(TermV::Var(v)) => {
            let b = find(vars, v).unwrap();
            if depth == 0 {
                seq![v]
            } else {
                let q = lemma_expansion_chain(b, vars, (depth - 1) as nat);
                let p = seq![v] + q;
                assert forall|i: int| 0 <= i < p.len() - 1 implies var_link(vars)(
                    #[trigger] p[i],
                    p[i + 1],
                ) by {
                    if i == 0 {
                        assert(p[1] == q[0]);
                    } else {
                        assert(p[i] == q[i - 1]);
                        assert(p[i + 1] == q[i]);
                        assert(var_link(vars)(q[i - 1], q[i]));
                    }
                }
                assert forall|i: int| 0 <= i < p.len() implies find(vars, #[trigger] p[i])
                    is Some by {
                    if i > 0 {
                        assert(p[i] == q[i - 1]);
                    }
                }
                p
            }
        },
        ExprV::Term(_) => Seq::empty(),
        ExprV::Add(c) => lemma_expansion_chain_any(c, vars, depth),
        ExprV::Mul(c) => lemma_expansion_chain_any(c, vars, depth),
        ExprV::Pow(a, b) => {
            if expanded(*a, vars, depth) is None {
                lemma_expansion_chain(*a, vars, depth)
            } else {
                lemma_expansion_chain(*b, vars, depth)
            }
        },
        ExprV::Unary(_, a) => lemma_expansion_chain(*a, vars, depth),
        ExprV::Fn(_, args) => lemma_expansion_chain_any(args, vars, depth),
    }
}

/// Where the expansion of one expression of a list runs out of depth, a
/// chain of bound variables leads on from that expression.
pub proof fn lemma_expansion_chain_any(c: Seq<ExprV>, vars: Seq<Binding>, depth: nat) -> (p: Seq<
    Seq<char>,
>)
    requires
        gathered(expansions(c, vars, depth)) is None,
    ensures
        p.len() == depth + 1,
        any(mention_flags(c, p[0])),
        chain(var_link(vars), p),
        forall|i: int| 0 <= i < p.len() ==> find(vars, #[trigger] p[i]) is Some,
    decreases depth, c,
{
    let s = expansions(c, vars, depth);
    let i = choose|i: int| 0 <= i < s.len() && !((#[trigger] s[i]) is Some);
    let p = lemma_expansion_chain(c[i], vars, depth);
    assert(mention_flags(c, p[0])[i]);
    p
}

/// Where no variable is defined through itself, every expression can be
/// expanded within the depth of the number of declarations.
pub proof fn lemma_expansion_succeeds(e: ExprV, vars: Seq<Binding>)
    requires
        forall|k: int| 0 <= k < vars.len() ==> !#[trigger] var_fault(vars, k),
    ensures
        expanded(e, vars, vars.len()) is Some,
{
    if expanded(e, vars, vars.len()) is None {
        let p = lemma_expansion_chain(e, vars, vars.len());
        let places = Seq::new(p.len(), |k: int| var_at(vars)(p[k]));
        assert forall|k: int| 0 <= k < places.len() implies 0 <= #[trigger] places[k]
            < vars.len() by {
            assert(find(vars, p[k]) is Some);
            lemma_place(vars, p[k]);
        }
        let pair = lemma_two_alike(places, vars.len());
        let i = pair.0;
        let j = pair.1;
        assert(find(vars, p[i]) is Some);
        assert(find(vars, p[j]) is Some);
        lemma_place(vars, p[i]);
        lemma_place(vars, p[j]);
        assert(places[i] == var_at(vars)(p[i]));
        assert(places[j] == var_at(vars)(p[j]));
        let k = place(vars, p[i]).unwrap();
        assert(p[i] == p[j]);
        let r = p.subrange(i + 1, j + 1);
        assert(var_link(vars)(p[i], p[i + 1]));
        assert(r[0] == p[i + 1]);
        assert forall|m: int| 0 <= m < r.len() - 1 implies var_link(vars)(
            #[trigger] r[m],
            r[m + 1],
        ) by {
            assert(r[m] == p[i + 1 + m]);
            assert(r[m + 1] == p[i + 1 + m + 1]);
            assert(var_link(vars)(p[i + 1 + m], p[i + 1 + m + 1]));
        }
        assert(r.last() == p[j]);
        assert(r.len() >= 1 && mentions(vars[k].value, r[0]) && chain(var_link(vars), r)
            && r.last() == vars[k].name);
        assert(var_fault(vars, k));
    }
}

/// For each expression of a list, whether it holds a call of the function.
pub open spec fn call_mention_flags(c: Seq<ExprV>, g: Seq<char>) -> Seq<bool>
    decreases c,
{
    Seq::new(
        c.len(),
        |i: int|
            if 0 <= i < c.len() {
                holds_call(c[i], g)
            } else {
                false
            },
    )
}

/// The expression holds a call of the function.
pub open spec fn holds_call(e: ExprV, g: Seq<char>) -> bool
    decreases e,
{
    match e {
        ExprV::Term(_) => false,
        ExprV::Add(c) => any(call_mention_flags(c, g)),
        ExprV::Mul(c) => any(call_mention_flags(c, g)),
        ExprV::Pow(a, b) => holds_call(*a, g) || holds_call(*b, g),
        ExprV::Unary(_, a) => holds_call(*a, g),
        ExprV::Fn(n, args) => n == g || any(call_mention_flags(args, g)),
    }
}

/// The first function is declared, and its body holds a call of the second.
pub open spec fn fn_link(fns: Seq<FuncV>) -> Link {
    |u: Seq<char>, v: Seq<char>|
        match find_fn(fns, u) {
            Some(f) => holds_call(f.body, v),
            None => false,
        }
}

/// The place of a declared function among the declarations.
pub open spec fn fn_at(fns: Seq<FuncV>) -> spec_fn(Seq<char>) -> int {
    |u: Seq<char>|
        match fn_place(fns, u) {
            Some(i) => i,
            None => -1,
        }
}

/// Every declared function has its place among the declarations.
pub proof fn lemma_fns_placed(fns: Seq<FuncV>)
    ensures
        placed_in(fn_link(fns), fn_at(fns), fns.len()),
{
    let link = fn_link(fns);
    let at = fn_at(fns);
    assert forall|u: Seq<char>, v: Seq<char>| #[trigger] link(u, v) implies 0 <= at(u)
        < fns.len() by {
        lemma_fn_place(fns, u);
    }
    assert forall|u: Seq<char>, v: Seq<char>, w: Seq<char>, x: Seq<char>|
        #[trigger] link(u, v) && #[trigger] link(w, x) && at(u) == at(w) implies u == w by {
        lemma_fn_place(fns, u);
        lemma_fn_place(fns, w);
    }
}

/// Where the search finds the call, a chain of bodies leads to the function
/// from a function that the expression calls: of no more links than the
/// search was deep.
pub proof fn lemma_call_search_chain(e: ExprV, name: Seq<char>, fns: Seq<FuncV>, depth: nat) -> (p:
    Seq<Seq<char>>)
    requires
        calls_fn(e, name, fns, depth),
    ensures
        1 <= p.len() <= depth + 1,
        holds_call(e, p[0]),
        chain(fn_link(fns), p),
        p.last() == name,
    decreases depth, e,
{
    match e {
        ExprV::Term(_) => Seq::empty(),
        ExprV::Add(c) => lemma_call_search_chain_any(c, name, fns, depth),
        ExprV::Mul(c) => lemma_call_search_chain_any(c, name, fns, depth),
        ExprV::Pow(a, b) => {
            if calls_fn(*a, name, fns, depth) {
                lemma_call_search_chain(*a, name, fns, depth)
            } else {
                lemma_call_search_chain(*b, name, fns, depth)
            }
        },
        ExprV::Unary(_, a) => lemma_call_search_chain(*a, name, fns, depth),
        ExprV::Fn(n, args) => {
            if n == name {
                seq![name]
            } else if any(fn_hits(args, name, fns, depth)) {
                lemma_call_search_chain_any(args, name, fns, depth)
            } else {
                let f = find_fn(fns, n).unwrap();
                let q = lemma_call_search_chain(f.body, name, fns, (depth - 1) as nat);
                let p = seq![n] + q;
                assert forall|i: int| 0 <= i < p.len() - 1 implies fn_link(fns)(
                    #[trigger] p[i],
                    p[i + 1],
                ) by {
                    if i == 0 {
                        assert(p[1] == q[0]);
                    } else {
                        assert(p[i] == q[i - 1]);
                        assert(p[i + 1] == q[i]);
                        assert(fn_link(fns)(q[i - 1], q[i]));
                    }
                }
                assert(p.last() == q.last());
                p
            }
        },
    }
}

/// Where the search finds the call in one expression of a list, a chain of
/// bodies leads to the function from a function that this expression calls.
pub proof fn lemma_call_search_chain_any(
    c: Seq<ExprV>,
    name: Seq<char>,
    fns: Seq<FuncV>,
    depth: nat,
) -> (p: Seq<Seq<char>>)
    requires
        any(fn_hits(c, name, fns, depth)),
    ensures
        1 <= p.len() <= depth + 1,
        any(call_mention_flags(c, p[0])),
        chain(fn_link(fns), p),
        p.last() == name,
    decreases depth, c,
{
    let s = fn_hits(c, name, fns, depth);
    let i = choose|i: int| 0 <= i < s.len() && s[i];
    let p = lemma_call_search_chain(c[i], name, fns, depth);
    assert(call_mention_flags(c, p[0])[i]);
    p
}

/// Where a chain of bodies leads to the function from a function that the
/// expression calls, the search finds the call, if it goes as deep as the
/// chain has links.
pub proof fn lemma_chain_call_search(
    e: ExprV,
    name: Seq<char>,
    fns: Seq<FuncV>,
    p: Seq<Seq<char>>,
    depth: nat,
)
    requires
        1 <= p.len() <= depth + 1,
        holds_call(e, p[0]),
        chain(fn_link(fns), p),
        p.last() == name,
    ensures
        calls_fn(e, name, fns, depth),
    decreases p.len(), e,
{
    match e {
        ExprV::Term(_) => {},
        ExprV::Add(c) => {
            lemma_chain_call_search_any(c, name, fns, p, depth);
        },
        ExprV::Mul(c) => {
            lemma_chain_call_search_any(c, name, fns, p, depth);
        },
        ExprV::Pow(a, b) => {
            if holds_call(*a, p[0]) {
                lemma_chain_call_search(*a, name, fns, p, depth);
            } else {
                lemma_chain_call_search(*b, name, fns, p, depth);
            }
        },
        ExprV::Unary(_, a) => {
            lemma_chain_call_search(*a, name, fns, p, depth);
        },
        ExprV::Fn(n, args) => {
            if n == name {
            } else if any(call_mention_flags(args, p[0])) {
                lemma_chain_call_search_any(args, name, fns, p, depth);
            } else {
                assert(n == p[0]);
                assert(fn_link(fns)(p[0], p[1]));
                let f = find_fn(fns, n).unwrap();
                let q = p.skip(1);
                assert forall|i: int| 0 <= i < q.len() - 1 implies fn_link(fns)(
                    #[trigger] q[i],
                    q[i + 1],
                ) by {
                    assert(q[i] == p[i + 1]);
                    assert(q[i + 1] == p[i + 2]);
                    assert(fn_link(fns)(p[i + 1], p[i + 1 + 1]));
                }
                assert(q.last() == p.last());
                lemma_chain_call_search(f.body, name, fns, q, (depth - 1) as nat);
            }
        },
    }
}

/// Where a chain of bodies leads to the function from a function that one
/// expression of a list calls, the search finds the call in the list.
pub proof fn lemma_chain_call_search_any(
    c: Seq<ExprV>,
    name: Seq<char>,
    fns: Seq<FuncV>,
    p: Seq<Seq<char>>,
    depth: nat,
)
    requires
        1 <= p.len() <= depth + 1,
        any(call_mention_flags(c, p[0])),
        chain(fn_link(fns), p),
        p.last() == name,
    ensures
        any(fn_hits(c, name, fns, depth)),
    decreases p.len(), c,
{
    let s = call_mention_flags(c, p[0]);
    let i = choose|i: int| 0 <= i < s.len() && s[i];
    lemma_chain_call_search(c[i], name, fns, p, depth);
    assert(fn_hits(c, name, fns, depth)[i]);
}

/// The search for a call is exhaustive at the depth of the number of
/// declarations: what any depth finds, that depth finds.
pub proof fn lemma_call_search_complete(e: ExprV, name: Seq<char>, fns: Seq<FuncV>, depth: nat)
    requires
        calls_fn(e, name, fns, depth),
    ensures
        calls_fn(e, name, fns, fns.len()),
{
    let p = lemma_call_search_chain(e, name, fns, depth);
    lemma_fns_placed(fns);
    let q = lemma_shorten(fn_link(fns), fn_at(fns), fns.len(), p);
    lemma_chain_call_search(e, name, fns, q, fns.len());
}

/// A chain of bodies leads from the expression to the function: the
/// expression calls a function, whose body calls a function, and so on to
/// the function itself.
pub open spec fn reaches_fn(e: ExprV, name: Seq<char>, fns: Seq<FuncV>) -> bool {
    exists|p: Seq<Seq<char>>|
        p.len() >= 1 && holds_call(e, p[0]) && #[trigger] chain(fn_link(fns), p) && p.last()
            == name
}

/// The call is found at the depth of the number of declarations exactly
/// where a chain of bodies, of whatever length, leads to the function from
/// the expression.
pub proof fn lemma_call_search_is_reachability(e: ExprV, name: Seq<char>, fns: Seq<FuncV>)
    ensures
        calls_fn(e, name, fns, fns.len()) <==> reaches_fn(e, name, fns),
{
    if calls_fn(e, name, fns, fns.len()) {
        let p = lemma_call_search_chain(e, name, fns, fns.len());
        assert(p.len() >= 1 && holds_call(e, p[0]) && chain(fn_link(fns), p) && p.last() == name);
    }
    if reaches_fn(e, name, fns) {
        let p = choose|p: Seq<Seq<char>>|
            p.len() >= 1 && holds_call(e, p[0]) && #[trigger] chain(fn_link(fns), p) && p.last()
                == name;
        lemma_chain_call_search(e, name, fns, p, (p.len() - 1) as nat);
        lemma_call_search_complete(e, name, fns, (p.len() - 1) as nat);
    }
}

} // verus!

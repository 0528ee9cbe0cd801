//! The searches behind the recursion check: whether an expression comes back
//! to a variable through the variables it names, and whether it comes to a
//! call of a function through the bodies of the functions it calls.

use vstd::prelude::*;
use crate::expr::{models, Expr, ExprV};
use crate::scope::{
    bindings, find, find_fn, fn_position, functions, position, Binding, Func, FuncV, Variable,
};
use crate::term::{Term, TermV};

verus! {

/// One member of the list holds.
pub open spec fn any(s: Seq<bool>) -> bool {
    exists|i: int| 0 <= i < s.len() && #[trigger] s[i]
}

/// For each expression of a list, whether it uses the variable.
pub open spec fn var_hits(c: Seq<ExprV>, name: Seq<char>, vars: Seq<Binding>, depth: nat) -> Seq<
    bool,
>
    decreases depth, c,
{
    Seq::new(
        c.len(),
        |i: int|
            if 0 <= i < c.len() {
                uses_var(c[i], name, vars, depth)
            } else {
                false
            },
    )
}

/// The expression names the variable, or names a variable whose binding
/// uses it, through at most `depth` bindings.
pub open spec fn uses_var(e: ExprV, name: Seq<char>, vars: Seq<Binding>, depth: nat) -> bool
    decreases depth, e,
{
    match e {
        ExprV::Term(TermV::Var(v)) => v == name || (depth > 0 && match find(vars, v) {
            Some(b) => uses_var(b, name, vars, (depth - 1) as nat),
            None => false,
        }),
        ExprV::Term(_) => false,
        ExprV::Add(c) => any(var_hits(c, name, vars, depth)),
        ExprV::Mul(c) => any(var_hits(c, name, vars, depth)),
        ExprV::Pow(a, b) => uses_var(*a, name, vars, depth) || uses_var(*b, name, vars, depth),
        ExprV::Unary(_, a) => uses_var(*a, name, vars, depth),
        ExprV::Fn(_, args) => any(var_hits(args, name, vars, depth)),
    }
}

/// For each expression of a list, whether it calls the function.
pub open spec fn fn_hits(c: Seq<ExprV>, name: Seq<char>, fns: Seq<FuncV>, depth: nat) -> Seq<bool>
    decreases depth, c,
{
    Seq::new(
        c.len(),
        |i: int|
            if 0 <= i < c.len() {
                calls_fn(c[i], name, fns, depth)
            } else {
                false
            },
    )
}

/// The expression holds a call of the function, or a call of a function
/// whose body calls it, through at most `depth` bodies.
pub open spec fn calls_fn(e: ExprV, name: Seq<char>, fns: Seq<FuncV>, depth: nat) -> bool
    decreases depth, e,
{
    match e {
        ExprV::Term(_) => false,
        ExprV::Add(c) => any(fn_hits(c, name, fns, depth)),
        ExprV::Mul(c) => any(fn_hits(c, name, fns, depth)),
        ExprV::Pow(a, b) => calls_fn(*a, name, fns, depth) || calls_fn(*b, name, fns, depth),
        ExprV::Unary(_, a) => calls_fn(*a, name, fns, depth),
        ExprV::Fn(n, args) => n == name || any(fn_hits(args, name, fns, depth)) || (depth > 0
            && match find_fn(fns, n) {
            Some(f) => calls_fn(f.body, name, fns, (depth - 1) as nat),
            None => false,
        }),
    }
}

/// Whether one expression of a list uses the variable.
pub fn any_has_var(v: &Vec<Expr>, name: &String, vars: &Vec<Variable>, depth: usize) -> (r: bool)
    ensures
        r == any(var_hits(models(*v), name@, bindings(*vars), depth as nat)),
    decreases depth, v,
{
    let ghost hits = var_hits(models(*v), name@, bindings(*vars), depth as nat);
    let mut i: usize = 0;
    while i < v.len()
        invariant
            i <= v.len(),
            hits == var_hits(models(*v), name@, bindings(*vars), depth as nat),
            forall|j: int| 0 <= j < i ==> !hits[j],
        decreases v.len() - i,
    {
        assert(models(*v)[i as int] == v[i as int]@);
        if v[i].has_var_within(name, vars, depth) {
            assert(hits[i as int]);
            return true;
        }
        i = i + 1;
    }
    false
}

/// Whether one expression of a list calls the function.
pub fn any_has_fn(v: &Vec<Expr>, name: &String, fns: &Vec<Func>, depth: usize) -> (r: bool)
    ensures
        r == any(fn_hits(models(*v), name@, functions(*fns), depth as nat)),
    decreases depth, v,
{
    let ghost hits = fn_hits(models(*v), name@, functions(*fns), depth as nat);
    let mut i: usize = 0;
    while i < v.len()
        invariant
            i <= v.len(),
            hits == fn_hits(models(*v), name@, functions(*fns), depth as nat),
            forall|j: int| 0 <= j < i ==> !hits[j],
        decreases v.len() - i,
    {
        assert(models(*v)[i as int] == v[i as int]@);
        if v[i].has_fn_within(name, fns, depth) {
            assert(hits[i as int]);
            return true;
        }
        i = i + 1;
    }
    false
}

impl Expr {
    /// Checks if this expression tree contains a variable, looking through
    /// the variables it names to the given depth.
    pub fn has_var_within(&self, name: &String, vars: &Vec<Variable>, depth: usize) -> (r: bool)
        ensures
            r == uses_var(self@, name@, bindings(*vars), depth as nat),
        decreases depth, self,
    {
        match self {
            Expr::Term(Term::Var(v)) => {
                if *v == *name {
                    return true;
                }
                if depth == 0 {
                    return false;
                }
                match position(vars, v) {
                    Some(i) => {
                        assert(bindings(*vars)[i as int] == vars[i as int]@);
                        vars[i].value.has_var_within(name, vars, depth - 1)
                    },
                    None => false,
                }
            },
            Expr::Term(_) => false,
            Expr::Add(n) => any_has_var(n, name, vars, depth),
            Expr::Mul(n) => any_has_var(n, name, vars, depth),
            Expr::Pow(a, b) => a.has_var_within(name, vars, depth) || b.has_var_within(
                name,
                vars,
                depth,
            ),
            Expr::Unary(_, a) => a.has_var_within(name, vars, depth),
            Expr::Fn(_, args) => any_has_var(args, name, vars, depth),
        }
    }

    /// Checks if this expression tree contains a call of a function, looking
    /// through the bodies of the functions it calls to the given depth.
    pub fn has_fn_within(&self, name: &String, fns: &Vec<Func>, depth: usize) -> (r: bool)
        ensures
            r == calls_fn(self@, name@, functions(*fns), depth as nat),
        decreases depth, self,
    {
        match self {
            Expr::Term(_) => false,
            Expr::Add(n) => any_has_fn(n, name, fns, depth),
            Expr::Mul(n) => any_has_fn(n, name, fns, depth),
            Expr::Pow(a, b) => a.has_fn_within(name, fns, depth) || b.has_fn_within(
                name,
                fns,
                depth,
            ),
            Expr::Unary(_, a) => a.has_fn_within(name, fns, depth),
            Expr::Fn(n, args) => {
                if *n == *name {
                    return true;
                }
                if any_has_fn(args, name, fns, depth) {
                    return true;
                }
                if depth == 0 {
                    return false;
                }
                match fn_position(fns, n) {
                    Some(i) => {
                        assert(functions(*fns)[i as int] == fns[i as int]@);
                        fns[i].body.has_fn_within(name, fns, depth - 1)
                    },
                    None => false,
                }
            },
        }
    }
}

} // verus!

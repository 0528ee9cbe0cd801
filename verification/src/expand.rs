//! Variable expansion, parameter substitution and function inlining.
//!
//! A definition may lead back to itself through others. Expansion and
//! inlining therefore follow definitions only to a given depth, and yield
//! nothing where that depth does not suffice.

use vstd::prelude::*;
use crate::expr::{models, Expr, ExprV};
use crate::scope::{
    argument_position, bindings, find, find_fn, fn_position, functions, names, position, zipped,
    Binding, Func, FuncV, Variable,
};
use crate::context::ContextV;
use crate::normal::all;
use crate::resolved::{anything, clean_flags};
use crate::success::{closed, declared, declared_in, lemma_unfolded_declared};
use crate::term::{Term, TermV};

verus! {

/// The members of a list of outcomes where each is one; nothing where one of
/// them is none.
pub open spec fn gathered(s: Seq<Option<ExprV>>) -> Option<Seq<ExprV>> {
    if forall|i: int| 0 <= i < s.len() ==> (#[trigger] s[i]) is Some {
        Some(Seq::new(s.len(), |i: int| s[i].unwrap()))
    } else {
        None
    }
}

/// What the expansion of each expression of a list yields.
pub open spec fn expansions(c: Seq<ExprV>, vars: Seq<Binding>, depth: nat) -> Seq<Option<ExprV>>
    decreases depth, c,
{
    Seq::new(
        c.len(),
        |i: int|
            if 0 <= i < c.len() {
                expanded(c[i], vars, depth)
            } else {
                None
            },
    )
}

/// Each expression of a list with its variables expanded; nothing where one
/// of them cannot be expanded within the depth.
pub open spec fn expanded_each(c: Seq<ExprV>, vars: Seq<Binding>, depth: nat) -> Option<
    Seq<ExprV>,
> {
    gathered(expansions(c, vars, depth))
}

/// The expression with every variable that is bound in `vars` replaced by the
/// expression bound to it, itself expanded. A chain of more than `depth`
/// bindings, one inside the other, yields nothing.
pub open spec fn expanded(e: ExprV, vars: Seq<Binding>, depth: nat) -> Option<ExprV>
    decreases depth, e,
{
    match e {
        ExprV::Term(TermV::Var(n)) => match find(vars, n) {
            Some(b) => if depth == 0 {
                None
            } else {
                expanded(b, vars, (depth - 1) as nat)
            },
            None => Some(e),
        },
        ExprV::Term(_) => Some(e),
        ExprV::Add(c) => match gathered(expansions(c, vars, depth)) {
            Some(s) => Some(ExprV::Add(s)),
            None => None,
        },
        ExprV::Mul(c) => match gathered(expansions(c, vars, depth)) {
            Some(s) => Some(ExprV::Mul(s)),
            None => None,
        },
        ExprV::Pow(a, b) => match (expanded(*a, vars, depth), expanded(*b, vars, depth)) {
            (Some(x), Some(y)) => Some(ExprV::Pow(Box::new(x), Box::new(y))),
            _ => None,
        },
        ExprV::Unary(kind, a) => match expanded(*a, vars, depth) {
            Some(x) => Some(ExprV::Unary(kind, Box::new(x))),
            None => None,
        },
        ExprV::Fn(name, args) => match gathered(expansions(args, vars, depth)) {
            Some(s) => Some(ExprV::Fn(name, s)),
            None => None,
        },
    }
}

/// Each expression of a list after substitution.
pub open spec fn substituted_each(c: Seq<ExprV>, pairs: Seq<Binding>) -> Seq<ExprV>
    decreases c,
{
    Seq::new(
        c.len(),
        |i: int|
            if 0 <= i < c.len() {
                substituted(c[i], pairs)
            } else {
                ExprV::Add(Seq::empty())
            },
    )
}

/// The expression with every variable that `pairs` names replaced by the
/// expression paired with it. All are replaced at once: what is put in is not
/// looked through again.
pub open spec fn substituted(e: ExprV, pairs: Seq<Binding>) -> ExprV
    decreases e,
{
    match e {
        ExprV::Term(TermV::Var(n)) => match find(pairs, n) {
            Some(b) => b,
            None => e,
        },
        ExprV::Term(_) => e,
        ExprV::Add(c) => ExprV::Add(substituted_each(c, pairs)),
        ExprV::Mul(c) => ExprV::Mul(substituted_each(c, pairs)),
        ExprV::Pow(a, b) => ExprV::Pow(
            Box::new(substituted(*a, pairs)),
            Box::new(substituted(*b, pairs)),
        ),
        ExprV::Unary(kind, a) => ExprV::Unary(kind, Box::new(substituted(*a, pairs))),
        ExprV::Fn(name, args) => ExprV::Fn(name, substituted_each(args, pairs)),
    }
}

/// What the inlining of each expression of a list yields.
pub open spec fn inlinings(
    c: Seq<ExprV>,
    vars: Seq<Binding>,
    fns: Seq<FuncV>,
    depth: nat,
) -> Seq<Option<ExprV>>
    decreases depth, c,
{
    Seq::new(
        c.len(),
        |i: int|
            if 0 <= i < c.len() {
                inlined(c[i], vars, fns, depth)
            } else {
                None
            },
    )
}

/// Each expression of a list with its calls inlined; nothing where one of
/// them cannot be inlined.
pub open spec fn inlined_each(
    c: Seq<ExprV>,
    vars: Seq<Binding>,
    fns: Seq<FuncV>,
    depth: nat,
) -> Option<Seq<ExprV>> {
    gathered(inlinings(c, vars, fns, depth))
}

/// The expression with every call of a function that is not recursive
/// replaced by the function's body, the parameters substituted by the
/// arguments, the variables that `vars` binds expanded, and that body inlined
/// in turn. The arguments of a call are inlined first. A call of a recursive
/// function stays a call, with its arguments inlined. A call of a function
/// that is not declared, a body whose variables cannot be expanded, or more
/// than `depth` bodies one inside the other, yield nothing.
pub open spec fn inlined(e: ExprV, vars: Seq<Binding>, fns: Seq<FuncV>, depth: nat) -> Option<
    ExprV,
>
    decreases depth, e,
{
    match e {
        ExprV::Term(_) => Some(e),
        ExprV::Add(c) => match gathered(inlinings(c, vars, fns, depth)) {
            Some(s) => Some(ExprV::Add(s)),
            None => None,
        },
        ExprV::Mul(c) => match gathered(inlinings(c, vars, fns, depth)) {
            Some(s) => Some(ExprV::Mul(s)),
            None => None,
        },
        ExprV::Pow(a, b) => match (inlined(*a, vars, fns, depth), inlined(*b, vars, fns, depth)) {
            (Some(x), Some(y)) => Some(ExprV::Pow(Box::new(x), Box::new(y))),
            _ => None,
        },
        ExprV::Unary(kind, a) => match inlined(*a, vars, fns, depth) {
            Some(x) => Some(ExprV::Unary(kind, Box::new(x))),
            None => None,
        },
        ExprV::Fn(name, args) => match find_fn(fns, name) {
            Some(f) => match gathered(inlinings(args, vars, fns, depth)) {
                Some(given) => if f.recursive {
                    Some(ExprV::Fn(name, given))
                } else if depth == 0 {
                    None
                } else {
                    match expanded(substituted(f.body, zipped(f.args, given)), vars, vars.len()) {
                        Some(body) => inlined(body, vars, fns, (depth - 1) as nat),
                        None => None,
                    }
                },
                None => None,
            },
            None => None,
        },
    }
}

/// Each expression of a list with its variables expanded.
pub fn expand_all(v: &Vec<Expr>, vars: &Vec<Variable>, depth: usize) -> (r: Option<Vec<Expr>>)
    ensures
        match r {
            Some(out) => expanded_each(models(*v), bindings(*vars), depth as nat) == Some(
                models(out),
            ),
            None => expanded_each(models(*v), bindings(*vars), depth as nat) is None,
        },
    decreases depth, v,
{
    let ghost c = models(*v);
    let ghost b = bindings(*vars);
    let ghost s = expansions(c, b, depth as nat);
    let mut out: Vec<Expr> = Vec::new();
    let mut i: usize = 0;
    while i < v.len()
        invariant
            i <= v.len(),
            out.len() == i,
            c == models(*v),
            s == expansions(c, b, depth as nat),
            b == bindings(*vars),
            forall|j: int| 0 <= j < i ==> s[j] == Some(out[j]@),
        decreases v.len() - i,
    {
        assert(c[i as int] == v[i as int]@);
        match v[i].expand_vars(vars, depth) {
            Some(x) => {
                out.push(x);
            },
            None => {
                assert(s[i as int] is None);
                return None;
            },
        }
        i = i + 1;
    }
    assert(models(out) =~= gathered(s).unwrap());
    Some(out)
}

/// Each expression of a list after substitution.
pub fn substitute_all(v: &Vec<Expr>, params: &Vec<String>, args: &Vec<Expr>) -> (r: Vec<Expr>)
    ensures
        models(r) == substituted_each(models(*v), zipped(names(*params), models(*args))),
    decreases v,
{
    let mut out: Vec<Expr> = Vec::new();
    let mut i: usize = 0;
    while i < v.len()
        invariant
            i <= v.len(),
            out.len() == i,
            forall|j: int|
                0 <= j < i ==> out[j]@ == substituted(
                    v[j]@,
                    zipped(names(*params), models(*args)),
                ),
        decreases v.len() - i,
    {
        out.push(v[i].substitute(params, args));
        i = i + 1;
    }
    assert(models(out) =~= substituted_each(models(*v), zipped(names(*params), models(*args))));
    out
}

/// Each expression of a list with its calls inlined.
pub fn inline_all(v: &Vec<Expr>, vars: &Vec<Variable>, fns: &Vec<Func>, depth: usize) -> (r:
    Option<Vec<Expr>>)
    requires
        closed(ContextV { vars: bindings(*vars), fns: functions(*fns) }),
        all(clean_flags(models(*v), anything(), declared_in(functions(*fns)))),
    ensures
        match r {
            Some(out) => inlined_each(
                models(*v),
                bindings(*vars),
                functions(*fns),
                depth as nat,
            ) == Some(models(out)),
            None => inlined_each(models(*v), bindings(*vars), functions(*fns), depth as nat)
                is None,
        },
    decreases depth, v,
{
    let ghost c = models(*v);
    let ghost f = functions(*fns);
    let ghost b = bindings(*vars);
    let ghost s = inlinings(c, b, f, depth as nat);
    let mut out: Vec<Expr> = Vec::new();
    let mut i: usize = 0;
    while i < v.len()
        invariant
            i <= v.len(),
            out.len() == i,
            c == models(*v),
            b == bindings(*vars),
            s == inlinings(c, b, f, depth as nat),
            f == functions(*fns),
            closed(ContextV { vars: b, fns: f }),
            all(clean_flags(c, anything(), declared_in(f))),
            forall|j: int| 0 <= j < i ==> s[j] == Some(out[j]@),
        decreases v.len() - i,
    {
        assert(c[i as int] == v[i as int]@);
        assert(clean_flags(c, anything(), declared_in(f))[i as int]);
        match v[i].expand_funcs(vars, fns, depth) {
            Some(x) => {
                out.push(x);
            },
            None => {
                assert(s[i as int] is None);
                return None;
            },
        }
        i = i + 1;
    }
    assert(models(out) =~= gathered(s).unwrap());
    Some(out)
}

impl Term {
    /// The expression that the term stands for: for a variable that is bound
    /// in `vars`, the expression bound to it, expanded; else the term itself.
    pub fn expand_vars(&self, vars: &Vec<Variable>, depth: usize) -> (r: Option<Expr>)
        ensures
            match r {
                Some(x) => expanded(ExprV::Term(self@), bindings(*vars), depth as nat) == Some(x@),
                None => expanded(ExprV::Term(self@), bindings(*vars), depth as nat) is None,
            },
    {
        Expr::Term(self.clone()).expand_vars(vars, depth)
    }
}

impl Expr {
    /// Expand all instances of a variable into an expression.
    ///
    /// What a variable is replaced by is expanded in turn, to the given
    /// depth; a variable that `vars` does not bind stays.
    pub fn expand_vars(&self, vars: &Vec<Variable>, depth: usize) -> (r: Option<Expr>)
        ensures
            match r {
                Some(x) => expanded(self@, bindings(*vars), depth as nat) == Some(x@),
                None => expanded(self@, bindings(*vars), depth as nat) is None,
            },
        decreases depth, self,
    {
        match self {
            Expr::Term(Term::Var(n)) => match position(vars, n) {
                Some(i) => {
                    assert(bindings(*vars)[i as int] == vars[i as int]@);
                    if depth == 0 {
                        None
                    } else {
                        vars[i].value.expand_vars(vars, depth - 1)
                    }
                },
                None => Some(self.clone()),
            },
            Expr::Term(_) => Some(self.clone()),
            Expr::Add(n) => match expand_all(n, vars, depth) {
                Some(s) => Some(Expr::Add(s)),
                None => None,
            },
            Expr::Mul(n) => match expand_all(n, vars, depth) {
                Some(s) => Some(Expr::Mul(s)),
                None => None,
            },
            Expr::Pow(a, b) => match a.expand_vars(vars, depth) {
                Some(x) => match b.expand_vars(vars, depth) {
                    Some(y) => Some(Expr::Pow(Box::new(x), Box::new(y))),
                    None => None,
                },
                None => None,
            },
            Expr::Unary(kind, a) => match a.expand_vars(vars, depth) {
                Some(x) => Some(Expr::Unary(*kind, Box::new(x))),
                None => None,
            },
            Expr::Fn(name, args) => match expand_all(args, vars, depth) {
                Some(s) => Some(Expr::Fn(name.clone(), s)),
                None => None,
            },
        }
    }

    /// Replaces each parameter by the argument that stands for it, all at
    /// once.
    pub fn substitute(&self, params: &Vec<String>, args: &Vec<Expr>) -> (r: Expr)
        ensures
            r@ == substituted(self@, zipped(names(*params), models(*args))),
        decreases self,
    {
        match self {
            Expr::Term(Term::Var(n)) => match argument_position(params, args, n) {
                Some(i) => {
                    assert(zipped(names(*params), models(*args))[i as int].value == args[i as int]@);
                    args[i].clone()
                },
                None => self.clone(),
            },
            Expr::Term(_) => self.clone(),
            Expr::Add(n) => Expr::Add(substitute_all(n, params, args)),
            Expr::Mul(n) => Expr::Mul(substitute_all(n, params, args)),
            Expr::Pow(a, b) => Expr::Pow(
                Box::new(a.substitute(params, args)),
                Box::new(b.substitute(params, args)),
            ),
            Expr::Unary(kind, a) => Expr::Unary(*kind, Box::new(a.substitute(params, args))),
            Expr::Fn(name, n) => Expr::Fn(name.clone(), substitute_all(n, params, args)),
        }
    }

    /// Expand all instances of a function into an expression.
    ///
    /// A call of a function that is not recursive becomes the function's
    /// body, with the variables of the context expanded; a call of a
    /// recursive function stays.
    pub fn expand_funcs(&self, vars: &Vec<Variable>, fns: &Vec<Func>, depth: usize) -> (r: Option<
        Expr,
    >)
        requires
            closed(ContextV { vars: bindings(*vars), fns: functions(*fns) }),
            declared(self@, functions(*fns)),
        ensures
            match r {
                Some(x) => inlined(self@, bindings(*vars), functions(*fns), depth as nat) == Some(
                    x@,
                ),
                None => inlined(self@, bindings(*vars), functions(*fns), depth as nat) is None,
            },
        decreases depth, self,
    {
        match self {
            Expr::Term(_) => Some(self.clone()),
            Expr::Add(n) => match inline_all(n, vars, fns, depth) {
                Some(s) => Some(Expr::Add(s)),
                None => None,
            },
            Expr::Mul(n) => match inline_all(n, vars, fns, depth) {
                Some(s) => Some(Expr::Mul(s)),
                None => None,
            },
            Expr::Pow(a, b) => match a.expand_funcs(vars, fns, depth) {
                Some(x) => match b.expand_funcs(vars, fns, depth) {
                    Some(y) => Some(Expr::Pow(Box::new(x), Box::new(y))),
                    None => None,
                },
                None => None,
            },
            Expr::Unary(kind, a) => match a.expand_funcs(vars, fns, depth) {
                Some(x) => Some(Expr::Unary(*kind, Box::new(x))),
                None => None,
            },
            Expr::Fn(name, args) => match fn_position(fns, name) {
                Some(i) => {
                    assert(functions(*fns)[i as int] == fns[i as int]@);
                    match inline_all(args, vars, fns, depth) {
                        Some(given) => {
                            if fns[i].recursive {
                                Some(Expr::Fn(name.clone(), given))
                            } else if depth == 0 {
                                None
                            } else {
                                let body: Expr = fns[i].body.substitute(&fns[i].args, &given);
                                match body.expand_vars(vars, vars.len()) {
                                    Some(b) => {
                                        proof {
                                            lemma_unfolded_declared(
                                                ContextV {
                                                    vars: bindings(*vars),
                                                    fns: functions(*fns),
                                                },
                                                i as int,
                                                models(*args),
                                                depth as nat,
                                            );
                                        }
                                        b.expand_funcs(vars, fns, depth - 1)
                                    },
                                    None => None,
                                }
                            }
                        },
                        None => None,
                    }
                },
                None => {
                    proof {
                        assert(declared_in(functions(*fns))(name@));
                        assert(false);
                    }
                    None
                },
            },
        }
    }
}

} // verus!

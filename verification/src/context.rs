//! The context: the variables and functions that have been declared, the
//! check that none of them is illegally recursive, and the simplification and
//! evaluation of expressions against them.

use vstd::prelude::*;
use crate::check::{calls_fn, uses_var};
use crate::eval::{value, Scope};
use crate::expand::{expanded, inlined};
use crate::expr::{Expr, ExprV};
use crate::flatten::flat;
use crate::normal::{calls_recursive_only, free_of};
use crate::number::{oracle, usable, Arith, Op, Scalar, E_BITS, ONE_BITS, PI_BITS, ZERO_BITS};
use crate::reach::{
    lemma_call_search_is_reachability, lemma_var_search_is_reachability, reaches_fn, reaches_var,
};
use crate::reduce::reduced;
use crate::scope::{
    bindings, bound, defined, find, fn_position, functions, names, position, Binding, Func,
    FuncV, Variable,
};
use crate::special::special;
use crate::success::{closed, declared, lemma_closed_expanded, lemma_resolvable, resolvable};
use crate::term::{Term, TermV};

verus! {

/// The context of the input: every variable and function that was declared.
#[derive(Debug)]
pub struct Context {
    pub vars: Vec<Variable>,
    pub fns: Vec<Func>,
}

/// A context as contracts speak of it.
pub ghost struct ContextV {
    pub vars: Seq<Binding>,
    pub fns: Seq<FuncV>,
}

impl View for Context {
    type V = ContextV;

    open spec fn view(&self) -> ContextV {
        ContextV { vars: bindings(self.vars), fns: functions(self.fns) }
    }
}

/// The variables that every context starts with: Euler's number, the circle
/// constant and the imaginary unit.
pub open spec fn initial_vars() -> Seq<Binding> {
    seq![
        Binding { name: "e"@, value: ExprV::Term(TermV::Real(E_BITS)) },
        Binding { name: "pi"@, value: ExprV::Term(TermV::Real(PI_BITS)) },
        Binding { name: "i"@, value: ExprV::Term(TermV::Complex(ZERO_BITS, ONE_BITS)) },
    ]
}

/// What is reported of a variable that is defined through itself.
pub open spec fn var_message(name: Seq<char>) -> Seq<char> {
    "ERROR: variable "@ + name + " is recursive! variables cannot be recursive."@
}

/// What is reported of a function that calls itself without being labeled
/// recursive.
pub open spec fn fn_message(name: Seq<char>) -> Seq<char> {
    "ERROR: function "@ + name
        + " is recursive! functions that aren't labeled as so cannot be recursive.\n\t(Try adding `(recursive)` after the `fn` keyword)"@
}

/// The variable is defined through itself, directly or through a chain of
/// other variables.
pub open spec fn var_fault(vars: Seq<Binding>, i: int) -> bool {
    reaches_var(vars[i].value, vars[i].name, vars)
}

/// The function is not labeled recursive, and its body comes to a call of
/// it, directly or through the bodies of other functions.
pub open spec fn fn_fault(fns: Seq<FuncV>, i: int) -> bool {
    !fns[i].recursive && reaches_fn(fns[i].body, fns[i].name, fns)
}

/// The reports on the first `n` variables, in the order of declaration.
pub open spec fn var_faults(vars: Seq<Binding>, n: nat) -> Seq<Seq<char>>
    decreases n,
{
    if n == 0 {
        Seq::empty()
    } else {
        let before = var_faults(vars, (n - 1) as nat);
        if var_fault(vars, n - 1) {
            before.push(var_message(vars[n - 1].name))
        } else {
            before
        }
    }
}

/// The reports on the first `n` functions, in the order of declaration.
pub open spec fn fn_faults(fns: Seq<FuncV>, n: nat) -> Seq<Seq<char>>
    decreases n,
{
    if n == 0 {
        Seq::empty()
    } else {
        let before = fn_faults(fns, (n - 1) as nat);
        if fn_fault(fns, n - 1) {
            before.push(fn_message(fns[n - 1].name))
        } else {
            before
        }
    }
}

/// Every report on the context: one for each variable at fault, then one for
/// each function at fault.
pub open spec fn faults(c: ContextV) -> Seq<Seq<char>> {
    var_faults(c.vars, c.vars.len()) + fn_faults(c.fns, c.fns.len())
}

/// The texts of a list of strings.
pub open spec fn texts(v: Vec<String>) -> Seq<Seq<char>> {
    Seq::new(v.len() as nat, |i: int| v[i]@)
}

/// The expression after the whole pipeline: variables expanded, calls of
/// functions that are not recursive inlined, sums and products flattened,
/// constants folded, identity elements dropped. Nothing where a definition
/// leads deeper than the number of declarations, or a call names no declared
/// function.
pub open spec fn simplified(e: ExprV, c: ContextV, arith: Arith) -> Option<ExprV> {
    match expanded(e, c.vars, c.vars.len()) {
        Some(e1) => match inlined(e1, c.vars, c.fns, c.fns.len()) {
            Some(e2) => Some(special(reduced(flat(e2), arith))),
            None => None,
        },
        None => None,
    }
}

/// Those of the first `n` functions that are recursive and that the
/// expression comes to call, directly or through the bodies of other
/// functions, in the order of declaration.
pub open spec fn needed(e: ExprV, fns: Seq<FuncV>, n: nat) -> Seq<FuncV>
    decreases n,
{
    if n == 0 {
        Seq::empty()
    } else {
        let before = needed(e, fns, (n - 1) as nat);
        if fns[n - 1].recursive && reaches_fn(e, fns[n - 1].name, fns) {
            before.push(fns[n - 1])
        } else {
            before
        }
    }
}

impl Clone for Context {
    fn clone(&self) -> (r: Context)
        ensures
            r@ == self@,
    {
        let vars: Vec<Variable> = crate::eval::clone_variables(&self.vars);
        let mut fns: Vec<Func> = Vec::new();
        let mut i: usize = 0;
        while i < self.fns.len()
            invariant
                i <= self.fns.len(),
                fns.len() == i,
                forall|j: int| 0 <= j < i ==> fns[j]@ == self.fns[j]@,
            decreases self.fns.len() - i,
        {
            fns.push(self.fns[i].clone());
            i = i + 1;
        }
        assert(functions(fns) =~= functions(self.fns));
        Context { vars, fns }
    }
}

impl Expr {
    /// Checks if this expression tree contains a variable.
    /// Search includes other variables in a `Context`.
    pub fn has_var(&self, var: &String, c: &Context) -> (r: bool)
        ensures
            r == uses_var(self@, var@, c@.vars, c@.vars.len()),
            r == reaches_var(self@, var@, c@.vars),
    {
        proof {
            lemma_var_search_is_reachability(self@, var@, c@.vars);
        }
        self.has_var_within(var, &c.vars, c.vars.len())
    }

    /// Checks if this expression tree contains a function.
    /// Search includes other functions in a `Context`.
    pub fn has_fn(&self, name: &String, c: &Context) -> (r: bool)
        ensures
            r == calls_fn(self@, name@, c@.fns, c@.fns.len()),
            r == reaches_fn(self@, name@, c@.fns),
    {
        proof {
            lemma_call_search_is_reachability(self@, name@, c@.fns);
        }
        self.has_fn_within(name, &c.fns, c.fns.len())
    }
}

impl Context {
    /// A context with the constants `e`, `pi` and `i`.
    pub fn new() -> (r: Context)
        ensures
            r@.vars == initial_vars(),
            r@.fns == Seq::<FuncV>::empty(),
    {
        let mut vars: Vec<Variable> = Vec::new();
        vars.push(Variable { name: "e".to_owned(), value: Expr::Term(Term::Real(E_BITS)) });
        vars.push(Variable { name: "pi".to_owned(), value: Expr::Term(Term::Real(PI_BITS)) });
        vars.push(
            Variable { name: "i".to_owned(), value: Expr::Term(Term::Complex(ZERO_BITS, ONE_BITS)) },
        );
        let fns: Vec<Func> = Vec::new();
        assert(bindings(vars) =~= initial_vars());
        assert(functions(fns) =~= Seq::<FuncV>::empty());
        Context { vars, fns }
    }

    /// Declares a variable, or declares it anew.
    pub fn def_var(&mut self, var: &str, val: Expr)
        ensures
            final(self)@.vars == bound(old(self)@.vars, var@, val@),
            final(self)@.fns == old(self)@.fns,
    {
        let name: String = var.to_owned();
        let ghost before = bindings(self.vars);
        match position(&self.vars, &name) {
            Some(i) => {
                self.vars.set(i, Variable { name, value: val });
                assert(bindings(self.vars) =~= before.update(
                    i as int,
                    Binding { name: var@, value: val@ },
                ));
            },
            None => {
                self.vars.push(Variable { name, value: val });
                assert(bindings(self.vars) =~= before.push(Binding { name: var@, value: val@ }));
            },
        }
    }

    /// Declares a function, or declares it anew.
    pub fn def_func(&mut self, name: &str, recursive: bool, args: Vec<String>, body: Expr)
        ensures
            final(self)@.vars == old(self)@.vars,
            final(self)@.fns == defined(
                old(self)@.fns,
                FuncV { name: name@, recursive, args: names(args), body: body@ },
            ),
    {
        let f: Func = Func { name: name.to_owned(), recursive, args, body };
        let ghost before = functions(self.fns);
        let ghost fv = f@;
        match fn_position(&self.fns, &f.name) {
            Some(i) => {
                self.fns.set(i, f);
                assert(functions(self.fns) =~= before.update(i as int, fv));
            },
            None => {
                self.fns.push(f);
                assert(functions(self.fns) =~= before.push(fv));
            },
        }
    }

    /// Checks for illegal recursion. This includes:
    /// - Variables defined using themselves, even through other variables.
    /// - Functions not labeled as recursive calling themselves, even through
    ///   misdirection (`f` calls `g` & `g` calls `f`).
    ///
    /// Every violation is reported, not only the first.
    pub fn check_for_illigal_recursion(&self) -> (r: Result<(), Vec<String>>)
        ensures
            match r {
                Ok(_) => faults(self@).len() == 0,
                Err(errs) => errs.len() > 0 && texts(errs) == faults(self@),
            },
    {
        let mut errs: Vec<String> = Vec::new();
        let ghost vars = bindings(self.vars);
        let ghost fns = functions(self.fns);
        assert(texts(errs) =~= var_faults(vars, 0));
        let mut i: usize = 0;
        while i < self.vars.len()
            invariant
                i <= self.vars.len(),
                vars == bindings(self.vars),
                texts(errs) == var_faults(vars, i as nat),
            decreases self.vars.len() - i,
        {
            let ghost before = texts(errs);
            assert(vars[i as int] == self.vars[i as int]@);
            if self.vars[i].value.has_var(&self.vars[i].name, self) {
                let mut msg: String = String::from_str("ERROR: variable ");
                msg.append(self.vars[i].name.as_str());
                msg.append(" is recursive! variables cannot be recursive.");
                errs.push(msg);
                assert(texts(errs) =~= before.push(var_message(vars[i as int].name)));
            }
            i = i + 1;
        }
        let ghost first = texts(errs);
        assert(texts(errs) =~= first + fn_faults(fns, 0));
        let mut k: usize = 0;
        while k < self.fns.len()
            invariant
                k <= self.fns.len(),
                fns == functions(self.fns),
                texts(errs) == first + fn_faults(fns, k as nat),
            decreases self.fns.len() - k,
        {
            let ghost before = texts(errs);
            assert(fns[k as int] == self.fns[k as int]@);
            if !self.fns[k].recursive && self.fns[k].body.has_fn(&self.fns[k].name, self) {
                let mut msg: String = String::from_str("ERROR: function ");
                msg.append(self.fns[k].name.as_str());
                msg.append(
                    " is recursive! functions that aren't labeled as so cannot be recursive.\n\t(Try adding `(recursive)` after the `fn` keyword)",
                );
                errs.push(msg);
                assert(texts(errs) =~= before.push(fn_message(fns[k as int].name)));
            }
            k = k + 1;
        }
        if errs.len() == 0 {
            Ok(())
        } else {
            Err(errs)
        }
    }

    /// Those of the declared functions that are recursive and that the
    /// expression comes to call.
    pub fn needed_functions(&self, e: &Expr) -> (r: Vec<Func>)
        ensures
            functions(r) == needed(e@, self@.fns, self@.fns.len()),
    {
        let mut out: Vec<Func> = Vec::new();
        let ghost fns = functions(self.fns);
        assert(functions(out) =~= needed(e@, fns, 0));
        let mut i: usize = 0;
        while i < self.fns.len()
            invariant
                i <= self.fns.len(),
                fns == functions(self.fns),
                functions(out) == needed(e@, fns, i as nat),
            decreases self.fns.len() - i,
        {
            let ghost before = functions(out);
            assert(fns[i as int] == self.fns[i as int]@);
            if self.fns[i].recursive && e.has_fn(&self.fns[i].name, self) {
                out.push(self.fns[i].clone());
                assert(functions(out) =~= before.push(fns[i as int]));
            }
            i = i + 1;
        }
        out
    }

    /// Simplifies an expression against the context, and names the recursive
    /// functions that the result still needs.
    ///
    /// The result names no variable that the context binds and calls no
    /// function but recursive ones. Variables that the context does not bind
    /// stay, to be bound later. Every call, in the expression and in the
    /// context, is to name a declared function. There is a result wherever
    /// the context can be resolved.
    pub fn simplify<A: Fn(Op, Scalar, Scalar) -> Scalar>(&self, e: &Expr, arith: &A) -> (r: Option<
        (Expr, Vec<Func>),
    >)
        requires
            usable(arith),
            closed(self@),
            declared(e@, self@.fns),
        ensures
            match r {
                Some(p) => simplified(e@, self@, oracle(arith)) == Some(p.0@) && functions(p.1)
                    == needed(p.0@, self@.fns, self@.fns.len()) && free_of(p.0@, self@.vars)
                    && calls_recursive_only(p.0@, self@.fns),
                None => simplified(e@, self@, oracle(arith)) is None,
            },
            resolvable(self@) ==> r is Some,
    {
        proof {
            if resolvable(self@) {
                lemma_resolvable(e@, self@, oracle(arith));
            }
        }
        let e1: Expr = match e.expand_vars(&self.vars, self.vars.len()) {
            Some(x) => x,
            None => {
                return None;
            },
        };
        proof {
            lemma_closed_expanded(e@, self@);
        }
        let e2: Expr = match e1.expand_funcs(&self.vars, &self.fns, self.fns.len()) {
            Some(x) => x,
            None => {
                return None;
            },
        };
        let e3: Expr = e2.flatten();
        let e4: Expr = e3.reduce_const(arith);
        let e5: Expr = e4.special_cases();
        proof {
            crate::resolved::lemma_simplified_resolved(e@, self@, oracle(arith));
        }
        let funcs: Vec<Func> = self.needed_functions(&e5);
        Some((e5, funcs))
    }

    /// Simplifies a specific variable into an expression and recursive
    /// functions. The variable is one that the context declares.
    pub fn simplify_for_var<A: Fn(Op, Scalar, Scalar) -> Scalar>(&self, var: &str, arith: &A) -> (r:
        Option<(Expr, Vec<Func>)>)
        requires
            usable(arith),
            closed(self@),
            find(self@.vars, var@) is Some,
        ensures
            match r {
                Some(p) => simplified(find(self@.vars, var@).unwrap(), self@, oracle(arith))
                    == Some(p.0@) && functions(p.1) == needed(p.0@, self@.fns, self@.fns.len())
                    && free_of(p.0@, self@.vars) && calls_recursive_only(p.0@, self@.fns),
                None => simplified(find(self@.vars, var@).unwrap(), self@, oracle(arith)) is None,
            },
            resolvable(self@) ==> r is Some,
    {
        let name: String = var.to_owned();
        match position(&self.vars, &name) {
            Some(i) => {
                assert(bindings(self.vars)[i as int] == self.vars[i as int]@);
                assert(declared(self@.vars[i as int].value, self@.fns));
                self.simplify(&self.vars[i].value, arith)
            },
            None => {
                proof {
                    assert(false);
                }
                None
            },
        }
    }

    /// The value of an expression in the context, if it has one. Definitions
    /// are followed to the given depth.
    pub fn evaluate<A: Fn(Op, Scalar, Scalar) -> Scalar>(&self, e: &Expr, arith: &A, depth: usize)
        -> (r: Option<Term>)
        requires
            usable(arith),
        ensures
            ({
                let scope = Scope { vars: self@.vars, fns: self@.fns, arith: oracle(arith) };
                match r {
                    Some(t) => value(e@, scope, Seq::empty(), depth as nat) == Some(t@),
                    None => value(e@, scope, Seq::empty(), depth as nat) is None,
                }
            }),
    {
        let locals: Vec<Variable> = Vec::new();
        assert(bindings(locals) =~= Seq::<Binding>::empty());
        e.evaluate(&self.vars, &self.fns, &locals, arith, depth)
    }
}

} // verus!

//! The test that every call names a declared function.

use vstd::prelude::*;
use crate::context::Context;
use crate::expr::{models, Expr};
use crate::resolved::{anything, clean_flags};
use crate::scope::{bindings, fn_position, functions, Func};
use crate::success::{closed, declared, declared_in};

verus! {

/// Whether every call in the expressions of a list names a declared
/// function.
pub fn all_calls_declared(v: &Vec<Expr>, fns: &Vec<Func>) -> (r: bool)
    ensures
        r == crate::normal::all(clean_flags(models(*v), anything(), declared_in(functions(*fns)))),
    decreases v,
{
    let ghost flags = clean_flags(models(*v), anything(), declared_in(functions(*fns)));
    let mut i: usize = 0;
    while i < v.len()
        invariant
            i <= v.len(),
            flags == clean_flags(models(*v), anything(), declared_in(functions(*fns))),
            forall|j: int| 0 <= j < i ==> flags[j],
        decreases v.len() - i,
    {
        assert(models(*v)[i as int] == v[i as int]@);
        if !v[i].calls_declared(fns) {
            assert(!flags[i as int]);
            return false;
        }
        i = i + 1;
    }
    true
}

impl Expr {
    /// Whether every call in the expression names a declared function.
    pub fn calls_declared(&self, fns: &Vec<Func>) -> (r: bool)
        ensures
            r == declared(self@, functions(*fns)),
        decreases self,
    {
        match self {
            Expr::Term(_) => true,
            Expr::Add(n) => all_calls_declared(n, fns),
            Expr::Mul(n) => all_calls_declared(n, fns),
            Expr::Pow(a, b) => a.calls_declared(fns) && b.calls_declared(fns),
            Expr::Unary(_, a) => a.calls_declared(fns),
            Expr::Fn(name, args) => fn_position(fns, name).is_some() && all_calls_declared(
                args,
                fns,
            ),
        }
    }
}

impl Context {
    /// Whether every call in the binding of a variable and in the body of a
    /// function names a declared function.
    pub fn is_closed(&self) -> (r: bool)
        ensures
            r == closed(self@),
    {
        let mut i: usize = 0;
        while i < self.vars.len()
            invariant
                i <= self.vars.len(),
                forall|j: int| 0 <= j < i ==> declared((#[trigger] self@.vars[j]).value, self@.fns),
            decreases self.vars.len() - i,
        {
            assert(bindings(self.vars)[i as int] == self.vars[i as int]@);
            if !self.vars[i].value.calls_declared(&self.fns) {
                assert(!declared(self@.vars[i as int].value, self@.fns));
                return false;
            }
            i = i + 1;
        }
        let mut k: usize = 0;
        while k < self.fns.len()
            invariant
                k <= self.fns.len(),
                forall|j: int|
                    0 <= j < self.vars.len() ==> declared(
                        (#[trigger] self@.vars[j]).value,
                        self@.fns,
                    ),
                forall|j: int| 0 <= j < k ==> declared((#[trigger] self@.fns[j]).body, self@.fns),
            decreases self.fns.len() - k,
        {
            assert(functions(self.fns)[k as int] == self.fns[k as int]@);
            if !self.fns[k].body.calls_declared(&self.fns) {
                assert(!declared(self@.fns[k as int].body, self@.fns));
                return false;
            }
            k = k + 1;
        }
        true
    }
}

} // verus!

//! Named variables and functions, and how a name is looked up among them.
//!
//! Declarations are kept in the order in which they were made. Where a name
//! occurs more than once in a list, the last occurrence is the one in force.

use vstd::prelude::*;
use crate::expr::{models, Expr, ExprV};

verus! {

/// A variable and the expression bound to it.
#[derive(Debug)]
pub struct Variable {
    pub name: String,
    pub value: Expr,
}

/// A variable as contracts speak of it.
pub ghost struct Binding {
    pub name: Seq<char>,
    pub value: ExprV,
}

impl View for Variable {
    type V = Binding;

    open spec fn view(&self) -> Binding {
        Binding { name: self.name@, value: self.value@ }
    }
}

impl Clone for Variable {
    fn clone(&self) -> (r: Variable)
        ensures
            r@ == self@,
    {
        Variable { name: self.name.clone(), value: self.value.clone() }
    }
}

/// A user-defined function. Whether it may call itself is declared, not
/// inferred.
#[derive(Debug)]
pub struct Func {
    pub name: String,
    pub recursive: bool,
    pub args: Vec<String>,
    pub body: Expr,
}

/// A function as contracts speak of it.
pub ghost struct FuncV {
    pub name: Seq<char>,
    pub recursive: bool,
    pub args: Seq<Seq<char>>,
    pub body: ExprV,
}

/// The names of a parameter list.
pub open spec fn names(v: Vec<String>) -> Seq<Seq<char>> {
    Seq::new(v.len() as nat, |i: int| v[i]@)
}

impl View for Func {
    type V = FuncV;

    open spec fn view(&self) -> FuncV {
        FuncV {
            name: self.name@,
            recursive: self.recursive,
            args: names(self.args),
            body: self.body@,
        }
    }
}

/// A copy of a list of names.
pub fn clone_names(v: &Vec<String>) -> (r: Vec<String>)
    ensures
        names(r) == names(*v),
{
    let mut out: Vec<String> = Vec::new();
    let mut i: usize = 0;
    while i < v.len()
        invariant
            i <= v.len(),
            out.len() == i,
            forall|j: int| 0 <= j < i ==> out[j]@ == v[j]@,
        decreases v.len() - i,
    {
        out.push(v[i].clone());
        i = i + 1;
    }
    assert(names(out) =~= names(*v));
    out
}

impl Clone for Func {
    fn clone(&self) -> (r: Func)
        ensures
            r@ == self@,
    {
        Func {
            name: self.name.clone(),
            recursive: self.recursive,
            args: clone_names(&self.args),
            body: self.body.clone(),
        }
    }
}

/// The views of a list of variables, in order.
pub open spec fn bindings(v: Vec<Variable>) -> Seq<Binding> {
    Seq::new(v.len() as nat, |i: int| v[i]@)
}

/// The views of a list of functions, in order.
pub open spec fn functions(v: Vec<Func>) -> Seq<FuncV> {
    Seq::new(v.len() as nat, |i: int| v[i]@)
}

/// Where the name is bound in the list: the last place that holds it.
pub open spec fn place(vars: Seq<Binding>, name: Seq<char>) -> Option<int>
    decreases vars.len(),
{
    if vars.len() == 0 {
        None
    } else if vars.last().name == name {
        Some(vars.len() - 1)
    } else {
        place(vars.drop_last(), name)
    }
}

/// The expression bound to the name, if any.
pub open spec fn find(vars: Seq<Binding>, name: Seq<char>) -> Option<ExprV> {
    match place(vars, name) {
        Some(i) => Some(vars[i].value),
        None => None,
    }
}

/// Where the function of that name stands in the list: the last place that
/// holds it.
pub open spec fn fn_place(fns: Seq<FuncV>, name: Seq<char>) -> Option<int>
    decreases fns.len(),
{
    if fns.len() == 0 {
        None
    } else if fns.last().name == name {
        Some(fns.len() - 1)
    } else {
        fn_place(fns.drop_last(), name)
    }
}

/// The function of that name, if any.
pub open spec fn find_fn(fns: Seq<FuncV>, name: Seq<char>) -> Option<FuncV> {
    match fn_place(fns, name) {
        Some(i) => Some(fns[i]),
        None => None,
    }
}

/// The list after the name has been declared or declared anew.
pub open spec fn bound(vars: Seq<Binding>, name: Seq<char>, value: ExprV) -> Seq<Binding> {
    match place(vars, name) {
        Some(i) => vars.update(i, Binding { name, value }),
        None => vars.push(Binding { name, value }),
    }
}

/// The list after the function has been declared or declared anew.
pub open spec fn defined(fns: Seq<FuncV>, f: FuncV) -> Seq<FuncV> {
    match fn_place(fns, f.name) {
        Some(i) => fns.update(i, f),
        None => fns.push(f),
    }
}

/// The parameters of a call paired with its arguments, as far as both lists
/// reach.
pub open spec fn zipped(params: Seq<Seq<char>>, args: Seq<ExprV>) -> Seq<Binding> {
    Seq::new(
        if params.len() <= args.len() {
            params.len()
        } else {
            args.len()
        },
        |i: int| Binding { name: params[i], value: args[i] },
    )
}

/// A place that `place` names lies in the list and holds the name; no later
/// place does.
pub proof fn lemma_place(vars: Seq<Binding>, name: Seq<char>)
    ensures
        match place(vars, name) {
            Some(i) => 0 <= i < vars.len() && vars[i].name == name && forall|j: int|
                i < j < vars.len() ==> vars[j].name != name,
            None => forall|j: int| 0 <= j < vars.len() ==> vars[j].name != name,
        },
    decreases vars.len(),
{
    if vars.len() > 0 && vars.last().name != name {
        let rest = vars.drop_last();
        lemma_place(rest, name);
        assert(forall|j: int| 0 <= j < rest.len() ==> rest[j] == vars[j]);
    }
}

/// A place that `fn_place` names lies in the list and holds the name; no
/// later place does.
pub proof fn lemma_fn_place(fns: Seq<FuncV>, name: Seq<char>)
    ensures
        match fn_place(fns, name) {
            Some(i) => 0 <= i < fns.len() && fns[i].name == name && forall|j: int|
                i < j < fns.len() ==> fns[j].name != name,
            None => forall|j: int| 0 <= j < fns.len() ==> fns[j].name != name,
        },
    decreases fns.len(),
{
    if fns.len() > 0 && fns.last().name != name {
        let rest = fns.drop_last();
        lemma_fn_place(rest, name);
        assert(forall|j: int| 0 <= j < rest.len() ==> rest[j] == fns[j]);
    }
}

/// The last place of a list that holds the name is the one `place` names.
pub proof fn lemma_place_is(vars: Seq<Binding>, name: Seq<char>, i: int)
    requires
        0 <= i < vars.len(),
        vars[i].name == name,
        forall|j: int| i < j < vars.len() ==> vars[j].name != name,
    ensures
        place(vars, name) == Some(i),
    decreases vars.len(),
{
    if vars.last().name != name {
        lemma_place_is(vars.drop_last(), name, i);
    }
}

/// No place of the list holds the name, so `place` names none.
pub proof fn lemma_place_none(vars: Seq<Binding>, name: Seq<char>)
    requires
        forall|j: int| 0 <= j < vars.len() ==> vars[j].name != name,
    ensures
        place(vars, name) is None,
    decreases vars.len(),
{
    if vars.len() > 0 {
        lemma_place_none(vars.drop_last(), name);
    }
}

/// The last place of a list that holds the name is the one `fn_place` names.
pub proof fn lemma_fn_place_is(fns: Seq<FuncV>, name: Seq<char>, i: int)
    requires
        0 <= i < fns.len(),
        fns[i].name == name,
        forall|j: int| i < j < fns.len() ==> fns[j].name != name,
    ensures
        fn_place(fns, name) == Some(i),
    decreases fns.len(),
{
    if fns.last().name != name {
        lemma_fn_place_is(fns.drop_last(), name, i);
    }
}

/// No place of the list holds the name, so `fn_place` names none.
pub proof fn lemma_fn_place_none(fns: Seq<FuncV>, name: Seq<char>)
    requires
        forall|j: int| 0 <= j < fns.len() ==> fns[j].name != name,
    ensures
        fn_place(fns, name) is None,
    decreases fns.len(),
{
    if fns.len() > 0 {
        lemma_fn_place_none(fns.drop_last(), name);
    }
}

/// Where the name is bound in the list, if anywhere.
pub fn position(vars: &Vec<Variable>, name: &String) -> (r: Option<usize>)
    ensures
        match r {
            Some(i) => place(bindings(*vars), name@) == Some(i as int) && i < vars.len(),
            None => place(bindings(*vars), name@) is None,
        },
{
    let mut i: usize = vars.len();
    while i > 0
        invariant
            i <= vars.len(),
            forall|j: int| i <= j < vars.len() ==> bindings(*vars)[j].name != name@,
        decreases i,
    {
        i = i - 1;
        if vars[i].name == *name {
            proof {
                lemma_place_is(bindings(*vars), name@, i as int);
            }
            return Some(i);
        }
    }
    proof {
        lemma_place_none(bindings(*vars), name@);
    }
    None
}

/// Where the function of that name stands in the list, if anywhere.
pub fn fn_position(fns: &Vec<Func>, name: &String) -> (r: Option<usize>)
    ensures
        match r {
            Some(i) => fn_place(functions(*fns), name@) == Some(i as int) && i < fns.len(),
            None => fn_place(functions(*fns), name@) is None,
        },
{
    let mut i: usize = fns.len();
    while i > 0
        invariant
            i <= fns.len(),
            forall|j: int| i <= j < fns.len() ==> functions(*fns)[j].name != name@,
        decreases i,
    {
        i = i - 1;
        if fns[i].name == *name {
            proof {
                lemma_fn_place_is(functions(*fns), name@, i as int);
            }
            return Some(i);
        }
    }
    proof {
        lemma_fn_place_none(functions(*fns), name@);
    }
    None
}

/// Which argument stands for the name: that of the last parameter so named
/// that has an argument.
pub fn argument_position(params: &Vec<String>, args: &Vec<Expr>, name: &String) -> (r: Option<
    usize,
>)
    ensures
        match r {
            Some(i) => place(zipped(names(*params), models(*args)), name@) == Some(i as int) && i
                < args.len() && i < params.len(),
            None => place(zipped(names(*params), models(*args)), name@) is None,
        },
{
    let reach: usize = if params.len() <= args.len() {
        params.len()
    } else {
        args.len()
    };
    let ghost pairs = zipped(names(*params), models(*args));
    let mut i: usize = reach;
    while i > 0
        invariant
            i <= reach,
            reach <= params.len(),
            reach <= args.len(),
            pairs == zipped(names(*params), models(*args)),
            pairs.len() == reach,
            forall|j: int| i <= j < reach ==> pairs[j].name != name@,
        decreases i,
    {
        i = i - 1;
        if params[i] == *name {
            proof {
                lemma_place_is(pairs, name@, i as int);
            }
            return Some(i);
        }
    }
    proof {
        lemma_place_none(pairs, name@);
    }
    None
}

} // verus!

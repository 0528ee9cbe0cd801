//! The order in which terms and expressions precede one another: numbers
//! before variables before composite nodes, variables by name. Two numbers
//! precede each other, as do two composite nodes; the order says where a
//! child stands in a sum or product, not which number is larger.

use std::cmp::Ordering;
use vstd::prelude::*;
use vstd::std_specs::cmp::PartialOrdSpecImpl;
use crate::expr::{Expr, ExprV};
use crate::order::{
    keep, lemma_sorted_members, lemma_sorted_ordered, name_le, names_in_order, reordered, sorted,
};
use crate::reduce::lemma_keep_order;
use crate::reducedness::{every, lemma_sorted_every, Test};
use crate::term::{Term, TermV};

verus! {

/// How two names stand to each other.
pub open spec fn names_compared(a: Seq<char>, b: Seq<char>) -> Ordering {
    if name_le(a, b) && name_le(b, a) {
        Ordering::Equal
    } else if name_le(a, b) {
        Ordering::Less
    } else {
        Ordering::Greater
    }
}

/// How two terms stand to each other: a number before a variable, two
/// variables as their names, two numbers as equals.
pub open spec fn terms_compared(a: TermV, b: TermV) -> Ordering {
    match (a, b) {
        (TermV::Var(x), TermV::Var(y)) => names_compared(x, y),
        (TermV::Var(_), _) => Ordering::Greater,
        (_, TermV::Var(_)) => Ordering::Less,
        _ => Ordering::Equal,
    }
}

/// How two expressions stand to each other: two leaves as their terms, and
/// else by their ordering keys.
pub open spec fn exprs_compared(a: ExprV, b: ExprV) -> Ordering {
    match (a, b) {
        (ExprV::Term(x), ExprV::Term(y)) => terms_compared(x, y),
        _ => if a.order() < b.order() {
            Ordering::Less
        } else if a.order() == b.order() {
            Ordering::Equal
        } else {
            Ordering::Greater
        },
    }
}

impl PartialOrd for Term {
    fn partial_cmp(&self, other: &Term) -> (r: Option<Ordering>) {
        match (self, other) {
            (Term::Var(a), Term::Var(b)) => {
                let forth: bool = names_in_order(a.as_str(), b.as_str());
                let back: bool = names_in_order(b.as_str(), a.as_str());
                if forth && back {
                    Some(Ordering::Equal)
                } else if forth {
                    Some(Ordering::Less)
                } else {
                    Some(Ordering::Greater)
                }
            },
            (Term::Var(_), _) => Some(Ordering::Greater),
            (_, Term::Var(_)) => Some(Ordering::Less),
            _ => Some(Ordering::Equal),
        }
    }
}

impl PartialOrdSpecImpl for Term {
    open spec fn obeys_partial_cmp_spec() -> bool {
        true
    }

    open spec fn partial_cmp_spec(&self, other: &Term) -> Option<Ordering> {
        Some(terms_compared(self@, other@))
    }
}

impl PartialOrd for Expr {
    fn partial_cmp(&self, other: &Expr) -> (r: Option<Ordering>) {
        match (self, other) {
            (Expr::Term(a), Expr::Term(b)) => a.partial_cmp(b),
            _ => {
                let x: u8 = self.order_num();
                let y: u8 = other.order_num();
                if x < y {
                    Some(Ordering::Less)
                } else if x == y {
                    Some(Ordering::Equal)
                } else {
                    Some(Ordering::Greater)
                }
            },
        }
    }
}

impl PartialOrdSpecImpl for Expr {
    open spec fn obeys_partial_cmp_spec() -> bool {
        true
    }

    open spec fn partial_cmp_spec(&self, other: &Expr) -> Option<Ordering> {
        Some(exprs_compared(self@, other@))
    }
}

/// The children of a sum or product, once reordered, stand in the order of
/// precedence: none is preceded by the one behind it without preceding it.
pub proof fn lemma_reordered_ordered(c: Seq<ExprV>)
    ensures
        forall|i: int|
            0 <= i < reordered(c).len() - 1 ==> exprs_compared(
                #[trigger] reordered(c)[i],
                reordered(c)[i + 1],
            ) != Ordering::Greater,
{
    let numbers = keep(c, 0);
    let variables = sorted(keep(c, 1));
    let composite = keep(c, 2);
    let r = reordered(c);
    lemma_keep_order(c, 0);
    lemma_keep_order(c, 1);
    lemma_keep_order(c, 2);
    let ones: Test = |x: ExprV| x.order() == 1;
    assert(every(keep(c, 1), ones));
    lemma_sorted_every(keep(c, 1), ones);
    lemma_sorted_ordered(keep(c, 1));
    assert forall|i: int| 0 <= i < r.len() implies (#[trigger] r[i]).order() == (if i
        < numbers.len() {
        0u8
    } else if i < numbers.len() + variables.len() {
        1u8
    } else {
        2u8
    }) by {
        if i < numbers.len() {
            assert(r[i] == numbers[i]);
        } else if i < numbers.len() + variables.len() {
            assert(r[i] == variables[i - numbers.len()]);
            assert(ones(variables[i - numbers.len()]));
        } else {
            assert(r[i] == composite[i - numbers.len() - variables.len()]);
        }
    }
    assert forall|i: int| 0 <= i < r.len() - 1 implies exprs_compared(#[trigger] r[i], r[i + 1])
        != Ordering::Greater by {
        assert(r[i + 1].order() >= r[i].order());
        if numbers.len() <= i && i + 1 < numbers.len() + variables.len() {
            let k = i - numbers.len();
            assert(r[i] == variables[k]);
            assert(r[i + 1] == variables[k + 1]);
            assert(name_le(variables[k].key(), variables[k + 1].key()));
        }
    }
}

/// Reordering rearranges: it keeps every child, each as often as it stood.
pub proof fn lemma_reordered_members(c: Seq<ExprV>)
    ensures
        reordered(c).to_multiset() == c.to_multiset(),
    decreases c.len(),
{
    lemma_kept_members(c);
    lemma_sorted_members(keep(c, 1));
    vstd::seq_lib::lemma_multiset_commutative(keep(c, 0), sorted(keep(c, 1)));
    vstd::seq_lib::lemma_multiset_commutative(keep(c, 0) + sorted(keep(c, 1)), keep(c, 2));
    vstd::seq_lib::lemma_multiset_commutative(keep(c, 0), keep(c, 1));
    vstd::seq_lib::lemma_multiset_commutative(keep(c, 0) + keep(c, 1), keep(c, 2));
}

/// The members of the three keys together are the members of the list.
pub proof fn lemma_kept_members(c: Seq<ExprV>)
    ensures
        (keep(c, 0) + keep(c, 1) + keep(c, 2)).to_multiset() == c.to_multiset(),
    decreases c.len(),
{
    let a = keep(c, 0);
    let b = keep(c, 1);
    let d = keep(c, 2);
    vstd::seq_lib::lemma_multiset_commutative(a, b);
    vstd::seq_lib::lemma_multiset_commutative(a + b, d);
    if c.len() == 0 {
        assert(a + b + d =~= c);
    } else {
        let rest = c.drop_last();
        let x = c.last();
        lemma_kept_members(rest);
        let a0 = keep(rest, 0);
        let b0 = keep(rest, 1);
        let d0 = keep(rest, 2);
        vstd::seq_lib::lemma_multiset_commutative(a0, b0);
        vstd::seq_lib::lemma_multiset_commutative(a0 + b0, d0);
        vstd::seq_lib::to_multiset_build(rest, x);
        assert(rest.push(x) =~= c);
        vstd::seq_lib::to_multiset_build(a0, x);
        vstd::seq_lib::to_multiset_build(b0, x);
        vstd::seq_lib::to_multiset_build(d0, x);
        let m = a0.to_multiset().add(b0.to_multiset()).add(d0.to_multiset());
        assert(a.to_multiset().add(b.to_multiset()).add(d.to_multiset()) =~= m.insert(x));
    }
}

} // verus!

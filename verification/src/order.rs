//! The order of the children of a sum or product.
//!
//! Numbers come first, then variables, then composite nodes. Numbers and
//! composite nodes keep the order in which they stood; variables are put in
//! the lexicographic order of their names, and variables of one name keep the
//! order in which they stood.

use vstd::prelude::*;
use crate::expr::{models, Expr, ExprV};
use crate::term::{Term, TermV};

verus! {

/// The lexicographic order of two names, read from place `i` on, where the
/// names agree before `i`.
pub open spec fn name_le_from(a: Seq<char>, b: Seq<char>, i: int) -> bool
    decreases a.len() - i,
{
    if i < 0 || i >= a.len() {
        true
    } else if i >= b.len() {
        false
    } else if a[i] != b[i] {
        (a[i] as u32) <= (b[i] as u32)
    } else {
        name_le_from(a, b, i + 1)
    }
}

/// `a` comes no later than `b` in the lexicographic order of names.
pub open spec fn name_le(a: Seq<char>, b: Seq<char>) -> bool {
    name_le_from(a, b, 0)
}

/// Of two names, one comes no later than the other.
pub proof fn lemma_name_le_total(a: Seq<char>, b: Seq<char>, i: int)
    requires
        0 <= i,
    ensures
        name_le_from(a, b, i) || name_le_from(b, a, i),
    decreases a.len() - i,
{
    if i < a.len() && i < b.len() && a[i] == b[i] {
        lemma_name_le_total(a, b, i + 1);
    }
}

/// Whether `a` comes no later than `b` in the lexicographic order of names.
pub fn names_in_order(a: &str, b: &str) -> (r: bool)
    ensures
        r == name_le(a@, b@),
{
    let n: usize = a.unicode_len();
    let m: usize = b.unicode_len();
    let mut i: usize = 0;
    while i < n
        invariant
            i <= n,
            n == a@.len(),
            m == b@.len(),
            name_le(a@, b@) == name_le_from(a@, b@, i as int),
        decreases n - i,
    {
        if i >= m {
            return false;
        }
        let x: char = a.get_char(i);
        let y: char = b.get_char(i);
        if x != y {
            return (x as u32) <= (y as u32);
        }
        i = i + 1;
    }
    true
}

impl ExprV {
    /// The name by which a variable is ordered; empty for any other node.
    pub open spec fn key(self) -> Seq<char> {
        match self {
            ExprV::Term(TermV::Var(n)) => n,
            _ => Seq::empty(),
        }
    }

    /// A sum or product with its children in order; any other node as it is.
    pub open spec fn reordered(self) -> ExprV {
        match self {
            ExprV::Add(c) => ExprV::Add(reordered(c)),
            ExprV::Mul(c) => ExprV::Mul(reordered(c)),
            _ => self,
        }
    }
}

/// The members of a list that have the given ordering key, in their order.
pub open spec fn keep(c: Seq<ExprV>, order: u8) -> Seq<ExprV>
    decreases c.len(),
{
    if c.len() == 0 {
        Seq::empty()
    } else if c.last().order() == order {
        keep(c.drop_last(), order).push(c.last())
    } else {
        keep(c.drop_last(), order)
    }
}

/// A list ordered by name with one more member put in: behind every member
/// whose name comes no later than its own.
pub open spec fn placed(s: Seq<ExprV>, x: ExprV) -> Seq<ExprV>
    decreases s.len(),
{
    if s.len() == 0 {
        seq![x]
    } else if name_le(s.last().key(), x.key()) {
        s.push(x)
    } else {
        placed(s.drop_last(), x).push(s.last())
    }
}

/// The list in the order of its members' names; members of one name keep
/// their order.
pub open spec fn sorted(s: Seq<ExprV>) -> Seq<ExprV>
    decreases s.len(),
{
    if s.len() == 0 {
        Seq::empty()
    } else {
        placed(sorted(s.drop_last()), s.last())
    }
}

/// No member's name comes later than that of the member behind it.
pub open spec fn in_name_order(s: Seq<ExprV>) -> bool {
    forall|i: int| 0 <= i < s.len() - 1 ==> name_le(#[trigger] s[i].key(), s[i + 1].key())
}

/// The children of a sum or product in order: numbers, variables by name,
/// composite nodes.
pub open spec fn reordered(c: Seq<ExprV>) -> Seq<ExprV> {
    keep(c, 0) + sorted(keep(c, 1)) + keep(c, 2)
}

/// Putting a member in behind place `k` is what `placed` does, where the
/// member at `k - 1` comes no later and all from `k` on come later.
pub proof fn lemma_placed_at(s: Seq<ExprV>, x: ExprV, k: int)
    requires
        0 <= k <= s.len(),
        k > 0 ==> name_le(s[k - 1].key(), x.key()),
        forall|j: int| k <= j < s.len() ==> !name_le(#[trigger] s[j].key(), x.key()),
    ensures
        placed(s, x) == s.insert(k, x),
    decreases s.len(),
{
    if s.len() == 0 {
        assert(s.insert(k, x) =~= seq![x]);
    } else if k == s.len() {
        assert(s.insert(k, x) =~= s.push(x));
    } else {
        let rest = s.drop_last();
        assert(!name_le(s[s.len() - 1].key(), x.key()));
        assert(forall|j: int| k <= j < rest.len() ==> rest[j] == s[j]);
        lemma_placed_at(rest, x, k);
        assert(rest.insert(k, x).push(s.last()) =~= s.insert(k, x));
    }
}

/// The members of a list that have the given ordering key, copied in their
/// order.
pub fn select(v: &Vec<Expr>, order: u8) -> (r: Vec<Expr>)
    ensures
        models(r) == keep(models(*v), order),
{
    let mut out: Vec<Expr> = Vec::new();
    let mut i: usize = 0;
    assert(models(*v).take(0) =~= Seq::empty());
    assert(models(out) =~= Seq::empty());
    while i < v.len()
        invariant
            i <= v.len(),
            models(out) == keep(models(*v).take(i as int), order),
        decreases v.len() - i,
    {
        let ghost before = models(out);
        proof {
            let c = models(*v);
            assert(c.take(i + 1).drop_last() =~= c.take(i as int));
            assert(c.take(i + 1).last() == v[i as int]@);
        }
        if v[i].order_num() == order {
            out.push(v[i].clone());
            assert(models(out) =~= before.push(v[i as int]@));
        }
        i = i + 1;
    }
    assert(models(*v).take(v.len() as int) =~= models(*v));
    out
}

/// The name by which an expression is ordered.
fn key_of(e: &Expr) -> (r: &str)
    ensures
        r@ == e@.key(),
{
    match e {
        Expr::Term(Term::Var(n)) => n.as_str(),
        _ => {
            let empty: &str = "";
            proof {
                reveal_strlit("");
            }
            assert(empty@ =~= Seq::<char>::empty());
            empty
        },
    }
}

/// Puts one more member into a list ordered by name.
fn place_by_name(v: &mut Vec<Expr>, x: Expr)
    ensures
        models(*final(v)) == placed(models(*old(v)), x@),
{
    let ghost before = models(*v);
    let mut k: usize = v.len();
    while k > 0 && !names_in_order(key_of(&v[k - 1]), key_of(&x))
        invariant
            k <= v.len(),
            before == models(*v),
            forall|j: int| k <= j < v.len() ==> !name_le(#[trigger] before[j].key(), x@.key()),
        decreases k,
    {
        k = k - 1;
    }
    proof {
        lemma_placed_at(before, x@, k as int);
    }
    v.insert(k, x);
    assert(models(*v) =~= before.insert(k as int, x@));
}

/// A copy of the list in the order of its members' names.
pub fn sort_by_name(v: &Vec<Expr>) -> (r: Vec<Expr>)
    ensures
        models(r) == sorted(models(*v)),
{
    let mut out: Vec<Expr> = Vec::new();
    let mut i: usize = 0;
    assert(models(*v).take(0) =~= Seq::empty());
    assert(models(out) =~= Seq::empty());
    while i < v.len()
        invariant
            i <= v.len(),
            models(out) == sorted(models(*v).take(i as int)),
        decreases v.len() - i,
    {
        proof {
            let c = models(*v);
            assert(c.take(i + 1).drop_last() =~= c.take(i as int));
            assert(c.take(i + 1).last() == v[i as int]@);
        }
        place_by_name(&mut out, v[i].clone());
        i = i + 1;
    }
    assert(models(*v).take(v.len() as int) =~= models(*v));
    out
}

/// A copy of the list in the order of the children of a sum or product.
pub fn reorder_all(v: &Vec<Expr>) -> (r: Vec<Expr>)
    ensures
        models(r) == reordered(models(*v)),
{
    let mut out: Vec<Expr> = select(v, 0);
    let variables: Vec<Expr> = select(v, 1);
    let mut ordered: Vec<Expr> = sort_by_name(&variables);
    let mut rest: Vec<Expr> = select(v, 2);
    let ghost a = models(out);
    let ghost b = models(ordered);
    let ghost c = models(rest);
    out.append(&mut ordered);
    assert(models(out) =~= a + b);
    out.append(&mut rest);
    assert(models(out) =~= a + b + c);
    out
}

impl Expr {
    /// Reorders the children of a sum or product: numbers first, then
    /// variables by name, then composite nodes. Any other node is copied.
    pub fn reorder(&self) -> (r: Expr)
        ensures
            r@ == self@.reordered(),
    {
        match self {
            Expr::Add(n) => Expr::Add(reorder_all(n)),
            Expr::Mul(n) => Expr::Mul(reorder_all(n)),
            _ => self.clone(),
        }
    }
}

/// Putting a member in makes the list one longer; the new list ends with
/// that member or with the member that the list ended with.
pub proof fn lemma_placed_end(s: Seq<ExprV>, x: ExprV)
    ensures
        placed(s, x).len() == s.len() + 1,
        placed(s, x).last() == x || (s.len() > 0 && placed(s, x).last() == s.last() && !name_le(
            s.last().key(),
            x.key(),
        )),
    decreases s.len(),
{
    if s.len() > 0 && !name_le(s.last().key(), x.key()) {
        lemma_placed_end(s.drop_last(), x);
    }
}

/// Putting a member into a list that is in the order of names leaves it in
/// that order.
pub proof fn lemma_placed_ordered(s: Seq<ExprV>, x: ExprV)
    requires
        in_name_order(s),
    ensures
        in_name_order(placed(s, x)),
    decreases s.len(),
{
    if s.len() == 0 {
    } else if name_le(s.last().key(), x.key()) {
        let r = s.push(x);
        assert forall|i: int| 0 <= i < r.len() - 1 implies name_le(
            #[trigger] r[i].key(),
            r[i + 1].key(),
        ) by {
            if i < s.len() - 1 {
                assert(name_le(s[i].key(), s[i + 1].key()));
            }
        }
    } else {
        let t = s.drop_last();
        assert forall|i: int| 0 <= i < t.len() - 1 implies name_le(
            #[trigger] t[i].key(),
            t[i + 1].key(),
        ) by {
            assert(name_le(s[i].key(), s[i + 1].key()));
        }
        lemma_placed_ordered(t, x);
        lemma_placed_end(t, x);
        let p = placed(t, x);
        let r = p.push(s.last());
        lemma_name_le_total(s.last().key(), x.key(), 0);
        if t.len() > 0 {
            assert(name_le(s[t.len() - 1].key(), s[t.len() - 1 + 1].key()));
        }
        assert(name_le(p.last().key(), s.last().key()));
        assert forall|i: int| 0 <= i < r.len() - 1 implies name_le(
            #[trigger] r[i].key(),
            r[i + 1].key(),
        ) by {
            if i < p.len() - 1 {
                assert(name_le(p[i].key(), p[i + 1].key()));
            }
        }
    }
}

/// A sorted list is in the order of its members' names.
pub proof fn lemma_sorted_ordered(s: Seq<ExprV>)
    ensures
        in_name_order(sorted(s)),
    decreases s.len(),
{
    if s.len() > 0 {
        lemma_sorted_ordered(s.drop_last());
        lemma_placed_ordered(sorted(s.drop_last()), s.last());
    }
}

/// Putting a member in adds that member and nothing else.
pub proof fn lemma_placed_members(s: Seq<ExprV>, x: ExprV)
    ensures
        placed(s, x).to_multiset() == s.to_multiset().insert(x),
    decreases s.len(),
{
    if s.len() == 0 {
        assert(seq![x] =~= s.push(x));
        vstd::seq_lib::to_multiset_build(s, x);
    } else if name_le(s.last().key(), x.key()) {
        vstd::seq_lib::to_multiset_build(s, x);
    } else {
        let t = s.drop_last();
        lemma_placed_members(t, x);
        vstd::seq_lib::to_multiset_build(placed(t, x), s.last());
        vstd::seq_lib::to_multiset_build(t, s.last());
        assert(t.push(s.last()) =~= s);
        assert(t.to_multiset().insert(x).insert(s.last()) =~= t.to_multiset().insert(
            s.last(),
        ).insert(x));
    }
}

/// Sorting rearranges: the sorted list holds each member as often as the
/// list did.
pub proof fn lemma_sorted_members(s: Seq<ExprV>)
    ensures
        sorted(s).to_multiset() == s.to_multiset(),
    decreases s.len(),
{
    if s.len() > 0 {
        let t = s.drop_last();
        lemma_sorted_members(t);
        lemma_placed_members(sorted(t), s.last());
        vstd::seq_lib::to_multiset_build(t, s.last());
        assert(t.push(s.last()) =~= s);
    } else {
        assert(sorted(s) =~= s);
    }
}

/// Sorting leaves a list that is in the order of names as it is.
pub proof fn lemma_sorted_fixed(s: Seq<ExprV>)
    requires
        in_name_order(s),
    ensures
        sorted(s) == s,
    decreases s.len(),
{
    if s.len() > 0 {
        let t = s.drop_last();
        assert forall|i: int| 0 <= i < t.len() - 1 implies name_le(
            #[trigger] t[i].key(),
            t[i + 1].key(),
        ) by {
            assert(name_le(s[i].key(), s[i + 1].key()));
        }
        lemma_sorted_fixed(t);
        if t.len() > 0 {
            assert(name_le(s[t.len() - 1].key(), s[t.len() - 1 + 1].key()));
        }
        assert(t.push(s.last()) =~= s);
    } else {
        assert(sorted(s) =~= s);
    }
}

} // verus!

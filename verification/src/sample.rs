//! Sampling: a variable of the context is evaluated at evenly spaced points
//! of a range, or of a grid of two ranges.
//!
//! The points of a range are counted from zero. A run may take any stretch of
//! them, so that a range can be shared out among workers: the stretches, put
//! together in order, are the run over the whole range.

use vstd::prelude::*;
use crate::context::{simplified, Context, ContextV};
use crate::eval::{value, Scope};
use crate::expr::{Expr, ExprV};
use crate::number::{
    binary, binary_result, count, count_result, oracle, usable, Arith, Op, Scalar,
};
use crate::scope::{bound, find, position};
use crate::success::closed;
use crate::term::{Term, TermV};

verus! {

impl Scalar {
    /// The real part, as a bit pattern.
    pub open spec fn real_bits(self) -> u64 {
        match self {
            Scalar::Real(a) => a,
            Scalar::Complex(re, _) => re,
        }
    }

    /// The real part, as a bit pattern.
    pub fn real_part(&self) -> (r: u64)
        ensures
            r == self.real_bits(),
    {
        match self {
            Scalar::Real(a) => *a,
            Scalar::Complex(re, _) => *re,
        }
    }
}

/// The point of index `i` among the `steps + 1` evenly spaced points from
/// `start` to `end`: `start + (end - start) / steps * i`.
pub open spec fn coordinate(start: u64, end: u64, steps: u64, i: u64, arith: Arith) -> u64 {
    let span = binary_result(Op::Sub, Scalar::Real(end), Scalar::Real(start), arith);
    let step = binary_result(Op::Div, span, count_result(steps, arith), arith);
    let offset = binary_result(Op::Mul, step, count_result(i, arith), arith);
    binary_result(Op::Add, Scalar::Real(start), offset, arith).real_bits()
}

/// The view of an outcome.
pub open spec fn outcome(o: Option<Term>) -> Option<TermV> {
    match o {
        Some(t) => Some(t@),
        None => None,
    }
}

/// The views of a list of samples over one range.
pub open spec fn samples_view(v: Vec<(u64, Option<Term>)>) -> Seq<(u64, Option<TermV>)> {
    Seq::new(v.len() as nat, |i: int| (v[i].0, outcome(v[i].1)))
}

/// The views of a list of samples over a grid.
pub open spec fn grid_view(v: Vec<(u64, u64, Option<Term>)>) -> Seq<(u64, u64, Option<TermV>)> {
    Seq::new(v.len() as nat, |i: int| (v[i].0, v[i].1, outcome(v[i].2)))
}

/// The context with the swept variable bound to a point.
pub open spec fn swept(c: ContextV, sweep: Seq<char>, x: u64) -> ContextV {
    ContextV { vars: bound(c.vars, sweep, ExprV::Term(TermV::Real(x))), fns: c.fns }
}

/// The value of the target variable where the swept variable is bound to the
/// point `x`.
pub open spec fn sample_at(
    c: ContextV,
    target: Seq<char>,
    sweep: Seq<char>,
    x: u64,
    arith: Arith,
    depth: nat,
) -> Option<TermV> {
    let at = swept(c, sweep, x);
    value(
        ExprV::Term(TermV::Var(target)),
        Scope { vars: at.vars, fns: at.fns, arith },
        Seq::empty(),
        depth,
    )
}

/// The range that a sweep covers and the number of steps it is cut into.
#[derive(Clone, Copy, Debug)]
pub struct Sweep {
    /// The bit pattern of the first point.
    pub start: u64,
    /// The bit pattern of the last point.
    pub end: u64,
    /// The number of steps; there is one point more.
    pub steps: u64,
}

impl Sweep {
    /// The point of index `i`.
    pub open spec fn point(self, i: int, arith: Arith) -> u64 {
        coordinate(self.start, self.end, self.steps, i as u64, arith)
    }

    /// The point of index `i`.
    pub fn point_at<A: Fn(Op, Scalar, Scalar) -> Scalar>(&self, i: u64, arith: &A) -> (r: u64)
        requires
            usable(arith),
        ensures
            r == self.point(i as int, oracle(arith)),
    {
        let span: Scalar = binary(Op::Sub, Scalar::Real(self.end), Scalar::Real(self.start), arith);
        let step: Scalar = binary(Op::Div, span, count(self.steps, arith), arith);
        let offset: Scalar = binary(Op::Mul, step, count(i, arith), arith);
        binary(Op::Add, Scalar::Real(self.start), offset, arith).real_part()
    }
}

/// The samples of `count` points from the point of index `first` on, in
/// order: each point with the value of the target variable there.
pub open spec fn samples(
    c: ContextV,
    target: Seq<char>,
    sweep: Seq<char>,
    range: Sweep,
    first: nat,
    count: nat,
    arith: Arith,
    depth: nat,
) -> Seq<(u64, Option<TermV>)> {
    Seq::new(
        count,
        |k: int|
            {
                let x = range.point(first + k, arith);
                (x, sample_at(c, target, sweep, x, arith, depth))
            },
    )
}

/// What is evaluated at each point of an inner sweep: the target variable's
/// expression, simplified with the outer variable bound; the variable itself
/// where that cannot be had, be it that the variable is not declared, that a
/// call in the context names no declared function, or that simplification
/// yields nothing.
pub open spec fn row_subject(c: ContextV, target: Seq<char>, arith: Arith) -> ExprV {
    match find(c.vars, target) {
        Some(e) => if closed(c) {
            match simplified(e, c, arith) {
                Some(s) => s,
                None => ExprV::Term(TermV::Var(target)),
            }
        } else {
            ExprV::Term(TermV::Var(target))
        },
        None => ExprV::Term(TermV::Var(target)),
    }
}

/// The samples of one row of a grid: the outer variable bound to `x`, the
/// inner variable swept over its whole range.
pub open spec fn row(
    c: ContextV,
    target: Seq<char>,
    sweep_x: Seq<char>,
    x: u64,
    sweep_y: Seq<char>,
    range_y: Sweep,
    arith: Arith,
    depth: nat,
) -> Seq<(u64, u64, Option<TermV>)> {
    let outer = swept(c, sweep_x, x);
    let subject = row_subject(outer, target, arith);
    Seq::new(
        (range_y.steps + 1) as nat,
        |k: int|
            {
                let y = range_y.point(k, arith);
                let at = swept(outer, sweep_y, y);
                (
                    x,
                    y,
                    value(
                        subject,
                        Scope { vars: at.vars, fns: at.fns, arith },
                        Seq::empty(),
                        depth,
                    ),
                )
            },
    )
}

/// The samples of the first `rows` rows of a grid, row after row.
pub open spec fn grid(
    c: ContextV,
    target: Seq<char>,
    sweep_x: Seq<char>,
    range_x: Sweep,
    sweep_y: Seq<char>,
    range_y: Sweep,
    rows: nat,
    arith: Arith,
    depth: nat,
) -> Seq<(u64, u64, Option<TermV>)>
    decreases rows,
{
    if rows == 0 {
        Seq::empty()
    } else {
        grid(c, target, sweep_x, range_x, sweep_y, range_y, (rows - 1) as nat, arith, depth) + row(
            c,
            target,
            sweep_x,
            range_x.point(rows - 1, arith),
            sweep_y,
            range_y,
            arith,
            depth,
        )
    }
}

impl Context {
    /// The value of a variable where another is bound to a point.
    pub fn sample_point<A: Fn(Op, Scalar, Scalar) -> Scalar>(
        &self,
        target: &str,
        sweep: &str,
        x: u64,
        arith: &A,
        depth: usize,
    ) -> (r: Option<Term>)
        requires
            usable(arith),
        ensures
            outcome(r) == sample_at(self@, target@, sweep@, x, oracle(arith), depth as nat),
    {
        let mut at: Context = self.clone();
        at.def_var(sweep, Expr::Term(Term::Real(x)));
        let subject: Expr = Expr::Term(Term::Var(target.to_owned()));
        at.evaluate(&subject, arith, depth)
    }

    /// Samples a variable at `count` points of a range, from the point of
    /// index `first` on.
    pub fn sample_range<A: Fn(Op, Scalar, Scalar) -> Scalar>(
        &self,
        target: &str,
        sweep: &str,
        range: &Sweep,
        first: u64,
        count: u64,
        arith: &A,
        depth: usize,
    ) -> (r: Vec<(u64, Option<Term>)>)
        requires
            usable(arith),
            first + count <= u64::MAX,
        ensures
            samples_view(r) == samples(
                self@,
                target@,
                sweep@,
                *range,
                first as nat,
                count as nat,
                oracle(arith),
                depth as nat,
            ),
    {
        let mut out: Vec<(u64, Option<Term>)> = Vec::new();
        let ghost all = samples(
            self@,
            target@,
            sweep@,
            *range,
            first as nat,
            count as nat,
            oracle(arith),
            depth as nat,
        );
        let mut k: u64 = 0;
        while k < count
            invariant
                usable(arith),
                k <= count,
                first + count <= u64::MAX,
                out.len() == k,
                all == samples(
                    self@,
                    target@,
                    sweep@,
                    *range,
                    first as nat,
                    count as nat,
                    oracle(arith),
                    depth as nat,
                ),
                forall|j: int| 0 <= j < k ==> (out[j].0, outcome(out[j].1)) == all[j],
            decreases count - k,
        {
            let x: u64 = range.point_at(first + k, arith);
            let y: Option<Term> = self.sample_point(target, sweep, x, arith, depth);
            out.push((x, y));
            k = k + 1;
        }
        assert(samples_view(out) =~= all);
        out
    }

    /// Samples a variable at the `steps + 1` evenly spaced points of a range,
    /// left to right.
    pub fn sample_1d<A: Fn(Op, Scalar, Scalar) -> Scalar>(
        &self,
        target: &str,
        sweep: &str,
        range: &Sweep,
        arith: &A,
        depth: usize,
    ) -> (r: Vec<(u64, Option<Term>)>)
        requires
            usable(arith),
            range.steps < u64::MAX,
        ensures
            samples_view(r) == samples(
                self@,
                target@,
                sweep@,
                *range,
                0,
                (range.steps + 1) as nat,
                oracle(arith),
                depth as nat,
            ),
    {
        self.sample_range(target, sweep, range, 0, range.steps + 1, arith, depth)
    }

    /// Samples a variable over a grid: for each point of the outer range, in
    /// order, at each point of the inner range, in order.
    ///
    /// For each outer point the target's expression is simplified once, with
    /// the outer variable bound.
    pub fn sample_2d<A: Fn(Op, Scalar, Scalar) -> Scalar>(
        &self,
        target: &str,
        sweep_x: &str,
        range_x: &Sweep,
        sweep_y: &str,
        range_y: &Sweep,
        arith: &A,
        depth: usize,
    ) -> (r: Vec<(u64, u64, Option<Term>)>)
        requires
            usable(arith),
            range_x.steps < u64::MAX,
            range_y.steps < u64::MAX,
        ensures
            grid_view(r) == grid(
                self@,
                target@,
                sweep_x@,
                *range_x,
                sweep_y@,
                *range_y,
                (range_x.steps + 1) as nat,
                oracle(arith),
                depth as nat,
            ),
    {
        let mut out: Vec<(u64, u64, Option<Term>)> = Vec::new();
        assert(grid_view(out) =~= Seq::empty());
        let mut i: u64 = 0;
        while i <= range_x.steps
            invariant
                usable(arith),
                i <= range_x.steps + 1,
                range_x.steps < u64::MAX,
                range_y.steps < u64::MAX,
                grid_view(out) == grid(
                    self@,
                    target@,
                    sweep_x@,
                    *range_x,
                    sweep_y@,
                    *range_y,
                    i as nat,
                    oracle(arith),
                    depth as nat,
                ),
            decreases range_x.steps + 1 - i,
        {
            let ghost before = grid_view(out);
            let x: u64 = range_x.point_at(i, arith);
            let mut more: Vec<(u64, u64, Option<Term>)> = self.sample_row(
                target,
                sweep_x,
                x,
                sweep_y,
                range_y,
                arith,
                depth,
            );
            let ghost added = grid_view(more);
            out.append(&mut more);
            assert(grid_view(out) =~= before + added);
            i = i + 1;
        }
        out
    }

    /// Samples one row of a grid: the outer variable bound to `x`, the inner
    /// variable swept over its range.
    pub fn sample_row<A: Fn(Op, Scalar, Scalar) -> Scalar>(
        &self,
        target: &str,
        sweep_x: &str,
        x: u64,
        sweep_y: &str,
        range_y: &Sweep,
        arith: &A,
        depth: usize,
    ) -> (r: Vec<(u64, u64, Option<Term>)>)
        requires
            usable(arith),
            range_y.steps < u64::MAX,
        ensures
            grid_view(r) == row(
                self@,
                target@,
                sweep_x@,
                x,
                sweep_y@,
                *range_y,
                oracle(arith),
                depth as nat,
            ),
    {
        let mut outer: Context = self.clone();
        outer.def_var(sweep_x, Expr::Term(Term::Real(x)));
        let name: String = target.to_owned();
        let subject: Expr = if outer.is_closed() && position(&outer.vars, &name).is_some() {
            match outer.simplify_for_var(target, arith) {
                Some(p) => p.0,
                None => Expr::Term(Term::Var(name)),
            }
        } else {
            Expr::Term(Term::Var(name))
        };
        let ghost all = row(
            self@,
            target@,
            sweep_x@,
            x,
            sweep_y@,
            *range_y,
            oracle(arith),
            depth as nat,
        );
        let mut out: Vec<(u64, u64, Option<Term>)> = Vec::new();
        let mut k: u64 = 0;
        while k <= range_y.steps
            invariant
                usable(arith),
                k <= range_y.steps + 1,
                range_y.steps < u64::MAX,
                out.len() == k,
                outer@ == swept(self@, sweep_x@, x),
                subject@ == row_subject(outer@, target@, oracle(arith)),
                all == row(
                    self@,
                    target@,
                    sweep_x@,
                    x,
                    sweep_y@,
                    *range_y,
                    oracle(arith),
                    depth as nat,
                ),
                forall|j: int| 0 <= j < k ==> (out[j].0, out[j].1, outcome(out[j].2)) == all[j],
            decreases range_y.steps + 1 - k,
        {
            let y: u64 = range_y.point_at(k, arith);
            let mut at: Context = outer.clone();
            at.def_var(sweep_y, Expr::Term(Term::Real(y)));
            let v: Option<Term> = at.evaluate(&subject, arith, depth);
            out.push((x, y, v));
            k = k + 1;
        }
        assert(grid_view(out) =~= all);
        out
    }
}

/// The length of the stretches that a run of `total` points is cut into for
/// `parts` workers: the points shared out evenly, rounded up.
pub open spec fn chunk(total: nat, parts: nat) -> nat {
    if parts == 0 {
        0
    } else if total % parts == 0 {
        total / parts
    } else {
        total / parts + 1
    }
}

/// Where the stretch of index `k` starts: `k` chunks in, or at the end of the
/// run where that lies beyond it.
pub open spec fn stretch_first(total: nat, parts: nat, k: nat) -> nat {
    if k * chunk(total, parts) <= total {
        k * chunk(total, parts)
    } else {
        total
    }
}

/// The stretch of index `k`: where it starts, and how many points it holds.
pub open spec fn stretch(total: nat, parts: nat, k: nat) -> (u64, u64) {
    (
        stretch_first(total, parts, k) as u64,
        (stretch_first(total, parts, k + 1) - stretch_first(total, parts, k)) as u64,
    )
}

/// The stretches of a list follow one another without a gap, from the point
/// of index `from` up to, not including, that of index `to`.
pub open spec fn contiguous(s: Seq<(u64, u64)>, from: nat, to: nat) -> bool
    decreases s.len(),
{
    if s.len() == 0 {
        from == to
    } else {
        s.last().0 + s.last().1 == to && from <= s.last().0 && contiguous(
            s.drop_last(),
            from,
            s.last().0 as nat,
        )
    }
}

/// Cuts a run of `total` points into `parts` stretches that follow one
/// another: each a first index and a count. The stretches are of one length,
/// but for the last ones, which hold what is left.
pub fn stretches(total: u64, parts: u64) -> (r: Vec<(u64, u64)>)
    requires
        parts > 0,
        parts <= usize::MAX,
    ensures
        r.len() == parts,
        forall|k: int| 0 <= k < parts ==> r[k] == stretch(total as nat, parts as nat, k as nat),
{
    let whole: u64 = total / parts;
    let more: bool = total % parts != 0;
    assert(more ==> whole < u64::MAX) by (nonlinear_arith)
        requires
            whole == total / parts,
            more == (total % parts != 0),
            parts > 0,
            total <= u64::MAX,
    {
        if more && parts == 1 {
            assert(total % 1 == 0);
        }
        if parts >= 2 {
            assert(total / parts <= total / 2);
        }
    }
    let each: u64 = if more {
        whole + 1
    } else {
        whole
    };
    assert(each == chunk(total as nat, parts as nat));
    let mut out: Vec<(u64, u64)> = Vec::new();
    let mut first: u64 = 0;
    let mut k: u64 = 0;
    assert(0 * each == 0);
    while k < parts
        invariant
            k <= parts,
            parts <= usize::MAX,
            out.len() == k,
            each == chunk(total as nat, parts as nat),
            first == stretch_first(total as nat, parts as nat, k as nat),
            first <= total,
            forall|j: int| 0 <= j < k ==> out[j] == stretch(total as nat, parts as nat, j as nat),
        decreases parts - k,
    {
        let left: u64 = total - first;
        let count: u64 = if left < each {
            left
        } else {
            each
        };
        assert((k + 1) * each == k * each + each) by (nonlinear_arith);
        out.push((first, count));
        first = first + count;
        k = k + 1;
    }
    out
}

} // verus!

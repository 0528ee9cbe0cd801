//! What holds of flattening: its result is flat, and a numeric expression
//! stays numeric.

use vstd::prelude::*;
use crate::context::{simplified, ContextV};
use crate::eval::{value, Scope};
use crate::expr::ExprV;
use crate::flatten::{flat, flat_each, operands, spliced};
use crate::laws::{lemma_numeric_closed, lemma_reduced_numeric, numeric, numeric_flags};
use crate::normal::{
    all, flat_flags, is_flat, lemma_expanded_fixed, lemma_inlined_fixed, of_kind,
};
use crate::number::Arith;
use crate::reduce::reduced;
use crate::scope::Binding;

verus! {

/// Flattening keeps the kind of a node: what it makes of a sum is a sum, of a
/// product a product, and of anything else neither.
pub proof fn lemma_flat_kind(e: ExprV, sum: bool)
    ensures
        of_kind(flat(e), sum) == of_kind(e, sum),
{
}

/// Two lists of flat expressions that may stand in a node of a kind, one
/// behind the other, are such a list.
pub proof fn lemma_joined_flat(a: Seq<ExprV>, b: Seq<ExprV>, inside: Option<bool>)
    requires
        all(flat_flags(a, inside)),
        all(flat_flags(b, inside)),
    ensures
        all(flat_flags(a + b, inside)),
{
    assert forall|i: int| 0 <= i < (a + b).len() implies #[trigger] flat_flags(a + b, inside)[i] by {
        if i < a.len() {
            assert(flat_flags(a, inside)[i]);
        } else {
            assert(flat_flags(b, inside)[i - a.len()]);
        }
    }
}

/// The operands that an expression gives to a sum or product around it are
/// flat, and none of them is a node of that kind itself.
pub proof fn lemma_operands_flat(e: ExprV, sum: bool)
    ensures
        all(flat_flags(operands(e, sum), Some(sum))),
    decreases e, 1nat,
{
    if of_kind(e, sum) {
        match e {
            ExprV::Add(c) => {
                lemma_spliced_flat(c, sum);
            },
            ExprV::Mul(c) => {
                lemma_spliced_flat(c, sum);
            },
            _ => {},
        }
    } else {
        lemma_flat_is_flat(e);
        lemma_flat_kind(e, sum);
        let one = seq![flat(e)];
        assert(operands(e, sum) == one);
        assert forall|i: int| 0 <= i < one.len() implies #[trigger] flat_flags(one, Some(sum))[i] by {
            assert(one[i] == flat(e));
        }
    }
}

/// The operands that the members of a list give to a sum or product are
/// flat, and none of them is a node of that kind itself.
pub proof fn lemma_spliced_flat(c: Seq<ExprV>, sum: bool)
    ensures
        all(flat_flags(spliced(c, sum), Some(sum))),
    decreases c, 0nat,
{
    if c.len() > 0 {
        lemma_spliced_flat(c.drop_last(), sum);
        lemma_operands_flat(c.last(), sum);
        lemma_joined_flat(spliced(c.drop_last(), sum), operands(c.last(), sum), Some(sum));
    }
}

/// What flattening yields is flat.
pub proof fn lemma_flat_is_flat(e: ExprV)
    ensures
        is_flat(flat(e)),
    decreases e, 0nat,
{
    match e {
        ExprV::Term(_) => {
            assert(flat(e) == e);
        },
        ExprV::Add(c) => {
            lemma_spliced_flat(c, true);
            assert(flat(e) == ExprV::Add(spliced(c, true)));
        },
        ExprV::Mul(c) => {
            lemma_spliced_flat(c, false);
            assert(flat(e) == ExprV::Mul(spliced(c, false)));
        },
        ExprV::Pow(a, b) => {
            lemma_flat_is_flat(*a);
            lemma_flat_is_flat(*b);
            assert(flat(e) == ExprV::Pow(Box::new(flat(*a)), Box::new(flat(*b))));
        },
        ExprV::Unary(kind, a) => {
            lemma_flat_is_flat(*a);
            assert(flat(e) == ExprV::Unary(kind, Box::new(flat(*a))));
        },
        ExprV::Fn(name, args) => {
            let out = flat_each(args);
            assert forall|i: int| 0 <= i < out.len() implies #[trigger] flat_flags(out, None)[i] by {
                lemma_flat_is_flat(args[i]);
                assert(out[i] == flat(args[i]));
            }
            assert(all(flat_flags(out, None)));
            assert(flat(e) == ExprV::Fn(name, out));
            assert(is_flat(ExprV::Fn(name, out)));
        },
    }
}

/// Flattening what is flat changes nothing: flattening twice is flattening
/// once.
pub proof fn lemma_flat_idempotent(e: ExprV)
    ensures
        flat(flat(e)) == flat(e),
{
    lemma_flat_is_flat(e);
    crate::normal::lemma_flat_fixed(flat(e));
}

/// Two lists of numeric expressions, one behind the other, are a list of
/// numeric expressions.
pub proof fn lemma_joined_numeric(a: Seq<ExprV>, b: Seq<ExprV>)
    requires
        all(numeric_flags(a)),
        all(numeric_flags(b)),
    ensures
        all(numeric_flags(a + b)),
{
    assert forall|i: int| 0 <= i < (a + b).len() implies #[trigger] numeric_flags(a + b)[i] by {
        if i < a.len() {
            assert(numeric_flags(a)[i]);
        } else {
            assert(numeric_flags(b)[i - a.len()]);
        }
    }
}

/// The operands that a numeric expression gives to a sum or product are
/// numeric, and there is at least one.
pub proof fn lemma_operands_numeric(e: ExprV, sum: bool)
    requires
        numeric(e),
    ensures
        all(numeric_flags(operands(e, sum))),
        operands(e, sum).len() > 0,
    decreases e, 1nat,
{
    if of_kind(e, sum) {
        match e {
            ExprV::Add(c) => {
                lemma_spliced_numeric(c, sum);
            },
            ExprV::Mul(c) => {
                lemma_spliced_numeric(c, sum);
            },
            _ => {},
        }
    } else {
        lemma_flat_numeric(e);
        let one = seq![flat(e)];
        assert(operands(e, sum) == one);
        assert forall|i: int| 0 <= i < one.len() implies #[trigger] numeric_flags(one)[i] by {
            assert(one[i] == flat(e));
        }
    }
}

/// The operands that numeric expressions give to a sum or product are
/// numeric, and where there is an expression there is an operand.
pub proof fn lemma_spliced_numeric(c: Seq<ExprV>, sum: bool)
    requires
        all(numeric_flags(c)),
    ensures
        all(numeric_flags(spliced(c, sum))),
        c.len() > 0 ==> spliced(c, sum).len() > 0,
    decreases c, 0nat,
{
    if c.len() > 0 {
        let rest = c.drop_last();
        assert forall|i: int| 0 <= i < rest.len() implies #[trigger] numeric_flags(rest)[i] by {
            assert(numeric_flags(c)[i]);
        }
        assert(numeric_flags(c)[c.len() - 1]);
        lemma_spliced_numeric(rest, sum);
        lemma_operands_numeric(c.last(), sum);
        lemma_joined_numeric(spliced(rest, sum), operands(c.last(), sum));
    }
}

/// Flattening keeps a numeric expression numeric.
pub proof fn lemma_flat_numeric(e: ExprV)
    requires
        numeric(e),
    ensures
        numeric(flat(e)),
    decreases e, 0nat,
{
    match e {
        ExprV::Term(_) => {
            assert(flat(e) == e);
        },
        ExprV::Add(c) => {
            lemma_spliced_numeric(c, true);
            assert(flat(e) == ExprV::Add(spliced(c, true)));
        },
        ExprV::Mul(c) => {
            lemma_spliced_numeric(c, false);
            assert(flat(e) == ExprV::Mul(spliced(c, false)));
        },
        ExprV::Pow(a, b) => {
            lemma_flat_numeric(*a);
            lemma_flat_numeric(*b);
            assert(flat(e) == ExprV::Pow(Box::new(flat(*a)), Box::new(flat(*b))));
        },
        ExprV::Unary(kind, a) => {
            lemma_flat_numeric(*a);
            assert(flat(e) == ExprV::Unary(kind, Box::new(flat(*a))));
        },
        ExprV::Fn(_, _) => {},
    }
}

/// The pipeline brings every numeric expression down to one number: the
/// value of the expression once flattened, which is the value of the
/// expression itself where no sum stands directly in a sum and no product
/// directly in a product.
pub proof fn lemma_constant_folding_flattened(
    e: ExprV,
    c: ContextV,
    arith: Arith,
    locals: Seq<Binding>,
    depth: nat,
)
    requires
        numeric(e),
    ensures
        simplified(e, c, arith) matches Some(ExprV::Term(t)) && t.constant() && value(
            flat(e),
            Scope { vars: c.vars, fns: c.fns, arith },
            locals,
            depth,
        ) == Some(t),
{
    let scope = Scope { vars: c.vars, fns: c.fns, arith };
    lemma_numeric_closed(e, c.vars, c.fns);
    lemma_expanded_fixed(e, c.vars, c.vars.len());
    lemma_inlined_fixed(e, c.vars, c.fns, c.fns.len());
    lemma_flat_numeric(e);
    lemma_reduced_numeric(flat(e), scope, locals, depth);
    assert(reduced(flat(e), arith) is Term);
}

} // verus!

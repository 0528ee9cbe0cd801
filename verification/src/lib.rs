//! Expressions over real and complex numbers, with named variables and
//! user-defined functions: their simplification, evaluation and sampling.
//!
//! An expression is a tree of sums, products, powers, functions of one
//! argument and calls, over numbers and variables. A context declares
//! variables and functions. Against a context an expression is simplified by
//! a fixed pipeline of passes (variable expansion, function inlining,
//! flattening, constant reduction, identity elimination), evaluated to one
//! number, or sampled over a range.
//!
//! Numbers are carried as bit patterns. All arithmetic on them is done by a
//! function that the caller hands in; every contract states its result over
//! that function, whatever it computes.
//!
//! The modules, in the order of the pipeline:
//!
//! - [`number`], [`term`], [`expr`]: numbers, leaves and trees;
//! - [`scope`], [`context`]: declarations and their lookup;
//! - [`parse`], [`convert`]: a context from parsed statements;
//! - [`check`], [`reach`]: the recursion check and why it is exhaustive;
//! - [`expand`], [`flatten`], [`order`], [`precedence`], [`reduce`],
//!   [`special`]: the passes; [`power`]: the expansion of small powers, no
//!   pass of the pipeline;
//! - [`eval`]: evaluation; [`sample`]: sampling;
//! - [`normal`], [`resolved`], [`flatness`], [`reducedness`], [`size`],
//!   [`budget`], [`success`], [`closed`], [`laws`]: what holds of the passes
//!   and of the pipeline as a whole.

pub mod number;
pub mod term;
pub mod expr;
pub mod scope;
pub mod context;
pub mod parse;
pub mod convert;
pub mod check;
pub mod reach;
pub mod expand;
pub mod flatten;
pub mod order;
pub mod precedence;
pub mod reduce;
pub mod special;
pub mod power;
pub mod eval;
pub mod sample;
pub mod normal;
pub mod resolved;
pub mod flatness;
pub mod reducedness;
pub mod size;
pub mod budget;
pub mod success;
pub mod closed;
pub mod laws;

//! A small stack-based, Forth-derived language: a tokenizer, a mutable
//! runtime environment (operand stack, word dictionary, scalar and array
//! variables, constants, loop registers), and a recursive token evaluator.
//!
//! The observable behaviour of every evaluation step is pinned down by a
//! mathematical interpreter (`semantics`): the executable evaluator is
//! proved to produce exactly the environment that the mathematical
//! interpreter describes, output included.  Output is collected in the
//! environment as a sequence of output items; printing them is left to the
//! caller.

pub mod eval;
pub mod inter;
pub mod laws;
pub mod lex;
pub mod model;
pub mod ops;
pub mod semantics;

//! A minimal interpreter for a terse, stack-based array language.
//!
//! Source text is lexed into a flat token sequence, parsed into two
//! cooperating stacks (a function stack and a value stack), and evaluated
//! to a final sequence of values.

pub mod lex;
pub mod value;
pub mod parse;
pub mod stack;

//! Composable parsing primitives for line-oriented, section/key-value
//! structured text formats.
//!
//! Parsers work on byte slices. A parser consumes a prefix of its input and
//! returns the remaining suffix together with a value, or fails with an
//! error that records the position (as the length of the remaining input)
//! and a kind tag. Repetition combinators detect non-advancing sub-parsers
//! and fail instead of looping.

pub mod outcome;
pub mod input;
pub mod lex;
pub mod combin;
pub mod bounded;
pub mod repeat;
pub mod laws;
pub mod render;
pub mod pathconv;

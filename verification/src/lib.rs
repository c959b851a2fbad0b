//! A single-pass compiler from a small BASIC-like language to C.
//!
//! The lexer turns source text into tokens on demand; the parser recognises
//! the grammar by recursive descent and, while it does so, writes the C code
//! into an emitter with two sections, a header for the declarations and a
//! body for the statements.
//!
//! - `token`: the categories of tokens and the keyword table.
//! - `lex`: what the next token of a text is, and the lexer that scans it.
//! - `emitter`: the two-section output.
//! - `names`: the sets of variable and label names.
//! - `grammar`: the model of the parser, one function per grammar rule from
//!   the state before the rule to the state after it.
//! - `parse`: the parser, each rule proved to do what its model says.
//! - `compile`: a whole compilation in one call.
//! - `error`: the errors that end a compilation, and their messages.
//! - `laws`: what holds of every program, proved of the model.
pub mod compile;
pub mod emitter;
pub mod error;
pub mod grammar;
pub mod laws;
pub mod lex;
pub mod names;
pub mod parse;
pub mod token;

//! A hand-written SQL front end: a tokeniser and a recursive-descent parser
//! that turn source text into a typed syntax tree.
//!
//! Every function's behaviour is stated as a contract and proved. The
//! contracts speak of mathematical models: a token sequence, a position in
//! it, and trees whose text is a sequence of characters.
//!
//! - [`token`]: tokens, keywords and source locations.
//! - [`tokeniser`]: the lexical rules, and the tokeniser that follows them.
//! - [`ast`]: the syntax tree and its model.
//! - [`grammar`]: the grammar, as functions on token sequences.
//! - [`parser`]: the parser, one method for each production.
//! - [`laws`]: what holds of the grammar and the lexical rules for every
//!   input.
//! - [`writing`]: expressions written out as tokens, and read back.
//! - [`text`]: numerals, case folding and other small text utilities.

pub mod ast;
pub mod grammar;
pub mod laws;
pub mod parser;
pub mod text;
pub mod token;
pub mod tokeniser;
pub mod writing;

//! Lexical and declaration-level front end of a small statically typed
//! language.
//!
//! Source text is turned into a stream of classified tokens plus a side table
//! of literal payloads, and the token stream is assembled into structure and
//! function-signature declarations.  Each executable function carries a
//! contract over a mathematical model of its inputs and results.

pub mod ast;
pub mod charclass;
pub mod grammar;
pub mod laws;
pub mod lexical;
pub mod operators;
pub mod scanner;
pub mod token;
pub mod tokenizer;

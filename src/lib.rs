//! A front end for a protobuf-style schema language: a lexer that turns
//! source text into positioned tokens, and a recursive-descent parser that
//! turns those tokens into an order-preserving syntax tree.

pub mod ast;
pub mod lexer;
pub mod grammar;
pub mod parser;
pub mod diagnostics;

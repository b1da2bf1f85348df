//! Front end of the Monkey language: a scanner that turns source text into
//! tokens and a precedence-climbing parser that turns tokens into a syntax
//! tree.
//!
//! Every function carries a contract over mathematical models of its data:
//! `scan` and `grammar` say what a text scans to and what a stream of tokens
//! parses to, `lexer` and `parser` are proved to compute exactly that, and
//! `expressions` and `statements` hold laws that follow.

pub mod ast;
pub mod expressions;
pub mod grammar;
pub mod lexer;
pub mod number;
pub mod parser;
pub mod scan;
pub mod statements;
pub mod token;

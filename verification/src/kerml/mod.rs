//! KerML: tokens, syntax tree, grammar and parser.
pub mod ast;
pub mod grammar;
pub mod module;
pub mod parser;
pub mod token;

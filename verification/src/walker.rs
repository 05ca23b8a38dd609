//! The syntax layer of the tree-walking interpreter: scanner, tokens,
//! syntax tree, parser and resolver.

pub mod ast;
pub mod ast_printer;
pub mod callables;
pub mod environment;
pub mod grammar;
pub mod operators;
pub mod parsed_token;
pub mod parser;
pub mod resolver;
pub mod scanner;
pub mod token;

//! A small dynamically-typed scripting language: scanner, parser and a
//! tree-walking evaluator, with their behaviour stated in contracts.
pub mod number;
pub mod text;
pub mod token;
pub mod error;
pub mod scanner;
pub mod expr;
pub mod stmt;
pub mod ast_printer;
pub mod grammar;
pub mod parser;
pub mod environment;
pub mod interpreter;
pub mod pipeline;

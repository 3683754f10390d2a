//! Front end of the Sorrel language: a lexer, an abstract syntax tree and a
//! recursive-descent parser, each stated against a mathematical model.

pub mod ast;
pub mod lexer;
pub mod parser;

//! A scanner, parser and evaluator for a small Pascal-like language of nested
//! `BEGIN ... END` blocks, assignments and arithmetic expressions.

mod chars;
pub mod token;
pub mod lexer;
pub mod node;
pub mod parser;
pub mod shape;
pub mod scope;
pub mod interpreter;


//! Lynx: a small dynamically typed scripting language with a lexer,
//! a Pratt parser and a tree-walking evaluator with lexical closures.
pub mod ast;
pub mod builtin;
pub mod env;
pub mod evaluator;
pub mod lexer;
pub mod object;
pub mod ops;
pub mod parser;
pub mod text;
pub mod token;
pub mod util;

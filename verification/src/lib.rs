//! A tree-walking interpreter for a small scripting language: the lexer that
//! turns source text into tokens, the recursive-descent parser that builds the
//! syntax tree, the values and variable scopes the evaluator works with, and
//! the errors a run of a script can end in.

pub mod error;
pub mod interpreter;
pub mod lexer;
pub mod parser;
pub mod script;
pub mod text;

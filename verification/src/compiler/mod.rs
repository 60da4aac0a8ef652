//! The compiler's front end: lexical analysis, the syntax tree and the parser.

pub mod ast;
pub mod display;
pub mod grammar;
pub mod grammar_laws;
pub mod locality;
pub mod parser;
pub mod tokenizer;
pub mod token_laws;

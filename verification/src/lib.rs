//! Front end of a small interpreted language: a tokenizer that turns source
//! text into a sequence of classified tokens, and a recursive-descent parser
//! that assembles those tokens into an abstract syntax tree of statements.
pub mod ast;
pub mod lexer;
pub mod parser;
pub mod token;

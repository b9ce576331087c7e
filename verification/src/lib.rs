//! A front end for arithmetic expressions: a tokenizer that turns text into
//! tokens, and an operator-precedence parser that turns tokens into a tree.
//!
//! Every function states what it computes over mathematical models of its
//! data (sequences of characters, views of tokens and of trees), and the
//! statements are proved.
pub mod chars;
pub mod token;
pub mod lexer;
pub mod expr;
pub mod parser;
pub mod statement;
pub mod printer;
pub mod laws;

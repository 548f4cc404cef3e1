//! A lexer for a small programming language: it turns source text into a
//! sequence of tokens, with contracts that state which token each lexeme gives.
pub mod lemmas;
pub mod lexer;
pub mod token;

pub use lexer::{tokenize, LexError, Tokenizer};
pub use token::Token;

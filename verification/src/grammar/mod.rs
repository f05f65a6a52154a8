//! The command language: characters, tokens and the tokenizer.

pub mod text;
pub mod tokenizer;

pub use tokenizer::{Token, TokenView, Tokenizer};

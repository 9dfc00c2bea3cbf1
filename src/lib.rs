//! Lexical analysis for a small teaching language: turns source text into a
//! stream of classified tokens, one token per call.
pub mod lexer;
pub mod text;
pub mod token;

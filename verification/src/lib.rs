//! A hand-written lexer for a small scripting language: it turns source text into
//! function declarations, their parameters and expression tokens, reporting the
//! line and column of every token and of every error.

pub mod chars;
pub mod position;
pub mod tokens;
pub mod scan;
pub mod lexer;
pub mod laws;

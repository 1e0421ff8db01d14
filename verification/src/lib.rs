//! A lexical scanner for one line of a minimal arithmetic expression
//! language: decimal and hexadecimal numeric literals with optional
//! type-width suffixes, the symbols `+` and `=`, single spaces, and
//! end-of-input.

pub mod lexer;
pub mod scan;
pub mod token;

pub use lexer::Lexer;
pub use token::LexError;
pub use token::Token;

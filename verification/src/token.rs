//! Token kinds and the scanner's error type.

use vstd::prelude::*;

verus! {

/// The kind of a classified span of the input line.
#[derive(Copy, Clone, Debug, PartialEq, Eq, Structural, PartialOrd, Ord)]
pub enum Token {
    /// No characters remain.
    EOF,
    /// A numeric literal without a type-width suffix.
    NumValue,
    /// A numeric literal followed by a type-width suffix
    /// (`u8`, `u16`, `u32`, `u64`, `u128` or `u256`).
    NumTypedValue,
    /// The symbol `+`.
    Plus,
    /// The symbol `=`.
    Equal,
    /// A single space character.
    Space,
}

/// The scanner's only failure mode: the character at the scan position
/// matches no classification rule.
#[derive(Copy, Clone, Debug, PartialEq, Eq, Structural)]
pub enum LexError {
    /// Carries the offending character.
    InvalidCharacter(char),
}

/// The printable form of each token kind.
pub open spec fn display_seq(t: Token) -> Seq<char> {
    match t {
        Token::EOF => "[end-of-file]"@,
        Token::NumValue => "[Num]"@,
        Token::NumTypedValue => "[NumTyped]"@,
        Token::Plus => "+"@,
        Token::Equal => "="@,
        Token::Space => "[space]"@,
    }
}

impl Token {
    /// The printable name of this token kind.
    pub fn display_str(&self) -> (r: &'static str)
        ensures
            r@ == display_seq(*self),
    {
        match self {
            Token::EOF => "[end-of-file]",
            Token::NumValue => "[Num]",
            Token::NumTypedValue => "[NumTyped]",
            Token::Plus => "+",
            Token::Equal => "=",
            Token::Space => "[space]",
        }
    }
}

} // verus!

//! The token data model: lexical classes, tokens, and the lexer's error type.

use vstd::prelude::*;

verus! {

/// The lexical class of a token: whitespace (internal only, never emitted),
/// the thirteen reserved keywords, identifiers, the fifteen operator and
/// punctuation symbols, and integer literals.
///
/// The order of the variants mirrors the priority order of the pattern
/// table: when a span matches several patterns, the earliest-listed one
/// decides its class (this is what makes a keyword win over an identifier).
#[derive(Debug, Clone, Copy, PartialEq, Eq, Structural)]
pub enum Class {
    Whitespace,
    // Keywords
    Begin,
    End,
    Call,
    Do,
    While,
    If,
    Then,
    Odd,
    Procedure,
    Const,
    Var,
    Read,
    Write,
    // Identifiers
    Identifies,
    // Operators and punctuation
    Plus,      // +
    Minus,     // -
    Times,     // *
    Slash,     // /
    Equal,     // =
    Neq,       // <>
    Leq,       // <=
    Lss,       // <
    Geq,       // >=
    Gtr,       // >
    Becomes,   // :=
    Lparen,    // (
    Rparen,    // )
    Comma,     // ,
    Semicolon, // ;
    Period,    // .
    Number,
}

/// One lexical unit: its class and the exact characters it was matched
/// from, with the original casing preserved.
#[derive(Debug)]
pub struct Token {
    pub class: Class,
    pub lexeme: String,
}

/// The mathematical value of a [`Token`]: its class and the character
/// sequence of its lexeme.
pub ghost struct TokenModel {
    pub class: Class,
    pub lexeme: Seq<char>,
}

impl View for Token {
    type V = TokenModel;

    open spec fn view(&self) -> TokenModel {
        TokenModel { class: self.class, lexeme: self.lexeme@ }
    }
}

/// The one error the lexer reports: some position in the source starts a
/// span that matches no pattern at all. `text` is the offending run (from
/// the failure position up to the next ASCII whitespace character or the
/// end of input) and `line` its 1-based line number.
#[derive(Debug)]
pub struct LexError {
    pub text: String,
    pub line: usize,
}

} // verus!

//! A lexer for a small PL/0-family procedural language.
//!
//! The scanner turns a source text into a sequence of classified tokens
//! (keywords, identifiers, numbers, operators and punctuation), skipping
//! whitespace, by maximal-munch matching against a fixed, priority-ordered
//! table of lexical patterns. An input character that can start no token at
//! all is reported as an error carrying the offending text and its 1-based
//! line number.

pub mod config;
pub mod laws;
pub mod patterns;
pub mod scan;
pub mod scanner;
pub mod tokens;

pub use config::Config;
pub use scanner::lexical_analysis;
pub use tokens::Class;
pub use tokens::LexError;
pub use tokens::Token;
pub use tokens::TokenModel;

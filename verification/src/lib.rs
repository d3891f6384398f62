//! A lexical analyzer for a small configuration/expression language.
//!
//! The lexer turns source text, viewed as a sequence of Unicode codepoints,
//! into a finite sequence of position-tagged tokens: numbers, identifiers,
//! paths, URIs, operators recognized by maximal munch, and string literals
//! with nested `${ ... }` interpolation handled by an explicit mode stack.
//! Malformed input never aborts the pass: unrecognized codepoints become
//! `Unknown` tokens and unterminated strings, unterminated block comments
//! and integer overflow are reported as side-channel diagnostics.

pub mod laws;
pub mod lexer;
pub mod machine;
pub mod pos;
pub mod scan;
pub mod token;

pub use lexer::Lexer;
pub use lexer::lex;
pub use pos::CharsPos;
pub use pos::Pos;
pub use token::ErrKind;
pub use token::LexError;
pub use token::Span;
pub use token::Spanned;
pub use token::Symbol;
pub use token::Token;
pub use token::TokenKind;

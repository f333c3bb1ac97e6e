//! The lexer: from source text to tokens.

pub mod generator;
pub mod kind;
pub mod list;
pub mod scan;
pub mod stream;
pub mod token;

pub use generator::TokenGen;
pub use kind::TokenKind;
pub use list::TokenList;
pub use token::Token;

//! The classes of token.

use vstd::prelude::*;

verus! {

/// The class of a token.
#[derive(Clone, Debug, Copy, PartialEq, Eq, Structural, PartialOrd)]
pub enum TokenKind {
    /// A numeric literal.
    Number,
    /// An operator or a punctuation mark.
    Reserved,
    /// An identifier.
    Ident,
    /// The end of the input.
    Eof,
}

} // verus!

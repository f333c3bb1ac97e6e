//! A token: its class and its payload.

use vstd::prelude::*;
use crate::datatype::{Data, DataUnion};
use crate::tokenize::kind::TokenKind;

verus! {

/// A classified piece of the source text.
#[derive(Debug)]
pub struct Token {
    pub tk: TokenKind,
    pub data: DataUnion,
}

/// The mathematical value of a [`Token`].
pub struct TokenView {
    pub tk: TokenKind,
    pub data: Data,
}

impl TokenView {
    /// The token that marks the end of the input.
    pub open spec fn eof() -> TokenView {
        TokenView { tk: TokenKind::Eof, data: Data::Empty }
    }

    /// An operator or punctuation token with the given text.
    pub open spec fn reserved(text: Seq<char>) -> TokenView {
        TokenView { tk: TokenKind::Reserved, data: Data::String(text) }
    }

    /// An identifier token with the given name.
    pub open spec fn ident(name: Seq<char>) -> TokenView {
        TokenView { tk: TokenKind::Ident, data: Data::String(name) }
    }

    /// A numeric token with the given value.
    pub open spec fn number(n: i32) -> TokenView {
        TokenView { tk: TokenKind::Number, data: Data::Num(n) }
    }
}

impl TokenView {
    /// Whether class and payload agree as they do in every token that the
    /// lexer makes: the end of the input carries nothing, a number
    /// carries a number, and an identifier or an operator carries text
    /// that is not empty.
    pub open spec fn consistent(self) -> bool {
        match self.tk {
            TokenKind::Eof => self.data is Empty,
            TokenKind::Number => self.data is Num,
            TokenKind::Ident => self.data is String && self.data->String_0.len() > 0,
            TokenKind::Reserved => self.data is String && self.data->String_0.len() > 0,
        }
    }
}

impl View for Token {
    type V = TokenView;

    open spec fn view(&self) -> TokenView {
        TokenView { tk: self.tk, data: self.data@ }
    }
}

impl Clone for Token {
    fn clone(&self) -> (r: Self)
        ensures
            r@ == self@,
    {
        Token { tk: self.tk, data: self.data.clone() }
    }
}

impl Token {
    /// A token of class `tk` with payload `data`.
    pub fn new(tk: TokenKind, data: DataUnion) -> (t: Self)
        ensures
            t.tk == tk,
            t.data == data,
    {
        Token { tk, data }
    }

    /// A token of class `tk` whose payload is the characters of `word`.
    pub fn with_str(tk: TokenKind, word: &str) -> (t: Self)
        ensures
            t@ == (TokenView { tk, data: Data::String(word@) }),
    {
        Token { tk, data: DataUnion::str(word) }
    }

    /// Whether this token is of class `kind`.
    pub fn is_kind(&self, kind: TokenKind) -> (r: bool)
        ensures
            r == (self.tk == kind),
    {
        self.tk == kind
    }

    /// Whether this token carries exactly the payload `data`.
    pub fn eq_data(&self, data: DataUnion) -> (r: bool)
        ensures
            r == (self.data@ == data@),
    {
        self.data == data
    }

    /// The payload of this token.
    pub fn get_data(&self) -> (d: &DataUnion)
        ensures
            d == self.data,
    {
        &self.data
    }
}

} // verus!

//! The payload that a token or a syntax-tree leaf carries.

use vstd::prelude::*;
use vstd::std_specs::cmp::PartialEqSpecImpl;
use crate::chars::{copy_text, same_text, text_of};

verus! {

/// A payload: a run of characters, a number, or nothing.
#[derive(Debug)]
pub enum DataUnion {
    String(Vec<char>),
    Num(i32),
    Empty,
}

/// The mathematical value of a [`DataUnion`].
pub enum Data {
    String(Seq<char>),
    Num(i32),
    Empty,
}

impl View for DataUnion {
    type V = Data;

    open spec fn view(&self) -> Data {
        match self {
            DataUnion::String(s) => Data::String(s@),
            DataUnion::Num(n) => Data::Num(*n),
            DataUnion::Empty => Data::Empty,
        }
    }
}

impl DataUnion {
    /// A numeric payload.
    pub fn number(n: i32) -> (r: Self)
        ensures
            r@ == Data::Num(n),
    {
        Self::Num(n)
    }

    /// A payload of one character.
    pub fn char(c: char) -> (r: Self)
        ensures
            r@ == Data::String(seq![c]),
    {
        let mut v: Vec<char> = Vec::new();
        v.push(c);
        assert(v@ =~= seq![c]);
        Self::String(v)
    }
}

impl DataUnion {
    /// A payload that holds the characters of `s`.
    pub fn str(s: &str) -> (r: Self)
        ensures
            r@ == Data::String(s@),
    {
        Self::String(text_of(s))
    }

    /// A payload that holds a copy of the characters `s`.
    pub fn cstr(s: &[char]) -> (r: Self)
        ensures
            r@ == Data::String(s@),
    {
        Self::String(copy_text(s))
    }
}

impl Clone for DataUnion {
    fn clone(&self) -> (r: Self)
        ensures
            r@ == self@,
    {
        match self {
            DataUnion::String(s) => DataUnion::String(copy_text(s.as_slice())),
            DataUnion::Num(n) => DataUnion::Num(*n),
            DataUnion::Empty => DataUnion::Empty,
        }
    }
}

impl PartialEq for DataUnion {
    fn eq(&self, other: &Self) -> (r: bool) {
        match (self, other) {
            (DataUnion::String(a), DataUnion::String(b)) => same_text(a.as_slice(), b.as_slice()),
            (DataUnion::Num(a), DataUnion::Num(b)) => *a == *b,
            (DataUnion::Empty, DataUnion::Empty) => true,
            _ => false,
        }
    }
}

impl Eq for DataUnion {

}

impl PartialEqSpecImpl for DataUnion {
    open spec fn obeys_eq_spec() -> bool {
        true
    }

    open spec fn eq_spec(&self, other: &Self) -> bool {
        self@ == other@
    }
}

} // verus!

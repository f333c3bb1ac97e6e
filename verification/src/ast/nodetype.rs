//! The kinds of syntax-tree node.

use vstd::prelude::*;

verus! {

/// The kind of a syntax-tree node: a leaf or a binary operator.
#[derive(Debug, Clone, Copy, PartialEq, Eq, Structural, PartialOrd, Ord)]
pub enum Ntype {
    /// A numeric literal.
    Num,
    /// A variable.
    Lvar,
    /// Addition.
    Add,
    /// Subtraction.
    Sub,
    /// Multiplication.
    Mul,
    /// Division.
    Div,
    /// Equality test.
    Eq,
    /// Inequality test.
    Neq,
    /// Greater-than test.
    Greater,
    /// Greater-or-equal test.
    GreaterEq,
    /// Assignment.
    Assign,
}

impl Ntype {
    /// Whether this kind stands after `Num` in the list of kinds.
    pub fn has_childs(self) -> (r: bool)
        ensures
            r == (self != Ntype::Num),
    {
        match self {
            Ntype::Num => false,
            _ => true,
        }
    }
}

} // verus!

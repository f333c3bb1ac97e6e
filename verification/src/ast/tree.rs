//! The mathematical model of a syntax tree.

use vstd::prelude::*;
use crate::ast::nodetype::Ntype;
use crate::datatype::Data;

verus! {

/// The mathematical value of a syntax-tree node: its kind, its two
/// operands if it has them, and its payload.
pub struct Tree {
    pub ty: Ntype,
    pub childs: Option<Box<(Tree, Tree)>>,
    pub value: Data,
}

impl Tree {
    /// A node of kind `ty` without operands. A numeric node holds zero,
    /// any other node holds nothing.
    pub open spec fn bare(ty: Ntype) -> Tree {
        Tree {
            ty,
            childs: None,
            value: if ty == Ntype::Num {
                Data::Num(0)
            } else {
                Data::Empty
            },
        }
    }

    /// The literal `n`.
    pub open spec fn number(n: i32) -> Tree {
        Tree { ty: Ntype::Num, childs: None, value: Data::Num(n) }
    }

    /// The variable called `name`.
    pub open spec fn lvar(name: Seq<char>) -> Tree {
        Tree { ty: Ntype::Lvar, childs: None, value: Data::String(name) }
    }

    /// The node of kind `ty` over the operands `first` and `second`.
    pub open spec fn binary(ty: Ntype, first: Tree, second: Tree) -> Tree {
        Tree { ty, childs: Some(Box::new((first, second))), value: Data::Empty }
    }

    /// The first operand.
    pub open spec fn first(self) -> Tree
        recommends
            self.childs is Some,
    {
        self.childs.unwrap().0
    }

    /// The second operand.
    pub open spec fn second(self) -> Tree
        recommends
            self.childs is Some,
    {
        self.childs.unwrap().1
    }

    /// Whether the tree is one that the grammar can produce: a literal
    /// holds a number, a variable holds a name, neither has operands, and
    /// an operator holds nothing and has two operands of that shape.
    pub open spec fn well_formed(self) -> bool
        decreases self,
    {
        match self.ty {
            Ntype::Num => self.childs is None && self.value is Num,
            Ntype::Lvar => self.childs is None && self.value is String,
            _ => self.value is Empty && self.childs is Some && self.childs.unwrap().0.well_formed()
                && self.childs.unwrap().1.well_formed(),
        }
    }
}

} // verus!

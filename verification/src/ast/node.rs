//! The syntax-tree node.

use vstd::prelude::*;
use crate::arith::{wrapping_difference, wrapping_product, wrapping_quotient, wrapping_sum};
use crate::ast::eval::{eval, lemma_eval_keeps_range, operate, Store};
use crate::ast::nodetype::Ntype;
use crate::ast::rettype::RetType;
use crate::ast::store::VarTable;
use crate::ast::tree::Tree;
use crate::chars::copy_text;
use crate::datatype::DataUnion;
use crate::error::{answers, failure, is_failure, Error, ErrorKind};

verus! {

/// A node of the syntax tree. An operator owns its two operands.
#[derive(Debug)]
pub struct Node {
    ty: Ntype,
    childs: Option<Box<(Node, Node)>>,
    value: DataUnion,
}

impl View for Node {
    type V = Tree;

    closed spec fn view(&self) -> Tree
        decreases self,
    {
        Tree {
            ty: self.ty,
            childs: match self.childs {
                Some(pair) => Some(Box::new((pair.0@, pair.1@))),
                None => None,
            },
            value: self.value@,
        }
    }
}

impl Clone for Node {
    fn clone(&self) -> (r: Self)
        ensures
            r@ == self@,
        decreases self,
    {
        let childs = match &self.childs {
            Some(pair) => Some(Box::new((pair.0.clone(), pair.1.clone()))),
            None => None,
        };
        Node { ty: self.ty, childs, value: self.value.clone() }
    }
}

impl Node {
    /// A node of kind `ty` without operands.
    pub fn new(ty: Ntype) -> (r: Self)
        ensures
            r@ == Tree::bare(ty),
    {
        Self {
            ty,
            childs: None,
            value: match ty {
                Ntype::Num => DataUnion::Num(0),
                _ => DataUnion::Empty,
            },
        }
    }

    /// The literal `n`.
    pub fn number(n: i32) -> (r: Self)
        ensures
            r@ == Tree::number(n),
    {
        Self { ty: Ntype::Num, childs: None, value: DataUnion::Num(n) }
    }

    /// The variable called `name`.
    pub fn lvar(name: Vec<char>) -> (r: Self)
        ensures
            r@ == Tree::lvar(name@),
    {
        Self { ty: Ntype::Lvar, childs: None, value: DataUnion::String(name) }
    }

    /// The node of kind `ty` over the operands `ch1` and `ch2`.
    pub fn from_child(ch1: Self, ch2: Self, ty: Ntype) -> (r: Self)
        ensures
            r@ == Tree::binary(ty, ch1@, ch2@),
    {
        Self { ty, childs: Some(Box::new((ch1, ch2))), value: DataUnion::Empty }
    }
}

impl Node {
    /// The kind of the node.
    pub fn kind(&self) -> (ty: Ntype)
        ensures
            ty == self@.ty,
    {
        self.ty
    }

    /// The payload of the node.
    pub fn value(&self) -> (d: &DataUnion)
        ensures
            d@ == self@.value,
    {
        &self.value
    }

    /// The two operands, if the node has them.
    pub fn get_child(&self) -> (r: Option<&(Node, Node)>)
        ensures
            r is Some <==> self@.childs is Some,
            r is Some ==> r.unwrap().0@ == self@.first() && r.unwrap().1@ == self@.second(),
    {
        match &self.childs {
            Some(p) => Some(&**p),
            None => None,
        }
    }

    /// The two operands, which the node must have.
    pub fn expect_child(&self) -> (r: Result<&(Node, Node), Error>)
        ensures
            self@.childs is None ==> is_failure(r, ErrorKind::UnexpectedError),
            self@.childs is Some ==> r is Ok && r.unwrap().0@ == self@.first() && r.unwrap().1@
                == self@.second(),
    {
        match self.get_child() {
            Some(p) => Ok(p),
            None => failure(ErrorKind::UnexpectedError),
        }
    }

    /// The value of the operator `ty` on `a` and `b`.
    fn apply(ty: Ntype, a: i32, b: i32) -> (r: Result<RetType, Error>)
        ensures
            answers(
                r,
                match operate(ty, a, b) {
                    Ok(v) => Ok(RetType::Num(v)),
                    Err(k) => Err(k),
                },
            ),
    {
        match ty {
            Ntype::Add => Ok(RetType::Num(wrapping_sum(a, b))),
            Ntype::Sub => Ok(RetType::Num(wrapping_difference(a, b))),
            Ntype::Mul => Ok(RetType::Num(wrapping_product(a, b))),
            Ntype::Div => match wrapping_quotient(a, b) {
                Some(q) => Ok(RetType::Num(q)),
                None => failure(ErrorKind::DivisionByZero),
            },
            Ntype::Eq => Ok(RetType::Num(if a == b { 1 } else { 0 })),
            Ntype::Neq => Ok(RetType::Num(if a != b { 1 } else { 0 })),
            Ntype::Greater => Ok(RetType::Num(if a > b { 1 } else { 0 })),
            Ntype::GreaterEq => Ok(RetType::Num(if a >= b { 1 } else { 0 })),
            _ => failure(ErrorKind::UnexpectedError),
        }
    }

    /// Evaluates the node on the variables `var` and the memory `mem`.
    pub fn compile(&self, var: &mut VarTable, mem: &mut Vec<i32>) -> (r: Result<RetType, Error>)
        requires
            old(var).wf(),
            (Store { vars: old(var)@, mem: old(mem)@ }).in_range(),
        ensures
            final(var).wf(),
            final(var)@ == eval(self@, Store { vars: old(var)@, mem: old(mem)@ }).store.vars,
            final(mem)@ == eval(self@, Store { vars: old(var)@, mem: old(mem)@ }).store.mem,
            answers(r, eval(self@, Store { vars: old(var)@, mem: old(mem)@ }).result),
            (Store { vars: final(var)@, mem: final(mem)@ }).in_range(),
            r is Ok ==> r->Ok_0.fits(final(mem)@.len()),
        decreases self,
    {
        let ghost start = Store { vars: var@, mem: mem@ };
        proof {
            lemma_eval_keeps_range(self@, start);
        }
        match self.ty {
            Ntype::Num => match self.value {
                DataUnion::Num(n) => Ok(RetType::Num(n)),
                _ => failure(ErrorKind::UnexpectedError),
            },
            Ntype::Lvar => match &self.value {
                DataUnion::String(s) => match var.get(s.as_slice()) {
                    Some(a) => Ok(RetType::Address(a)),
                    None => {
                        let a = mem.len();
                        var.insert(copy_text(s.as_slice()), a);
                        mem.push(0);
                        Ok(RetType::Address(a))
                    },
                },
                _ => failure(ErrorKind::UnexpectedError),
            },
            _ => {
                let pair = match &self.childs {
                    Some(p) => p,
                    None => {
                        return failure(ErrorKind::UnexpectedError);
                    },
                };
                let first = match pair.0.compile(var, mem) {
                    Ok(r) => r,
                    Err(e) => {
                        return Err(e);
                    },
                };
                let a = match first.rvalue(mem) {
                    Ok(a) => a,
                    Err(e) => {
                        return Err(e);
                    },
                };
                let second = match pair.1.compile(var, mem) {
                    Ok(r) => r,
                    Err(e) => {
                        return Err(e);
                    },
                };
                match self.ty {
                    Ntype::Assign => match second.expect_address() {
                        Ok(slot) => {
                            mem[slot] = a;
                            Ok(RetType::Address(slot))
                        },
                        Err(e) => Err(e),
                    },
                    _ => {
                        let b = match second.rvalue(mem) {
                            Ok(b) => b,
                            Err(e) => {
                                return Err(e);
                            },
                        };
                        Node::apply(self.ty, a, b)
                    },
                }
            },
        }
    }
}

} // verus!

//! What evaluating a node gives: a value, or the address of a variable.

use vstd::prelude::*;
use crate::error::{failure, is_failure, Error, ErrorKind};

verus! {

/// The result of evaluating a node.
#[derive(Debug, Clone, Copy, PartialEq, Eq, Structural)]
pub enum RetType {
    /// A plain value.
    Num(i32),
    /// The slot of a variable in memory.
    Address(usize),
}

impl RetType {
    /// The value that this result stands for in memory `mem`: the value
    /// itself, or what the slot holds.
    pub open spec fn value_in(self, mem: Seq<i32>) -> i32 {
        match self {
            RetType::Num(n) => n,
            RetType::Address(a) => mem[a as int],
        }
    }

    /// Whether this result can be read in a memory of `len` slots.
    pub open spec fn fits(self, len: nat) -> bool {
        match self {
            RetType::Num(_) => true,
            RetType::Address(a) => a < len,
        }
    }

    /// The value, which this result must be.
    pub fn expect_num(&self) -> (r: Result<i32, Error>)
        ensures
            match *self {
                RetType::Num(n) => r == Ok::<i32, Error>(n),
                RetType::Address(_) => is_failure(r, ErrorKind::TypeError),
            },
    {
        match *self {
            RetType::Num(n) => Ok(n),
            RetType::Address(_) => failure(ErrorKind::TypeError),
        }
    }

    /// The value that this result stands for: the value itself, or what
    /// its slot of `mem` holds.
    pub fn rvalue(&self, mem: &Vec<i32>) -> (r: Result<i32, Error>)
        requires
            self.fits(mem@.len()),
        ensures
            r == Ok::<i32, Error>(self.value_in(mem@)),
    {
        match *self {
            RetType::Num(n) => Ok(n),
            RetType::Address(a) => Ok(mem[a]),
        }
    }

    /// The address, which this result must be.
    pub fn expect_address(&self) -> (r: Result<usize, Error>)
        ensures
            match *self {
                RetType::Address(a) => r == Ok::<usize, Error>(a),
                RetType::Num(_) => is_failure(r, ErrorKind::TypeError),
            },
    {
        match *self {
            RetType::Address(a) => Ok(a),
            RetType::Num(_) => failure(ErrorKind::TypeError),
        }
    }
}

} // verus!

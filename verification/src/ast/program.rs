//! A program: a list of statements.

use vstd::prelude::*;
use crate::ast::eval::{run, Store};
use crate::ast::grammar;
use crate::ast::node::Node;
use crate::ast::parser::trees;
use crate::ast::store::VarTable;
use crate::ast::tree::Tree;
use crate::error::{answers, is_failure, Error};
use crate::tokenize::generator::TokenGen;
use crate::tokenize::kind::TokenKind;
use crate::tokenize::stream::current_at;

verus! {

/// The statements of a source text, in order.
#[derive(Debug)]
pub struct Program {
    stmts: Vec<Node>,
}

impl View for Program {
    type V = Seq<Tree>;

    closed spec fn view(&self) -> Seq<Tree> {
        trees(self.stmts@)
    }
}

impl Program {
    /// Parses the statements from the cursor of `token` up to the end of
    /// the input.
    pub fn from_tokens(token: &mut TokenGen) -> (r: Result<Self, Error>)
        requires
            old(token).wf(),
        ensures
            final(token).follows(
                *old(token),
                grammar::program(old(token).stream(), old(token).cursor()).used,
            ),
            match grammar::program(old(token).stream(), old(token).cursor()).result {
                Ok(stmts) => r is Ok && r->Ok_0@ == stmts,
                Err(k) => is_failure(r, k),
            },
            r is Ok ==> current_at(final(token).stream(), final(token).cursor()).tk
                == TokenKind::Eof,
    {
        match Node::program(token) {
            Ok(nodes) => Ok(Self { stmts: nodes }),
            Err(e) => Err(e),
        }
    }

    /// The number of statements.
    pub fn len(&self) -> (n: usize)
        ensures
            n == self@.len(),
    {
        self.stmts.len()
    }

    /// The `i`-th statement.
    pub fn statement(&self, i: usize) -> (node: &Node)
        requires
            i < self@.len(),
        ensures
            node@ == self@[i as int],
    {
        &self.stmts[i]
    }

    /// Evaluates the statements in order on the variables `var` and the
    /// memory `mem`, up to the first failure.
    pub fn compile(&self, var: &mut VarTable, mem: &mut Vec<i32>) -> (r: Result<(), Error>)
        requires
            old(var).wf(),
            (Store { vars: old(var)@, mem: old(mem)@ }).in_range(),
        ensures
            final(var).wf(),
            final(var)@ == run(self@, Store { vars: old(var)@, mem: old(mem)@ }).store.vars,
            final(mem)@ == run(self@, Store { vars: old(var)@, mem: old(mem)@ }).store.mem,
            answers(r, run(self@, Store { vars: old(var)@, mem: old(mem)@ }).result),
            (Store { vars: final(var)@, mem: final(mem)@ }).in_range(),
    {
        let ghost start = Store { vars: var@, mem: mem@ };
        let mut i: usize = 0;
        assert(self@.skip(0) =~= self@);
        while i < self.stmts.len()
            invariant
                i <= self.stmts@.len(),
                var.wf(),
                (Store { vars: var@, mem: mem@ }).in_range(),
                start == (Store { vars: old(var)@, mem: old(mem)@ }),
                run(self@, start) == run(self@.skip(i as int), Store { vars: var@, mem: mem@ }),
            decreases self.stmts@.len() - i,
        {
            let ghost rest = self@.skip(i as int);
            assert(rest[0] == self.stmts@[i as int]@);
            assert(rest.drop_first() =~= self@.skip(i + 1));
            match self.stmts[i].compile(var, mem) {
                Ok(_) => {},
                Err(e) => {
                    return Err(e);
                },
            }
            i += 1;
        }
        Ok(())
    }
}

} // verus!

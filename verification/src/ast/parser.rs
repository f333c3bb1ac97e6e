//! The recursive-descent parser: one function for each level of the
//! grammar, each proved to build the tree that the grammar gives.

use vstd::prelude::*;
use crate::ast::grammar;
use crate::ast::grammar::{mark, mark2};
use crate::ast::unfold;
use crate::ast::node::Node;
use crate::ast::nodetype::Ntype;
use crate::ast::tree::Tree;
use crate::datatype::DataUnion;
use crate::error::{failure, is_failure, Error, ErrorKind};
use crate::tokenize::generator::TokenGen;
use crate::tokenize::kind::TokenKind;
use crate::tokenize::stream::{
    current_at, lemma_consume_moves, lemma_expect_moves, lemma_ident_moves, lemma_number_moves,
    remaining, Taken,
};

verus! {

/// Whether `r` is what `want` asks for: a node with that tree, or the
/// failure of that kind without a description.
pub open spec fn yields(r: Result<Node, Error>, want: Result<Tree, ErrorKind>) -> bool {
    match want {
        Ok(tree) => r is Ok && r->Ok_0@ == tree,
        Err(k) => is_failure(r, k),
    }
}

/// The trees of a list of nodes, in order.
pub open spec fn trees(nodes: Seq<Node>) -> Seq<Tree> {
    Seq::new(nodes.len(), |i: int| nodes[i]@)
}

/// Whether `r` is what `want` asks for: nodes with those trees, or the
/// failure of that kind without a description.
pub open spec fn yields_all(r: Result<Vec<Node>, Error>, want: Result<Seq<Tree>, ErrorKind>) -> bool {
    match want {
        Ok(list) => r is Ok && trees(r->Ok_0@) == list,
        Err(k) => is_failure(r, k),
    }
}

/// The outcome `rest` of parsing the statements that follow `before`,
/// which took `used` lexemes.
pub open spec fn prefixed(before: Seq<Tree>, used: nat, rest: Taken<Seq<Tree>>) -> Taken<
    Seq<Tree>,
> {
    Taken {
        result: match rest.result {
            Ok(nodes) => Ok(before + nodes),
            Err(k) => Err(k),
        },
        used: used + rest.used,
    }
}

/// The payload of the operator `c`.
fn op(c: char) -> (r: DataUnion)
    ensures
        r@ == mark(c),
{
    DataUnion::char(c)
}

/// The payload of the operator made of `a` and `b`.
fn op2(a: char, b: char) -> (r: DataUnion)
    ensures
        r@ == mark2(a, b),
{
    let mut text: Vec<char> = Vec::new();
    text.push(a);
    text.push(b);
    assert(text@ =~= seq![a, b]);
    DataUnion::String(text)
}

impl Node {
    /// Parses a whole source text: every statement up to the end of the
    /// input.
    pub fn gen_tree(token: &mut TokenGen) -> (r: Result<Vec<Node>, Error>)
        requires
            old(token).wf(),
        ensures
            final(token).follows(
                *old(token),
                grammar::program(old(token).stream(), old(token).cursor()).used,
            ),
            yields_all(r, grammar::program(old(token).stream(), old(token).cursor()).result),
            r is Ok ==> current_at(final(token).stream(), final(token).cursor()).tk
                == TokenKind::Eof,
    {
        let tr = match Node::program(token) {
            Ok(tr) => tr,
            Err(e) => {
                return Err(e);
            },
        };
        if token.current().is_kind(TokenKind::Eof) {
            Ok(tr)
        } else {
            failure(ErrorKind::InvalidData)
        }
    }

    /// `program := statement* end-of-input`
    pub fn program(token: &mut TokenGen) -> (r: Result<Vec<Node>, Error>)
        requires
            old(token).wf(),
        ensures
            final(token).follows(
                *old(token),
                grammar::program(old(token).stream(), old(token).cursor()).used,
            ),
            yields_all(r, grammar::program(old(token).stream(), old(token).cursor()).result),
            r is Ok ==> current_at(final(token).stream(), final(token).cursor()).tk
                == TokenKind::Eof,
    {
        let ghost toks = token.stream();
        let ghost start = token.cursor();
        let mut nodes: Vec<Node> = Vec::new();
        assert(trees(nodes@) =~= Seq::<Tree>::empty());
        loop
            invariant
                token.wf(),
                token@.code == old(token)@.code,
                toks == old(token).stream(),
                start == old(token).cursor(),
                start <= token.cursor(),
                grammar::program(toks, start) == prefixed(
                    trees(nodes@),
                    (token.cursor() - start) as nat,
                    grammar::program(toks, token.cursor()),
                ),
            decreases remaining(toks, token.cursor()),
        {
            let ghost here = token.cursor();
            let ghost before = trees(nodes@);
            proof {
                unfold::lemma_program_unfolds(toks, here);
                unfold::lemma_stmt_unfolds(toks, here);
            }
            if token.current().is_kind(TokenKind::Eof) {
                assert(before + Seq::<Tree>::empty() =~= before);
                return Ok(nodes);
            }
            proof {
                lemma_expect_moves(toks, here + grammar::expr(toks, here).used, mark(';'));
            }
            match Node::stmt(token) {
                Ok(node) => {
                    let ghost tree = node@;
                    nodes.push(node);
                    proof {
                        assert(trees(nodes@) =~= before.push(tree));
                        let rest = grammar::program(toks, token.cursor());
                        if rest.result is Ok {
                            assert(before + (seq![tree] + rest.result->Ok_0) =~= before.push(tree)
                                + rest.result->Ok_0);
                        }
                    }
                },
                Err(e) => {
                    return Err(e);
                },
            }
        }
    }

    /// `statement := expression ';'`
    pub fn stmt(token: &mut TokenGen) -> (r: Result<Node, Error>)
        requires
            old(token).wf(),
        ensures
            final(token).follows(
                *old(token),
                grammar::stmt(old(token).stream(), old(token).cursor()).used,
            ),
            yields(r, grammar::stmt(old(token).stream(), old(token).cursor()).result),
    {
        proof {
            unfold::lemma_stmt_unfolds(token.stream(), token.cursor());
        }
        let node = match Node::expr(token) {
            Ok(n) => n,
            Err(e) => {
                return Err(e);
            },
        };
        match token.expect(op(';')) {
            Ok(_) => Ok(node),
            Err(e) => Err(e),
        }
    }

    /// `expression := assignment`
    pub fn expr(token: &mut TokenGen) -> (r: Result<Node, Error>)
        requires
            old(token).wf(),
        ensures
            final(token).follows(
                *old(token),
                grammar::expr(old(token).stream(), old(token).cursor()).used,
            ),
            yields(r, grammar::expr(old(token).stream(), old(token).cursor()).result),
        decreases remaining(old(token).stream(), old(token).cursor()), 10nat,
    {
        proof {
            unfold::lemma_expr_unfolds(token.stream(), token.cursor());
        }
        Node::assign(token)
    }

    /// `assignment := equality ( '=' assignment )?`
    pub fn assign(token: &mut TokenGen) -> (r: Result<Node, Error>)
        requires
            old(token).wf(),
        ensures
            final(token).follows(
                *old(token),
                grammar::assign(old(token).stream(), old(token).cursor()).used,
            ),
            yields(r, grammar::assign(old(token).stream(), old(token).cursor()).result),
        decreases remaining(old(token).stream(), old(token).cursor()), 9nat,
    {
        proof {
            unfold::lemma_assign_unfolds(token.stream(), token.cursor());
        }
        let ghost toks = token.stream();
        let node = match Node::equality(token) {
            Ok(n) => n,
            Err(e) => {
                return Err(e);
            },
        };
        proof {
            lemma_consume_moves(toks, token.cursor(), mark('='));
        }
        match token.consume(op('=')) {
            Err(e) => Err(e),
            Ok(true) => match Node::assign(token) {
                Ok(value) => Ok(Node::from_child(value, node, Ntype::Assign)),
                Err(e) => Err(e),
            },
            Ok(false) => Ok(node),
        }
    }

    /// `equality := relational ( ('==' | '!=') relational )*`
    pub fn equality(token: &mut TokenGen) -> (r: Result<Node, Error>)
        requires
            old(token).wf(),
        ensures
            final(token).follows(
                *old(token),
                grammar::equality(old(token).stream(), old(token).cursor()).used,
            ),
            yields(r, grammar::equality(old(token).stream(), old(token).cursor()).result),
        decreases remaining(old(token).stream(), old(token).cursor()), 8nat,
    {
        let ghost toks = token.stream();
        let ghost start = token.cursor();
        proof {
            unfold::lemma_equality_unfolds(toks, start);
        }
        let mut node = match Node::relational(token) {
            Ok(n) => n,
            Err(e) => {
                return Err(e);
            },
        };
        loop
            invariant
                token.wf(),
                token@.code == old(token)@.code,
                toks == old(token).stream(),
                start == old(token).cursor(),
                start <= token.cursor(),
                remaining(toks, token.cursor()) <= remaining(toks, start),
                grammar::equality(toks, start).result == grammar::equality_rest(
                    toks,
                    token.cursor(),
                    node@,
                ).result,
                grammar::equality(toks, start).used == (token.cursor() - start) + grammar::equality_rest(
                    toks,
                    token.cursor(),
                    node@,
                ).used,
            decreases remaining(toks, token.cursor()),
        {
            let ghost here = token.cursor();
            proof {
                unfold::lemma_equality_rest_unfolds(toks, here, node@);
                lemma_consume_moves(toks, here, mark2('=', '='));
                lemma_consume_moves(toks, here, mark2('!', '='));
                token.lemma_current_consistent();
            }
            match token.consume(op2('=', '=')) {
                Err(e) => {
                    return Err(e);
                },
                Ok(true) => {
                    match Node::relational(token) {
                        Ok(right) => {
                            node = Node::from_child(node, right, Ntype::Eq);
                        },
                        Err(e) => {
                            return Err(e);
                        },
                    }
                },
                Ok(false) => match token.consume(op2('!', '=')) {
                    Err(e) => {
                        return Err(e);
                    },
                    Ok(true) => {
                        match Node::relational(token) {
                            Ok(right) => {
                                node = Node::from_child(node, right, Ntype::Neq);
                            },
                            Err(e) => {
                                return Err(e);
                            },
                        }
                    },
                    Ok(false) => {
                        return Ok(node);
                    },
                },
            }
        }
    }

    /// `relational := additive ( ('>' | '<' | '>=' | '<=') relational )?`
    pub fn relational(token: &mut TokenGen) -> (r: Result<Node, Error>)
        requires
            old(token).wf(),
        ensures
            final(token).follows(
                *old(token),
                grammar::relational(old(token).stream(), old(token).cursor()).used,
            ),
            yields(r, grammar::relational(old(token).stream(), old(token).cursor()).result),
        decreases remaining(old(token).stream(), old(token).cursor()), 6nat,
    {
        proof {
            reveal(grammar::relation);
            unfold::lemma_relational_unfolds(token.stream(), token.cursor());
        }
        let ghost toks = token.stream();
        let node = match Node::add(token) {
            Ok(n) => n,
            Err(e) => {
                return Err(e);
            },
        };
        proof {
            let here = token.cursor();
            lemma_consume_moves(toks, here, mark('>'));
            lemma_consume_moves(toks, here, mark('<'));
            lemma_consume_moves(toks, here, mark2('>', '='));
            lemma_consume_moves(toks, here, mark2('<', '='));
        }
        match token.consume(op('>')) {
            Err(e) => Err(e),
            Ok(true) => match Node::relational(token) {
                Ok(right) => Ok(Node::from_child(node, right, Ntype::Greater)),
                Err(e) => Err(e),
            },
            Ok(false) => match token.consume(op('<')) {
                Err(e) => Err(e),
                Ok(true) => match Node::relational(token) {
                    Ok(right) => Ok(Node::from_child(right, node, Ntype::Greater)),
                    Err(e) => Err(e),
                },
                Ok(false) => match token.consume(op2('>', '=')) {
                    Err(e) => Err(e),
                    Ok(true) => match Node::relational(token) {
                        Ok(right) => Ok(Node::from_child(node, right, Ntype::GreaterEq)),
                        Err(e) => Err(e),
                    },
                    Ok(false) => match token.consume(op2('<', '=')) {
                        Err(e) => Err(e),
                        Ok(true) => match Node::relational(token) {
                            Ok(right) => Ok(Node::from_child(right, node, Ntype::GreaterEq)),
                            Err(e) => Err(e),
                        },
                        Ok(false) => Ok(node),
                    },
                },
            },
        }
    }

    /// `additive := multiplicative ( ('+' | '-') multiplicative )*`
    pub fn add(token: &mut TokenGen) -> (r: Result<Node, Error>)
        requires
            old(token).wf(),
        ensures
            final(token).follows(
                *old(token),
                grammar::additive(old(token).stream(), old(token).cursor()).used,
            ),
            yields(r, grammar::additive(old(token).stream(), old(token).cursor()).result),
        decreases remaining(old(token).stream(), old(token).cursor()), 5nat,
    {
        let ghost toks = token.stream();
        let ghost start = token.cursor();
        proof {
            unfold::lemma_additive_unfolds(toks, start);
        }
        let mut node = match Node::mul(token) {
            Ok(n) => n,
            Err(e) => {
                return Err(e);
            },
        };
        loop
            invariant
                token.wf(),
                token@.code == old(token)@.code,
                toks == old(token).stream(),
                start == old(token).cursor(),
                start <= token.cursor(),
                remaining(toks, token.cursor()) <= remaining(toks, start),
                grammar::additive(toks, start).result == grammar::additive_rest(
                    toks,
                    token.cursor(),
                    node@,
                ).result,
                grammar::additive(toks, start).used == (token.cursor() - start) + grammar::additive_rest(
                    toks,
                    token.cursor(),
                    node@,
                ).used,
            decreases remaining(toks, token.cursor()),
        {
            let ghost here = token.cursor();
            proof {
                unfold::lemma_additive_rest_unfolds(toks, here, node@);
                lemma_consume_moves(toks, here, mark('+'));
                lemma_consume_moves(toks, here, mark('-'));
                token.lemma_current_consistent();
            }
            if token.current().is_kind(TokenKind::Eof) {
                return Ok(node);
            }
            match token.consume(op('+')) {
                Err(e) => {
                    return Err(e);
                },
                Ok(true) => {
                    match Node::mul(token) {
                        Ok(right) => {
                            node = Node::from_child(node, right, Ntype::Add);
                        },
                        Err(e) => {
                            return Err(e);
                        },
                    }
                },
                Ok(false) => match token.consume(op('-')) {
                    Err(e) => {
                        return Err(e);
                    },
                    Ok(true) => {
                        match Node::mul(token) {
                            Ok(right) => {
                                node = Node::from_child(node, right, Ntype::Sub);
                            },
                            Err(e) => {
                                return Err(e);
                            },
                        }
                    },
                    Ok(false) => {
                        return Ok(node);
                    },
                },
            }
        }
    }

    /// `multiplicative := unary ( ('*' | '/') unary )*`
    pub fn mul(token: &mut TokenGen) -> (r: Result<Node, Error>)
        requires
            old(token).wf(),
        ensures
            final(token).follows(
                *old(token),
                grammar::multiplicative(old(token).stream(), old(token).cursor()).used,
            ),
            yields(r, grammar::multiplicative(old(token).stream(), old(token).cursor()).result),
        decreases remaining(old(token).stream(), old(token).cursor()), 3nat,
    {
        let ghost toks = token.stream();
        let ghost start = token.cursor();
        proof {
            unfold::lemma_multiplicative_unfolds(toks, start);
        }
        let mut node = match Node::unary(token) {
            Ok(n) => n,
            Err(e) => {
                return Err(e);
            },
        };
        loop
            invariant
                token.wf(),
                token@.code == old(token)@.code,
                toks == old(token).stream(),
                start == old(token).cursor(),
                start <= token.cursor(),
                remaining(toks, token.cursor()) <= remaining(toks, start),
                grammar::multiplicative(toks, start).result == grammar::multiplicative_rest(
                    toks,
                    token.cursor(),
                    node@,
                ).result,
                grammar::multiplicative(toks, start).used == (token.cursor() - start) + grammar::multiplicative_rest(
                    toks,
                    token.cursor(),
                    node@,
                ).used,
            decreases remaining(toks, token.cursor()),
        {
            let ghost here = token.cursor();
            proof {
                unfold::lemma_multiplicative_rest_unfolds(toks, here, node@);
                lemma_consume_moves(toks, here, mark('*'));
                lemma_consume_moves(toks, here, mark('/'));
                token.lemma_current_consistent();
            }
            if token.current().is_kind(TokenKind::Eof) {
                return Ok(node);
            }
            match token.consume(op('*')) {
                Err(e) => {
                    return Err(e);
                },
                Ok(true) => {
                    match Node::unary(token) {
                        Ok(right) => {
                            node = Node::from_child(node, right, Ntype::Mul);
                        },
                        Err(e) => {
                            return Err(e);
                        },
                    }
                },
                Ok(false) => match token.consume(op('/')) {
                    Err(e) => {
                        return Err(e);
                    },
                    Ok(true) => {
                        match Node::unary(token) {
                            Ok(right) => {
                                node = Node::from_child(node, right, Ntype::Div);
                            },
                            Err(e) => {
                                return Err(e);
                            },
                        }
                    },
                    Ok(false) => {
                        return Ok(node);
                    },
                },
            }
        }
    }

    /// `unary := '+' unary | '-' primary | primary`
    pub fn unary(token: &mut TokenGen) -> (r: Result<Node, Error>)
        requires
            old(token).wf(),
        ensures
            final(token).follows(
                *old(token),
                grammar::unary(old(token).stream(), old(token).cursor()).used,
            ),
            yields(r, grammar::unary(old(token).stream(), old(token).cursor()).result),
        decreases remaining(old(token).stream(), old(token).cursor()), 1nat,
    {
        proof {
            unfold::lemma_unary_unfolds(token.stream(), token.cursor());
        }
        proof {
            lemma_consume_moves(token.stream(), token.cursor(), mark('+'));
            lemma_consume_moves(token.stream(), token.cursor(), mark('-'));
        }
        match token.consume(op('+')) {
            Err(e) => Err(e),
            Ok(true) => Node::unary(token),
            Ok(false) => match token.consume(op('-')) {
                Err(e) => Err(e),
                Ok(true) => match Node::primary(token) {
                    Ok(node) => Ok(Node::from_child(Node::number(0), node, Ntype::Sub)),
                    Err(e) => Err(e),
                },
                Ok(false) => Node::primary(token),
            },
        }
    }

    /// `primary := '(' expression ')' | number | identifier`
    pub fn primary(token: &mut TokenGen) -> (r: Result<Node, Error>)
        requires
            old(token).wf(),
        ensures
            final(token).follows(
                *old(token),
                grammar::primary(old(token).stream(), old(token).cursor()).used,
            ),
            yields(r, grammar::primary(old(token).stream(), old(token).cursor()).result),
        decreases remaining(old(token).stream(), old(token).cursor()), 0nat,
    {
        proof {
            unfold::lemma_primary_unfolds(token.stream(), token.cursor());
        }
        proof {
            lemma_consume_moves(token.stream(), token.cursor(), mark('('));
            lemma_number_moves(token.stream(), token.cursor());
            lemma_ident_moves(token.stream(), token.cursor());
        }
        match token.consume(op('(')) {
            Err(e) => Err(e),
            Ok(true) => {
                let node = match Node::expr(token) {
                    Ok(n) => n,
                    Err(e) => {
                        return Err(e);
                    },
                };
                match token.expect(op(')')) {
                    Ok(_) => Ok(node),
                    Err(e) => Err(e),
                }
            },
            Ok(false) => {
                if token.consume_kind(TokenKind::Number) {
                    match token.get_number() {
                        Ok(n) => Ok(Node::number(n)),
                        Err(e) => Err(e),
                    }
                } else {
                    match token.get_ident() {
                        Ok(name) => Ok(Node::lvar(name)),
                        Err(e) => Err(e),
                    }
                }
            },
        }
    }
}

} // verus!

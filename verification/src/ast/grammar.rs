//! The grammar, as functions from a token stream and a position in it to
//! the tree that stands there.
//!
//! ```text
//! program        := statement* end-of-input
//! statement      := expression ';'
//! expression     := assignment
//! assignment     := equality ( '=' assignment )?
//! equality       := relational ( ('==' | '!=') relational )*
//! relational     := additive ( ('>' | '<' | '>=' | '<=') relational )?
//! additive       := multiplicative ( ('+' | '-') multiplicative )*
//! multiplicative := unary ( ('*' | '/') unary )*
//! unary          := '+' unary | '-' primary | primary
//! primary        := '(' expression ')' | number | identifier
//! ```

use vstd::prelude::*;
use crate::ast::nodetype::Ntype;
use crate::ast::tree::Tree;
use crate::datatype::Data;
use crate::error::ErrorKind;
use crate::tokenize::kind::TokenKind;
use crate::tokenize::scan::Lexeme;
use crate::tokenize::stream::{
    consume_at, current_at, expect_at, ident_at, lemma_consume_moves,
    lemma_consume_moves_everywhere, lemma_expect_moves, number_at, remaining, Taken,
};

verus! {

/// The payload of an operator of one character.
pub open spec fn mark(c: char) -> Data {
    Data::String(seq![c])
}

/// The payload of an operator of two characters.
pub open spec fn mark2(a: char, b: char) -> Data {
    Data::String(seq![a, b])
}

/// A failure after `used` lexemes.
pub open spec fn fail<T>(kind: ErrorKind, used: nat) -> Taken<T> {
    Taken { result: Err(kind), used }
}

/// A success after `used` lexemes.
pub open spec fn done<T>(value: T, used: nat) -> Taken<T> {
    Taken { result: Ok(value), used }
}

/// The outcome `t` of a step that began after `used` lexemes.
pub open spec fn after<T>(used: nat, t: Taken<T>) -> Taken<T> {
    Taken { result: t.result, used: used + t.used }
}

/// `primary := '(' expression ')' | number | identifier`
#[verifier::opaque]
pub open spec fn primary(toks: Seq<Lexeme>, pos: int) -> Taken<Tree>
    decreases remaining(toks, pos), 0nat
    via primary_terminates
{
    let open = consume_at(toks, pos, mark('('));
    match open.result {
        Err(k) => fail(k, open.used),
        Ok(true) => {
            let inner = expr(toks, pos + open.used);
            match inner.result {
                Err(k) => fail(k, open.used + inner.used),
                Ok(node) => {
                    let close = expect_at(toks, pos + open.used + inner.used, mark(')'));
                    match close.result {
                        Err(k) => fail(k, open.used + inner.used + close.used),
                        Ok(_) => done(node, open.used + inner.used + close.used),
                    }
                },
            }
        },
        Ok(false) => if current_at(toks, pos).tk == TokenKind::Number {
            let n = number_at(toks, pos);
            match n.result {
                Err(k) => fail(k, n.used),
                Ok(v) => done(Tree::number(v), n.used),
            }
        } else {
            let name = ident_at(toks, pos);
            match name.result {
                Err(k) => fail(k, name.used),
                Ok(s) => done(Tree::lvar(s), name.used),
            }
        },
    }
}

#[via_fn]
proof fn primary_terminates(toks: Seq<Lexeme>, pos: int) {
    lemma_consume_moves(toks, pos, mark('('));
}

/// `unary := '+' unary | '-' primary | primary`, where `+x` stands for
/// `x` and `-x` for `0 - x`.
#[verifier::opaque]
pub open spec fn unary(toks: Seq<Lexeme>, pos: int) -> Taken<Tree>
    decreases remaining(toks, pos), 1nat
    via unary_terminates
{
    let plus = consume_at(toks, pos, mark('+'));
    match plus.result {
        Err(k) => fail(k, plus.used),
        Ok(true) => after(plus.used, unary(toks, pos + plus.used)),
        Ok(false) => {
            let minus = consume_at(toks, pos, mark('-'));
            match minus.result {
                Err(k) => fail(k, minus.used),
                Ok(true) => {
                    let operand = primary(toks, pos + minus.used);
                    match operand.result {
                        Err(k) => fail(k, minus.used + operand.used),
                        Ok(node) => done(
                            Tree::binary(Ntype::Sub, Tree::number(0), node),
                            minus.used + operand.used,
                        ),
                    }
                },
                Ok(false) => primary(toks, pos),
            }
        },
    }
}

#[via_fn]
proof fn unary_terminates(toks: Seq<Lexeme>, pos: int) {
    lemma_consume_moves(toks, pos, mark('+'));
    lemma_consume_moves(toks, pos, mark('-'));
}

/// What follows a product or quotient whose value so far is `left`.
#[verifier::opaque]
pub open spec fn multiplicative_rest(toks: Seq<Lexeme>, pos: int, left: Tree) -> Taken<Tree>
    decreases remaining(toks, pos), 2nat
    via multiplicative_rest_terminates
{
    let times = consume_at(toks, pos, mark('*'));
    match times.result {
        Err(k) => fail(k, times.used),
        Ok(true) => {
            let right = unary(toks, pos + times.used);
            match right.result {
                Err(k) => fail(k, times.used + right.used),
                Ok(node) => after(
                    times.used + right.used,
                    multiplicative_rest(
                        toks,
                        pos + times.used + right.used,
                        Tree::binary(Ntype::Mul, left, node),
                    ),
                ),
            }
        },
        Ok(false) => {
            let over = consume_at(toks, pos, mark('/'));
            match over.result {
                Err(k) => fail(k, over.used),
                Ok(true) => {
                    let right = unary(toks, pos + over.used);
                    match right.result {
                        Err(k) => fail(k, over.used + right.used),
                        Ok(node) => after(
                            over.used + right.used,
                            multiplicative_rest(
                                toks,
                                pos + over.used + right.used,
                                Tree::binary(Ntype::Div, left, node),
                            ),
                        ),
                    }
                },
                Ok(false) => done(left, 0),
            }
        },
    }
}

#[via_fn]
proof fn multiplicative_rest_terminates(toks: Seq<Lexeme>, pos: int, left: Tree) {
    lemma_consume_moves(toks, pos, mark('*'));
    lemma_consume_moves(toks, pos, mark('/'));
}

/// `multiplicative := unary ( ('*' | '/') unary )*`, grouping to the left.
#[verifier::opaque]
pub open spec fn multiplicative(toks: Seq<Lexeme>, pos: int) -> Taken<Tree>
    decreases remaining(toks, pos), 3nat,
{
    let first = unary(toks, pos);
    match first.result {
        Err(k) => fail(k, first.used),
        Ok(node) => after(first.used, multiplicative_rest(toks, pos + first.used, node)),
    }
}

/// What follows a sum or difference whose value so far is `left`.
#[verifier::opaque]
pub open spec fn additive_rest(toks: Seq<Lexeme>, pos: int, left: Tree) -> Taken<Tree>
    decreases remaining(toks, pos), 4nat
    via additive_rest_terminates
{
    let plus = consume_at(toks, pos, mark('+'));
    match plus.result {
        Err(k) => fail(k, plus.used),
        Ok(true) => {
            let right = multiplicative(toks, pos + plus.used);
            match right.result {
                Err(k) => fail(k, plus.used + right.used),
                Ok(node) => after(
                    plus.used + right.used,
                    additive_rest(
                        toks,
                        pos + plus.used + right.used,
                        Tree::binary(Ntype::Add, left, node),
                    ),
                ),
            }
        },
        Ok(false) => {
            let minus = consume_at(toks, pos, mark('-'));
            match minus.result {
                Err(k) => fail(k, minus.used),
                Ok(true) => {
                    let right = multiplicative(toks, pos + minus.used);
                    match right.result {
                        Err(k) => fail(k, minus.used + right.used),
                        Ok(node) => after(
                            minus.used + right.used,
                            additive_rest(
                                toks,
                                pos + minus.used + right.used,
                                Tree::binary(Ntype::Sub, left, node),
                            ),
                        ),
                    }
                },
                Ok(false) => done(left, 0),
            }
        },
    }
}

#[via_fn]
proof fn additive_rest_terminates(toks: Seq<Lexeme>, pos: int, left: Tree) {
    lemma_consume_moves(toks, pos, mark('+'));
    lemma_consume_moves(toks, pos, mark('-'));
}

/// `additive := multiplicative ( ('+' | '-') multiplicative )*`, grouping
/// to the left.
#[verifier::opaque]
pub open spec fn additive(toks: Seq<Lexeme>, pos: int) -> Taken<Tree>
    decreases remaining(toks, pos), 5nat,
{
    let first = multiplicative(toks, pos);
    match first.result {
        Err(k) => fail(k, first.used),
        Ok(node) => after(first.used, additive_rest(toks, pos + first.used, node)),
    }
}

/// The comparison that a relational operator stands for, and whether its
/// operands change places: `a < b` is `b > a`, and `a <= b` is `b >= a`.
#[verifier::opaque]
pub open spec fn relation(data: Data) -> Option<(Ntype, bool)> {
    if data == mark('>') {
        Some((Ntype::Greater, false))
    } else if data == mark('<') {
        Some((Ntype::Greater, true))
    } else if data == mark2('>', '=') {
        Some((Ntype::GreaterEq, false))
    } else if data == mark2('<', '=') {
        Some((Ntype::GreaterEq, true))
    } else {
        None
    }
}

/// `relational := additive ( ('>' | '<' | '>=' | '<=') relational )?`,
/// grouping to the right. Only `>` and `>=` reach the tree.
#[verifier::opaque]
pub open spec fn relational(toks: Seq<Lexeme>, pos: int) -> Taken<Tree>
    decreases remaining(toks, pos), 6nat
    via relational_terminates
{
    let left = additive(toks, pos);
    match left.result {
        Err(k) => fail(k, left.used),
        Ok(node) => match relation(current_at(toks, pos + left.used).data) {
            None => done(node, left.used),
            Some((ty, swapped)) => {
                let op = consume_at(
                    toks,
                    pos + left.used,
                    current_at(toks, pos + left.used).data,
                );
                match op.result {
                    Err(k) => fail(k, left.used + op.used),
                    Ok(_) => {
                        let right = relational(toks, pos + left.used + op.used);
                        match right.result {
                            Err(k) => fail(k, left.used + op.used + right.used),
                            Ok(other) => done(
                                if swapped {
                                    Tree::binary(ty, other, node)
                                } else {
                                    Tree::binary(ty, node, other)
                                },
                                left.used + op.used + right.used,
                            ),
                        }
                    },
                }
            },
        },
    }
}

#[via_fn]
proof fn relational_terminates(toks: Seq<Lexeme>, pos: int) {
    reveal(relation);
    lemma_consume_moves_everywhere(toks);
}

/// What follows an equality test whose value so far is `left`.
#[verifier::opaque]
pub open spec fn equality_rest(toks: Seq<Lexeme>, pos: int, left: Tree) -> Taken<Tree>
    decreases remaining(toks, pos), 7nat
    via equality_rest_terminates
{
    let same = consume_at(toks, pos, mark2('=', '='));
    match same.result {
        Err(k) => fail(k, same.used),
        Ok(true) => {
            let right = relational(toks, pos + same.used);
            match right.result {
                Err(k) => fail(k, same.used + right.used),
                Ok(node) => after(
                    same.used + right.used,
                    equality_rest(
                        toks,
                        pos + same.used + right.used,
                        Tree::binary(Ntype::Eq, left, node),
                    ),
                ),
            }
        },
        Ok(false) => {
            let differ = consume_at(toks, pos, mark2('!', '='));
            match differ.result {
                Err(k) => fail(k, differ.used),
                Ok(true) => {
                    let right = relational(toks, pos + differ.used);
                    match right.result {
                        Err(k) => fail(k, differ.used + right.used),
                        Ok(node) => after(
                            differ.used + right.used,
                            equality_rest(
                                toks,
                                pos + differ.used + right.used,
                                Tree::binary(Ntype::Neq, left, node),
                            ),
                        ),
                    }
                },
                Ok(false) => done(left, 0),
            }
        },
    }
}

#[via_fn]
proof fn equality_rest_terminates(toks: Seq<Lexeme>, pos: int, left: Tree) {
    lemma_consume_moves(toks, pos, mark2('=', '='));
    lemma_consume_moves(toks, pos, mark2('!', '='));
}

/// `equality := relational ( ('==' | '!=') relational )*`, grouping to
/// the left.
#[verifier::opaque]
pub open spec fn equality(toks: Seq<Lexeme>, pos: int) -> Taken<Tree>
    decreases remaining(toks, pos), 8nat,
{
    let first = relational(toks, pos);
    match first.result {
        Err(k) => fail(k, first.used),
        Ok(node) => after(first.used, equality_rest(toks, pos + first.used, node)),
    }
}

/// `assignment := equality ( '=' assignment )?`, grouping to the right.
/// The value assigned is the first operand of the node, the target the
/// second.
#[verifier::opaque]
pub open spec fn assign(toks: Seq<Lexeme>, pos: int) -> Taken<Tree>
    decreases remaining(toks, pos), 9nat
    via assign_terminates
{
    let target = equality(toks, pos);
    match target.result {
        Err(k) => fail(k, target.used),
        Ok(node) => {
            let gets = consume_at(toks, pos + target.used, mark('='));
            match gets.result {
                Err(k) => fail(k, target.used + gets.used),
                Ok(false) => done(node, target.used),
                Ok(true) => {
                    let value = assign(toks, pos + target.used + gets.used);
                    match value.result {
                        Err(k) => fail(k, target.used + gets.used + value.used),
                        Ok(rhs) => done(
                            Tree::binary(Ntype::Assign, rhs, node),
                            target.used + gets.used + value.used,
                        ),
                    }
                },
            }
        },
    }
}

#[via_fn]
proof fn assign_terminates(toks: Seq<Lexeme>, pos: int) {
    lemma_consume_moves_everywhere(toks);
}

/// `expression := assignment`
#[verifier::opaque]
pub open spec fn expr(toks: Seq<Lexeme>, pos: int) -> Taken<Tree>
    decreases remaining(toks, pos), 10nat,
{
    assign(toks, pos)
}

/// `statement := expression ';'`
#[verifier::opaque]
pub open spec fn stmt(toks: Seq<Lexeme>, pos: int) -> Taken<Tree> {
    let e = expr(toks, pos);
    match e.result {
        Err(k) => fail(k, e.used),
        Ok(node) => {
            let end = expect_at(toks, pos + e.used, mark(';'));
            match end.result {
                Err(k) => fail(k, e.used + end.used),
                Ok(_) => done(node, e.used + end.used),
            }
        },
    }
}

/// `program := statement* end-of-input`: the statements from `pos` up to
/// the end of the input, in order.
#[verifier::opaque]
pub open spec fn program(toks: Seq<Lexeme>, pos: int) -> Taken<Seq<Tree>>
    decreases remaining(toks, pos)
    via program_terminates
{
    if current_at(toks, pos).tk == TokenKind::Eof {
        done(Seq::empty(), 0)
    } else {
        let first = stmt(toks, pos);
        match first.result {
            Err(k) => fail(k, first.used),
            Ok(node) => {
                let rest = program(toks, pos + first.used);
                match rest.result {
                    Err(k) => fail(k, first.used + rest.used),
                    Ok(nodes) => done(seq![node] + nodes, first.used + rest.used),
                }
            },
        }
    }
}

#[via_fn]
proof fn program_terminates(toks: Seq<Lexeme>, pos: int) {
    reveal(stmt);
    lemma_expect_moves(toks, pos + expr(toks, pos).used, mark(';'));
}

} // verus!

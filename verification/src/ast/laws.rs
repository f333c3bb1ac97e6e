//! What holds of every tree that the grammar produces.

use vstd::prelude::*;
use crate::ast::grammar::{
    additive, additive_rest, assign, equality, equality_rest, expr, mark, mark2, multiplicative,
    multiplicative_rest, primary, program, relation, relational, stmt, unary,
};
use crate::ast::nodetype::Ntype;
use crate::ast::tree::Tree;
use crate::ast::unfold::{
    lemma_additive_rest_unfolds, lemma_additive_unfolds, lemma_assign_unfolds,
    lemma_equality_rest_unfolds, lemma_equality_unfolds, lemma_expr_unfolds,
    lemma_multiplicative_rest_unfolds, lemma_multiplicative_unfolds, lemma_primary_unfolds,
    lemma_program_unfolds, lemma_relational_unfolds, lemma_stmt_unfolds, lemma_unary_unfolds,
};
use crate::error::ErrorKind;
use crate::tokenize::kind::TokenKind;
use crate::tokenize::scan::Lexeme;
use crate::tokenize::stream::{
    consume_at, current_at, lemma_consume_moves, lemma_expect_moves, remaining,
};

verus! {

/// Of the four relational operators only `>` and `>=` reach the tree:
/// `<` becomes `>` and `<=` becomes `>=`, each with its operands in
/// exchanged places.
pub proof fn lemma_relations_are_canonical()
    ensures
        relation(mark('>')) == Some((Ntype::Greater, false)),
        relation(mark('<')) == Some((Ntype::Greater, true)),
        relation(mark2('>', '=')) == Some((Ntype::GreaterEq, false)),
        relation(mark2('<', '=')) == Some((Ntype::GreaterEq, true)),
{
    reveal(relation);
    assert(seq!['<'][0] != seq!['>'][0]);
    assert(seq!['>', '='].len() != seq!['>'].len());
    assert(seq!['<', '='].len() != seq!['>'].len());
    assert(seq!['<', '='].len() != seq!['<'].len());
    assert(seq!['<', '='][0] != seq!['>', '='][0]);
}

/// A relational expression takes every relational operator that follows
/// it: where one has been parsed, the token after it is none of `>`, `<`,
/// `>=` and `<=`.
pub proof fn lemma_relational_takes_all(toks: Seq<Lexeme>, pos: int)
    ensures
        relational(toks, pos).result is Ok ==> relation(
            current_at(toks, pos + relational(toks, pos).used).data,
        ) is None,
    decreases remaining(toks, pos),
{
    reveal(relation);
    lemma_relational_unfolds(toks, pos);
    let left = additive(toks, pos);
    if left.result is Ok {
        let at = pos + left.used;
        let data = current_at(toks, at).data;
        if relation(data) is Some {
            lemma_consume_moves(toks, at, data);
            let op = consume_at(toks, at, data);
            if op.result is Ok {
                let right = relational(toks, at + op.used);
                lemma_relational_takes_all(toks, at + op.used);
                if right.result is Ok {
                    assert(relational(toks, pos).used == left.used + op.used + right.used);
                    assert(pos + relational(toks, pos).used == at + op.used + right.used);
                }
            }
        } else {
            assert(relational(toks, pos).used == left.used);
        }
    }
}

/// A primary expression that parses is well formed.
pub proof fn lemma_primary_well_formed(toks: Seq<Lexeme>, pos: int)
    ensures
        primary(toks, pos).result is Ok ==> primary(toks, pos).result->Ok_0.well_formed(),
    decreases remaining(toks, pos), 0nat,
{
    lemma_primary_unfolds(toks, pos);
    lemma_consume_moves(toks, pos, mark('('));
    let open = consume_at(toks, pos, mark('('));
    if open.result == Ok::<bool, ErrorKind>(true) {
        lemma_expr_well_formed(toks, pos + open.used);
    }
}

/// A unary expression that parses is well formed.
pub proof fn lemma_unary_well_formed(toks: Seq<Lexeme>, pos: int)
    ensures
        unary(toks, pos).result is Ok ==> unary(toks, pos).result->Ok_0.well_formed(),
    decreases remaining(toks, pos), 1nat,
{
    lemma_unary_unfolds(toks, pos);
    lemma_consume_moves(toks, pos, mark('+'));
    lemma_consume_moves(toks, pos, mark('-'));
    let plus = consume_at(toks, pos, mark('+'));
    let minus = consume_at(toks, pos, mark('-'));
    if plus.result == Ok::<bool, ErrorKind>(true) {
        lemma_unary_well_formed(toks, pos + plus.used);
    } else if plus.result == Ok::<bool, ErrorKind>(false) {
        if minus.result == Ok::<bool, ErrorKind>(true) {
            lemma_primary_well_formed(toks, pos + minus.used);
            let operand = primary(toks, pos + minus.used);
            if operand.result is Ok {
                let node = operand.result->Ok_0;
                assert(Tree::number(0).well_formed());
                assert(Tree::binary(Ntype::Sub, Tree::number(0), node).well_formed());
                assert(unary(toks, pos).result == Ok::<Tree, ErrorKind>(
                    Tree::binary(Ntype::Sub, Tree::number(0), node),
                ));
            }
        } else if minus.result == Ok::<bool, ErrorKind>(false) {
            lemma_primary_well_formed(toks, pos);
        }
    }
}

/// What follows a well-formed tree at this level is joined to it in a
/// well-formed tree.
pub proof fn lemma_multiplicative_rest_well_formed(toks: Seq<Lexeme>, pos: int, left: Tree)
    requires
        left.well_formed(),
    ensures
        multiplicative_rest(toks, pos, left).result is Ok ==> multiplicative_rest(toks, pos, left).result->Ok_0.well_formed(),
    decreases remaining(toks, pos), 2nat,
{
    lemma_multiplicative_rest_unfolds(toks, pos, left);
    lemma_consume_moves(toks, pos, mark('*'));
    lemma_consume_moves(toks, pos, mark('/'));
    let one = consume_at(toks, pos, mark('*'));
    let two = consume_at(toks, pos, mark('/'));
    if one.result == Ok::<bool, ErrorKind>(true) {
        let right = unary(toks, pos + one.used);
        lemma_unary_well_formed(toks, pos + one.used);
        if right.result is Ok {
            lemma_multiplicative_rest_well_formed(
                toks,
                pos + one.used + right.used,
                Tree::binary(Ntype::Mul, left, right.result->Ok_0),
            );
        }
    } else if one.result == Ok::<bool, ErrorKind>(false) && two.result == Ok::<bool, ErrorKind>(
        true,
    ) {
        let right = unary(toks, pos + two.used);
        lemma_unary_well_formed(toks, pos + two.used);
        if right.result is Ok {
            lemma_multiplicative_rest_well_formed(
                toks,
                pos + two.used + right.used,
                Tree::binary(Ntype::Div, left, right.result->Ok_0),
            );
        }
    }
}

/// A tree parsed at this level is well formed.
pub proof fn lemma_multiplicative_well_formed(toks: Seq<Lexeme>, pos: int)
    ensures
        multiplicative(toks, pos).result is Ok ==> multiplicative(toks, pos).result->Ok_0.well_formed(),
    decreases remaining(toks, pos), 3nat,
{
    lemma_multiplicative_unfolds(toks, pos);
    let first = unary(toks, pos);
    lemma_unary_well_formed(toks, pos);
    if first.result is Ok {
        lemma_multiplicative_rest_well_formed(toks, pos + first.used, first.result->Ok_0);
    }
}

/// What follows a well-formed tree at this level is joined to it in a
/// well-formed tree.
pub proof fn lemma_additive_rest_well_formed(toks: Seq<Lexeme>, pos: int, left: Tree)
    requires
        left.well_formed(),
    ensures
        additive_rest(toks, pos, left).result is Ok ==> additive_rest(toks, pos, left).result->Ok_0.well_formed(),
    decreases remaining(toks, pos), 4nat,
{
    lemma_additive_rest_unfolds(toks, pos, left);
    lemma_consume_moves(toks, pos, mark('+'));
    lemma_consume_moves(toks, pos, mark('-'));
    let one = consume_at(toks, pos, mark('+'));
    let two = consume_at(toks, pos, mark('-'));
    if one.result == Ok::<bool, ErrorKind>(true) {
        let right = multiplicative(toks, pos + one.used);
        lemma_multiplicative_well_formed(toks, pos + one.used);
        if right.result is Ok {
            lemma_additive_rest_well_formed(
                toks,
                pos + one.used + right.used,
                Tree::binary(Ntype::Add, left, right.result->Ok_0),
            );
        }
    } else if one.result == Ok::<bool, ErrorKind>(false) && two.result == Ok::<bool, ErrorKind>(
        true,
    ) {
        let right = multiplicative(toks, pos + two.used);
        lemma_multiplicative_well_formed(toks, pos + two.used);
        if right.result is Ok {
            lemma_additive_rest_well_formed(
                toks,
                pos + two.used + right.used,
                Tree::binary(Ntype::Sub, left, right.result->Ok_0),
            );
        }
    }
}

/// A tree parsed at this level is well formed.
pub proof fn lemma_additive_well_formed(toks: Seq<Lexeme>, pos: int)
    ensures
        additive(toks, pos).result is Ok ==> additive(toks, pos).result->Ok_0.well_formed(),
    decreases remaining(toks, pos), 5nat,
{
    lemma_additive_unfolds(toks, pos);
    let first = multiplicative(toks, pos);
    lemma_multiplicative_well_formed(toks, pos);
    if first.result is Ok {
        lemma_additive_rest_well_formed(toks, pos + first.used, first.result->Ok_0);
    }
}

/// A relational expression that parses is well formed.
pub proof fn lemma_relational_well_formed(toks: Seq<Lexeme>, pos: int)
    ensures
        relational(toks, pos).result is Ok ==> relational(toks, pos).result->Ok_0.well_formed(),
    decreases remaining(toks, pos), 6nat,
{
    lemma_relational_unfolds(toks, pos);
    reveal(relation);
    let left = additive(toks, pos);
    lemma_additive_well_formed(toks, pos);
    if left.result is Ok {
        let data = current_at(toks, pos + left.used).data;
        if relation(data) is Some {
            lemma_consume_moves(toks, pos + left.used, data);
            let op = consume_at(toks, pos + left.used, data);
            if op.result is Ok {
                lemma_relational_well_formed(toks, pos + left.used + op.used);
            }
        }
    }
}

/// What follows a well-formed tree at this level is joined to it in a
/// well-formed tree.
pub proof fn lemma_equality_rest_well_formed(toks: Seq<Lexeme>, pos: int, left: Tree)
    requires
        left.well_formed(),
    ensures
        equality_rest(toks, pos, left).result is Ok ==> equality_rest(toks, pos, left).result->Ok_0.well_formed(),
    decreases remaining(toks, pos), 7nat,
{
    lemma_equality_rest_unfolds(toks, pos, left);
    lemma_consume_moves(toks, pos, mark2('=', '='));
    lemma_consume_moves(toks, pos, mark2('!', '='));
    let one = consume_at(toks, pos, mark2('=', '='));
    let two = consume_at(toks, pos, mark2('!', '='));
    if one.result == Ok::<bool, ErrorKind>(true) {
        let right = relational(toks, pos + one.used);
        lemma_relational_well_formed(toks, pos + one.used);
        if right.result is Ok {
            lemma_equality_rest_well_formed(
                toks,
                pos + one.used + right.used,
                Tree::binary(Ntype::Eq, left, right.result->Ok_0),
            );
        }
    } else if one.result == Ok::<bool, ErrorKind>(false) && two.result == Ok::<bool, ErrorKind>(
        true,
    ) {
        let right = relational(toks, pos + two.used);
        lemma_relational_well_formed(toks, pos + two.used);
        if right.result is Ok {
            lemma_equality_rest_well_formed(
                toks,
                pos + two.used + right.used,
                Tree::binary(Ntype::Neq, left, right.result->Ok_0),
            );
        }
    }
}

/// A tree parsed at this level is well formed.
pub proof fn lemma_equality_well_formed(toks: Seq<Lexeme>, pos: int)
    ensures
        equality(toks, pos).result is Ok ==> equality(toks, pos).result->Ok_0.well_formed(),
    decreases remaining(toks, pos), 8nat,
{
    lemma_equality_unfolds(toks, pos);
    let first = relational(toks, pos);
    lemma_relational_well_formed(toks, pos);
    if first.result is Ok {
        lemma_equality_rest_well_formed(toks, pos + first.used, first.result->Ok_0);
    }
}

/// An assignment that parses is well formed.
pub proof fn lemma_assign_well_formed(toks: Seq<Lexeme>, pos: int)
    ensures
        assign(toks, pos).result is Ok ==> assign(toks, pos).result->Ok_0.well_formed(),
    decreases remaining(toks, pos), 9nat,
{
    lemma_assign_unfolds(toks, pos);
    let target = equality(toks, pos);
    lemma_equality_well_formed(toks, pos);
    if target.result is Ok {
        lemma_consume_moves(toks, pos + target.used, mark('='));
        let gets = consume_at(toks, pos + target.used, mark('='));
        if gets.result == Ok::<bool, ErrorKind>(true) {
            lemma_assign_well_formed(toks, pos + target.used + gets.used);
        }
    }
}

/// An expression that parses is well formed.
pub proof fn lemma_expr_well_formed(toks: Seq<Lexeme>, pos: int)
    ensures
        expr(toks, pos).result is Ok ==> expr(toks, pos).result->Ok_0.well_formed(),
    decreases remaining(toks, pos), 10nat,
{
    lemma_expr_unfolds(toks, pos);
    lemma_assign_well_formed(toks, pos);
}

/// A statement that parses is well formed.
pub proof fn lemma_stmt_well_formed(toks: Seq<Lexeme>, pos: int)
    ensures
        stmt(toks, pos).result is Ok ==> stmt(toks, pos).result->Ok_0.well_formed(),
{
    lemma_stmt_unfolds(toks, pos);
    lemma_expr_well_formed(toks, pos);
}

/// Every statement of a program that parses is well formed, and the
/// program ends where the input ends.
pub proof fn lemma_program_well_formed(toks: Seq<Lexeme>, pos: int)
    ensures
        program(toks, pos).result is Ok ==> current_at(toks, pos + program(toks, pos).used).tk
            == TokenKind::Eof,
        program(toks, pos).result is Ok ==> forall|i: int|
            0 <= i < program(toks, pos).result->Ok_0.len() ==> (#[trigger] program(
                toks,
                pos,
            ).result->Ok_0[i]).well_formed(),
    decreases remaining(toks, pos),
{
    lemma_program_unfolds(toks, pos);
    lemma_stmt_unfolds(toks, pos);
    if current_at(toks, pos).tk != TokenKind::Eof {
        let first = stmt(toks, pos);
        lemma_stmt_well_formed(toks, pos);
        lemma_expect_moves(toks, pos + expr(toks, pos).used, mark(';'));
        if first.result is Ok {
            lemma_program_well_formed(toks, pos + first.used);
        }
    }
}

} // verus!

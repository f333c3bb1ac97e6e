//! How parsing can fail: on the token stream of a text, only with a
//! syntax error or at a character that starts no token.

use vstd::prelude::*;
use crate::ast::grammar::{
    additive, additive_rest, assign, equality, equality_rest, expr, mark, mark2, multiplicative,
    multiplicative_rest, primary, program, relation, relational, stmt, unary,
};
use crate::ast::nodetype::Ntype;
use crate::ast::tree::Tree;
use crate::ast::unfold::{
    lemma_additive_rest_unfolds, lemma_additive_unfolds, lemma_assign_unfolds,
    lemma_equality_rest_unfolds, lemma_equality_unfolds, lemma_expr_unfolds,
    lemma_multiplicative_rest_unfolds, lemma_multiplicative_unfolds, lemma_primary_unfolds,
    lemma_program_unfolds, lemma_relational_unfolds, lemma_stmt_unfolds, lemma_unary_unfolds,
};
use crate::datatype::Data;
use crate::error::ErrorKind;
use crate::tokenize::kind::TokenKind;
use crate::tokenize::scan::{lemma_lexemes_consistent, lexemes, Lexeme};
use crate::tokenize::stream::{
    consume_at, current_at, expect_at, ident_at, lemma_consume_moves, lemma_expect_moves,
    number_at, remaining, Taken,
};

verus! {

/// Whether class and payload agree in every token of the stream.
pub open spec fn consistent(toks: Seq<Lexeme>) -> bool {
    forall|k: int|
        0 <= k < toks.len() && (#[trigger] toks[k]).token is Some ==> toks[k].token->0.consistent()
}

/// Whether the outcome is a success, a syntax error or the failure at a
/// character that starts no token.
pub open spec fn expected<T>(r: Taken<T>) -> bool {
    r.result is Err ==> r.result->Err_0 == ErrorKind::SyntaxError || r.result->Err_0
        == ErrorKind::InvalidChar
}

/// In the token stream of a text, class and payload agree in every token.
pub proof fn lemma_lexemes_are_consistent(code: Seq<char>)
    ensures
        consistent(lexemes(code)),
{
    assert forall|k: int|
        0 <= k < lexemes(code).len() && (#[trigger] lexemes(code)[k]).token
            is Some implies lexemes(code)[k].token->0.consistent() by {
        lemma_lexemes_consistent(code, k);
    }
}

/// Taking a token fails only as the parser fails.
pub proof fn lemma_taking_failures(toks: Seq<Lexeme>, pos: int, data: Data)
    requires
        consistent(toks),
    ensures
        expected(consume_at(toks, pos, data)),
        expected(expect_at(toks, pos, data)),
        expected(number_at(toks, pos)),
        expected(ident_at(toks, pos)),
{
    reveal(consume_at);
    reveal(expect_at);
    reveal(number_at);
    reveal(ident_at);
    if 0 <= pos < toks.len() {
        assert(toks[pos].token is Some ==> toks[pos].token->0.consistent());
        if pos > 0 {
            assert(toks[pos - 1].token is Some ==> toks[pos - 1].token->0.consistent());
        }
    }
}

/// A primary expression fails only as the parser fails.
pub proof fn lemma_primary_failures(toks: Seq<Lexeme>, pos: int)
    requires
        consistent(toks),
    ensures
        expected(primary(toks, pos)),
    decreases remaining(toks, pos), 0nat,
{
    lemma_primary_unfolds(toks, pos);
    lemma_consume_moves(toks, pos, mark('('));
    lemma_taking_failures(toks, pos, mark('('));
    let open = consume_at(toks, pos, mark('('));
    if open.result == Ok::<bool, ErrorKind>(true) {
        let inner = expr(toks, pos + open.used);
        lemma_expr_failures(toks, pos + open.used);
        lemma_taking_failures(toks, pos + open.used + inner.used, mark(')'));
    }
}

/// A unary expression fails only as the parser fails.
pub proof fn lemma_unary_failures(toks: Seq<Lexeme>, pos: int)
    requires
        consistent(toks),
    ensures
        expected(unary(toks, pos)),
    decreases remaining(toks, pos), 1nat,
{
    lemma_unary_unfolds(toks, pos);
    lemma_consume_moves(toks, pos, mark('+'));
    lemma_consume_moves(toks, pos, mark('-'));
    lemma_taking_failures(toks, pos, mark('+'));
    lemma_taking_failures(toks, pos, mark('-'));
    let plus = consume_at(toks, pos, mark('+'));
    let minus = consume_at(toks, pos, mark('-'));
    if plus.result == Ok::<bool, ErrorKind>(true) {
        lemma_unary_failures(toks, pos + plus.used);
    } else if plus.result == Ok::<bool, ErrorKind>(false) {
        if minus.result == Ok::<bool, ErrorKind>(true) {
            lemma_primary_failures(toks, pos + minus.used);
        } else if minus.result == Ok::<bool, ErrorKind>(false) {
            lemma_primary_failures(toks, pos);
        }
    }
}

/// The tree that this level builds from two operands.
spec fn multiplicative_rest_joined(first_sign: bool, left: Tree, right: Tree) -> Tree {
    if first_sign {
        Tree::binary(Ntype::Mul, left, right)
    } else {
        Tree::binary(Ntype::Div, left, right)
    }
}

/// What follows at this level fails only as the parser fails.
pub proof fn lemma_multiplicative_rest_failures(toks: Seq<Lexeme>, pos: int, left: Tree)
    requires
        consistent(toks),
    ensures
        expected(multiplicative_rest(toks, pos, left)),
    decreases remaining(toks, pos), 2nat,
{
    lemma_multiplicative_rest_unfolds(toks, pos, left);
    lemma_consume_moves(toks, pos, mark('*'));
    lemma_consume_moves(toks, pos, mark('/'));
    lemma_taking_failures(toks, pos, mark('*'));
    lemma_taking_failures(toks, pos, mark('/'));
    let one = consume_at(toks, pos, mark('*'));
    let two = consume_at(toks, pos, mark('/'));
    if one.result == Ok::<bool, ErrorKind>(true) {
        let right = unary(toks, pos + one.used);
        lemma_unary_failures(toks, pos + one.used);
        if right.result is Ok {
            lemma_multiplicative_rest_failures(toks, pos + one.used + right.used, multiplicative_rest_joined(
                true,
                left,
                right.result->Ok_0,
            ));
        }
    } else if one.result == Ok::<bool, ErrorKind>(false) && two.result == Ok::<bool, ErrorKind>(
        true,
    ) {
        let right = unary(toks, pos + two.used);
        lemma_unary_failures(toks, pos + two.used);
        if right.result is Ok {
            lemma_multiplicative_rest_failures(toks, pos + two.used + right.used, multiplicative_rest_joined(
                false,
                left,
                right.result->Ok_0,
            ));
        }
    }
}

/// This level fails only as the parser fails.
pub proof fn lemma_multiplicative_failures(toks: Seq<Lexeme>, pos: int)
    requires
        consistent(toks),
    ensures
        expected(multiplicative(toks, pos)),
    decreases remaining(toks, pos), 3nat,
{
    lemma_multiplicative_unfolds(toks, pos);
    let first = unary(toks, pos);
    lemma_unary_failures(toks, pos);
    if first.result is Ok {
        lemma_multiplicative_rest_failures(toks, pos + first.used, first.result->Ok_0);
    }
}

/// The tree that this level builds from two operands.
spec fn additive_rest_joined(first_sign: bool, left: Tree, right: Tree) -> Tree {
    if first_sign {
        Tree::binary(Ntype::Add, left, right)
    } else {
        Tree::binary(Ntype::Sub, left, right)
    }
}

/// What follows at this level fails only as the parser fails.
pub proof fn lemma_additive_rest_failures(toks: Seq<Lexeme>, pos: int, left: Tree)
    requires
        consistent(toks),
    ensures
        expected(additive_rest(toks, pos, left)),
    decreases remaining(toks, pos), 4nat,
{
    lemma_additive_rest_unfolds(toks, pos, left);
    lemma_consume_moves(toks, pos, mark('+'));
    lemma_consume_moves(toks, pos, mark('-'));
    lemma_taking_failures(toks, pos, mark('+'));
    lemma_taking_failures(toks, pos, mark('-'));
    let one = consume_at(toks, pos, mark('+'));
    let two = consume_at(toks, pos, mark('-'));
    if one.result == Ok::<bool, ErrorKind>(true) {
        let right = multiplicative(toks, pos + one.used);
        lemma_multiplicative_failures(toks, pos + one.used);
        if right.result is Ok {
            lemma_additive_rest_failures(toks, pos + one.used + right.used, additive_rest_joined(
                true,
                left,
                right.result->Ok_0,
            ));
        }
    } else if one.result == Ok::<bool, ErrorKind>(false) && two.result == Ok::<bool, ErrorKind>(
        true,
    ) {
        let right = multiplicative(toks, pos + two.used);
        lemma_multiplicative_failures(toks, pos + two.used);
        if right.result is Ok {
            lemma_additive_rest_failures(toks, pos + two.used + right.used, additive_rest_joined(
                false,
                left,
                right.result->Ok_0,
            ));
        }
    }
}

/// This level fails only as the parser fails.
pub proof fn lemma_additive_failures(toks: Seq<Lexeme>, pos: int)
    requires
        consistent(toks),
    ensures
        expected(additive(toks, pos)),
    decreases remaining(toks, pos), 5nat,
{
    lemma_additive_unfolds(toks, pos);
    let first = multiplicative(toks, pos);
    lemma_multiplicative_failures(toks, pos);
    if first.result is Ok {
        lemma_additive_rest_failures(toks, pos + first.used, first.result->Ok_0);
    }
}

/// A relational expression fails only as the parser fails.
pub proof fn lemma_relational_failures(toks: Seq<Lexeme>, pos: int)
    requires
        consistent(toks),
    ensures
        expected(relational(toks, pos)),
    decreases remaining(toks, pos), 6nat,
{
    lemma_relational_unfolds(toks, pos);
    reveal(relation);
    let left = additive(toks, pos);
    lemma_additive_failures(toks, pos);
    if left.result is Ok {
        let at = pos + left.used;
        let data = current_at(toks, at).data;
        if relation(data) is Some {
            lemma_consume_moves(toks, at, data);
            lemma_taking_failures(toks, at, data);
            let op = consume_at(toks, at, data);
            if op.result is Ok {
                lemma_relational_failures(toks, at + op.used);
            }
        }
    }
}

/// The tree that this level builds from two operands.
spec fn equality_rest_joined(first_sign: bool, left: Tree, right: Tree) -> Tree {
    if first_sign {
        Tree::binary(Ntype::Eq, left, right)
    } else {
        Tree::binary(Ntype::Neq, left, right)
    }
}

/// What follows at this level fails only as the parser fails.
pub proof fn lemma_equality_rest_failures(toks: Seq<Lexeme>, pos: int, left: Tree)
    requires
        consistent(toks),
    ensures
        expected(equality_rest(toks, pos, left)),
    decreases remaining(toks, pos), 7nat,
{
    lemma_equality_rest_unfolds(toks, pos, left);
    lemma_consume_moves(toks, pos, mark2('=', '='));
    lemma_consume_moves(toks, pos, mark2('!', '='));
    lemma_taking_failures(toks, pos, mark2('=', '='));
    lemma_taking_failures(toks, pos, mark2('!', '='));
    let one = consume_at(toks, pos, mark2('=', '='));
    let two = consume_at(toks, pos, mark2('!', '='));
    if one.result == Ok::<bool, ErrorKind>(true) {
        let right = relational(toks, pos + one.used);
        lemma_relational_failures(toks, pos + one.used);
        if right.result is Ok {
            lemma_equality_rest_failures(toks, pos + one.used + right.used, equality_rest_joined(
                true,
                left,
                right.result->Ok_0,
            ));
        }
    } else if one.result == Ok::<bool, ErrorKind>(false) && two.result == Ok::<bool, ErrorKind>(
        true,
    ) {
        let right = relational(toks, pos + two.used);
        lemma_relational_failures(toks, pos + two.used);
        if right.result is Ok {
            lemma_equality_rest_failures(toks, pos + two.used + right.used, equality_rest_joined(
                false,
                left,
                right.result->Ok_0,
            ));
        }
    }
}

/// This level fails only as the parser fails.
pub proof fn lemma_equality_failures(toks: Seq<Lexeme>, pos: int)
    requires
        consistent(toks),
    ensures
        expected(equality(toks, pos)),
    decreases remaining(toks, pos), 8nat,
{
    lemma_equality_unfolds(toks, pos);
    let first = relational(toks, pos);
    lemma_relational_failures(toks, pos);
    if first.result is Ok {
        lemma_equality_rest_failures(toks, pos + first.used, first.result->Ok_0);
    }
}

/// An assignment fails only as the parser fails.
pub proof fn lemma_assign_failures(toks: Seq<Lexeme>, pos: int)
    requires
        consistent(toks),
    ensures
        expected(assign(toks, pos)),
    decreases remaining(toks, pos), 9nat,
{
    lemma_assign_unfolds(toks, pos);
    let target = equality(toks, pos);
    lemma_equality_failures(toks, pos);
    if target.result is Ok {
        let at = pos + target.used;
        lemma_consume_moves(toks, at, mark('='));
        lemma_taking_failures(toks, at, mark('='));
        let gets = consume_at(toks, at, mark('='));
        if gets.result == Ok::<bool, ErrorKind>(true) {
            lemma_assign_failures(toks, at + gets.used);
        }
    }
}

/// An expression fails only as the parser fails.
pub proof fn lemma_expr_failures(toks: Seq<Lexeme>, pos: int)
    requires
        consistent(toks),
    ensures
        expected(expr(toks, pos)),
    decreases remaining(toks, pos), 10nat,
{
    lemma_expr_unfolds(toks, pos);
    lemma_assign_failures(toks, pos);
}

/// A statement fails only as the parser fails.
pub proof fn lemma_stmt_failures(toks: Seq<Lexeme>, pos: int)
    requires
        consistent(toks),
    ensures
        expected(stmt(toks, pos)),
{
    lemma_stmt_unfolds(toks, pos);
    lemma_expr_failures(toks, pos);
    lemma_taking_failures(toks, pos + expr(toks, pos).used, mark(';'));
}

/// Parsing the token stream of a text fails only with a syntax error or
/// at a character that starts no token.
pub proof fn lemma_program_failures(toks: Seq<Lexeme>, pos: int)
    requires
        consistent(toks),
    ensures
        expected(program(toks, pos)),
    decreases remaining(toks, pos),
{
    lemma_program_unfolds(toks, pos);
    lemma_stmt_unfolds(toks, pos);
    if current_at(toks, pos).tk != TokenKind::Eof {
        let first = stmt(toks, pos);
        lemma_stmt_failures(toks, pos);
        lemma_expect_moves(toks, pos + expr(toks, pos).used, mark(';'));
        if first.result is Ok {
            lemma_program_failures(toks, pos + first.used);
        }
    }
}

/// Parsing a text from its start fails only with a syntax error or at a
/// character that starts no token.
pub proof fn lemma_text_failures(code: Seq<char>)
    ensures
        expected(program(lexemes(code), 0)),
{
    lemma_lexemes_are_consistent(code);
    lemma_program_failures(lexemes(code), 0);
}

} // verus!

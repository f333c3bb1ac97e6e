//! The definitions of the grammar, restated as facts. The functions of
//! the grammar are opaque to the verifier; each lemma here gives one
//! step of one of them, so that a proof can open exactly the steps it
//! needs.

use vstd::prelude::*;
use crate::ast::grammar::{
    additive, additive_rest, after, assign, done, equality, equality_rest, expr, fail, mark,
    mark2, multiplicative, multiplicative_rest, primary, program, relation, relational, stmt,
    unary,
};
use crate::ast::nodetype::Ntype;
use crate::ast::tree::Tree;
use crate::tokenize::kind::TokenKind;
use crate::tokenize::scan::Lexeme;
use crate::tokenize::stream::{consume_at, current_at, expect_at, ident_at, number_at};

verus! {

/// One step of [`primary`].
pub proof fn lemma_primary_unfolds(toks: Seq<Lexeme>, pos: int)
    ensures
        primary(toks, pos) == ({
            let open = consume_at(toks, pos, mark('('));
            match open.result {
                Err(k) => fail(k, open.used),
                Ok(true) => {
                    let inner = expr(toks, pos + open.used);
                    match inner.result {
                        Err(k) => fail(k, open.used + inner.used),
                        Ok(node) => {
                            let close = expect_at(toks, pos + open.used + inner.used, mark(')'));
                            match close.result {
                                Err(k) => fail(k, open.used + inner.used + close.used),
                                Ok(_) => done(node, open.used + inner.used + close.used),
                            }
                        },
                    }
                },
                Ok(false) => if current_at(toks, pos).tk == TokenKind::Number {
                    let n = number_at(toks, pos);
                    match n.result {
                        Err(k) => fail(k, n.used),
                        Ok(v) => done(Tree::number(v), n.used),
                    }
                } else {
                    let name = ident_at(toks, pos);
                    match name.result {
                        Err(k) => fail(k, name.used),
                        Ok(s) => done(Tree::lvar(s), name.used),
                    }
                },
            }
        }),
{
    reveal(primary);
    reveal(expr);
}

/// One step of [`unary`].
pub proof fn lemma_unary_unfolds(toks: Seq<Lexeme>, pos: int)
    ensures
        unary(toks, pos) == ({
            let plus = consume_at(toks, pos, mark('+'));
            match plus.result {
                Err(k) => fail(k, plus.used),
                Ok(true) => after(plus.used, unary(toks, pos + plus.used)),
                Ok(false) => {
                    let minus = consume_at(toks, pos, mark('-'));
                    match minus.result {
                        Err(k) => fail(k, minus.used),
                        Ok(true) => {
                            let operand = primary(toks, pos + minus.used);
                            match operand.result {
                                Err(k) => fail(k, minus.used + operand.used),
                                Ok(node) => done(
                                    Tree::binary(Ntype::Sub, Tree::number(0), node),
                                    minus.used + operand.used,
                                ),
                            }
                        },
                        Ok(false) => primary(toks, pos),
                    }
                },
            }
        }),
{
    reveal(unary);
    reveal(primary);
}

/// One step of [`multiplicative_rest`].
pub proof fn lemma_multiplicative_rest_unfolds(toks: Seq<Lexeme>, pos: int, left: Tree)
    ensures
        multiplicative_rest(toks, pos, left) == ({
            let times = consume_at(toks, pos, mark('*'));
            match times.result {
                Err(k) => fail(k, times.used),
                Ok(true) => {
                    let right = unary(toks, pos + times.used);
                    match right.result {
                        Err(k) => fail(k, times.used + right.used),
                        Ok(node) => after(
                            times.used + right.used,
                            multiplicative_rest(
                                toks,
                                pos + times.used + right.used,
                                Tree::binary(Ntype::Mul, left, node),
                            ),
                        ),
                    }
                },
                Ok(false) => {
                    let over = consume_at(toks, pos, mark('/'));
                    match over.result {
                        Err(k) => fail(k, over.used),
                        Ok(true) => {
                            let right = unary(toks, pos + over.used);
                            match right.result {
                                Err(k) => fail(k, over.used + right.used),
                                Ok(node) => after(
                                    over.used + right.used,
                                    multiplicative_rest(
                                        toks,
                                        pos + over.used + right.used,
                                        Tree::binary(Ntype::Div, left, node),
                                    ),
                                ),
                            }
                        },
                        Ok(false) => done(left, 0),
                    }
                },
            }
        }),
{
    reveal(multiplicative_rest);
    reveal(unary);
}

/// One step of [`multiplicative`].
pub proof fn lemma_multiplicative_unfolds(toks: Seq<Lexeme>, pos: int)
    ensures
        multiplicative(toks, pos) == ({
            let first = unary(toks, pos);
            match first.result {
                Err(k) => fail(k, first.used),
                Ok(node) => after(first.used, multiplicative_rest(toks, pos + first.used, node)),
            }
        }),
{
    reveal(multiplicative);
    reveal(multiplicative_rest);
    reveal(unary);
}

/// One step of [`additive_rest`].
pub proof fn lemma_additive_rest_unfolds(toks: Seq<Lexeme>, pos: int, left: Tree)
    ensures
        additive_rest(toks, pos, left) == ({
            let plus = consume_at(toks, pos, mark('+'));
            match plus.result {
                Err(k) => fail(k, plus.used),
                Ok(true) => {
                    let right = multiplicative(toks, pos + plus.used);
                    match right.result {
                        Err(k) => fail(k, plus.used + right.used),
                        Ok(node) => after(
                            plus.used + right.used,
                            additive_rest(
                                toks,
                                pos + plus.used + right.used,
                                Tree::binary(Ntype::Add, left, node),
                            ),
                        ),
                    }
                },
                Ok(false) => {
                    let minus = consume_at(toks, pos, mark('-'));
                    match minus.result {
                        Err(k) => fail(k, minus.used),
                        Ok(true) => {
                            let right = multiplicative(toks, pos + minus.used);
                            match right.result {
                                Err(k) => fail(k, minus.used + right.used),
                                Ok(node) => after(
                                    minus.used + right.used,
                                    additive_rest(
                                        toks,
                                        pos + minus.used + right.used,
                                        Tree::binary(Ntype::Sub, left, node),
                                    ),
                                ),
                            }
                        },
                        Ok(false) => done(left, 0),
                    }
                },
            }
        }),
{
    reveal(additive_rest);
    reveal(multiplicative);
}

/// One step of [`additive`].
pub proof fn lemma_additive_unfolds(toks: Seq<Lexeme>, pos: int)
    ensures
        additive(toks, pos) == ({
            let first = multiplicative(toks, pos);
            match first.result {
                Err(k) => fail(k, first.used),
                Ok(node) => after(first.used, additive_rest(toks, pos + first.used, node)),
            }
        }),
{
    reveal(additive);
    reveal(additive_rest);
    reveal(multiplicative);
}

/// One step of [`relational`].
pub proof fn lemma_relational_unfolds(toks: Seq<Lexeme>, pos: int)
    ensures
        relational(toks, pos) == ({
            let left = additive(toks, pos);
            match left.result {
                Err(k) => fail(k, left.used),
                Ok(node) => match relation(current_at(toks, pos + left.used).data) {
                    None => done(node, left.used),
                    Some((ty, swapped)) => {
                        let op = consume_at(
                            toks,
                            pos + left.used,
                            current_at(toks, pos + left.used).data,
                        );
                        match op.result {
                            Err(k) => fail(k, left.used + op.used),
                            Ok(_) => {
                                let right = relational(toks, pos + left.used + op.used);
                                match right.result {
                                    Err(k) => fail(k, left.used + op.used + right.used),
                                    Ok(other) => done(
                                        if swapped {
                                            Tree::binary(ty, other, node)
                                        } else {
                                            Tree::binary(ty, node, other)
                                        },
                                        left.used + op.used + right.used,
                                    ),
                                }
                            },
                        }
                    },
                },
            }
        }),
{
    reveal(relational);
    reveal(additive);
}

/// One step of [`equality_rest`].
pub proof fn lemma_equality_rest_unfolds(toks: Seq<Lexeme>, pos: int, left: Tree)
    ensures
        equality_rest(toks, pos, left) == ({
            let same = consume_at(toks, pos, mark2('=', '='));
            match same.result {
                Err(k) => fail(k, same.used),
                Ok(true) => {
                    let right = relational(toks, pos + same.used);
                    match right.result {
                        Err(k) => fail(k, same.used + right.used),
                        Ok(node) => after(
                            same.used + right.used,
                            equality_rest(
                                toks,
                                pos + same.used + right.used,
                                Tree::binary(Ntype::Eq, left, node),
                            ),
                        ),
                    }
                },
                Ok(false) => {
                    let differ = consume_at(toks, pos, mark2('!', '='));
                    match differ.result {
                        Err(k) => fail(k, differ.used),
                        Ok(true) => {
                            let right = relational(toks, pos + differ.used);
                            match right.result {
                                Err(k) => fail(k, differ.used + right.used),
                                Ok(node) => after(
                                    differ.used + right.used,
                                    equality_rest(
                                        toks,
                                        pos + differ.used + right.used,
                                        Tree::binary(Ntype::Neq, left, node),
                                    ),
                                ),
                            }
                        },
                        Ok(false) => done(left, 0),
                    }
                },
            }
        }),
{
    reveal(equality_rest);
    reveal(relational);
}

/// One step of [`equality`].
pub proof fn lemma_equality_unfolds(toks: Seq<Lexeme>, pos: int)
    ensures
        equality(toks, pos) == ({
            let first = relational(toks, pos);
            match first.result {
                Err(k) => fail(k, first.used),
                Ok(node) => after(first.used, equality_rest(toks, pos + first.used, node)),
            }
        }),
{
    reveal(equality);
    reveal(equality_rest);
    reveal(relational);
}

/// One step of [`assign`].
pub proof fn lemma_assign_unfolds(toks: Seq<Lexeme>, pos: int)
    ensures
        assign(toks, pos) == ({
            let target = equality(toks, pos);
            match target.result {
                Err(k) => fail(k, target.used),
                Ok(node) => {
                    let gets = consume_at(toks, pos + target.used, mark('='));
                    match gets.result {
                        Err(k) => fail(k, target.used + gets.used),
                        Ok(false) => done(node, target.used),
                        Ok(true) => {
                            let value = assign(toks, pos + target.used + gets.used);
                            match value.result {
                                Err(k) => fail(k, target.used + gets.used + value.used),
                                Ok(rhs) => done(
                                    Tree::binary(Ntype::Assign, rhs, node),
                                    target.used + gets.used + value.used,
                                ),
                            }
                        },
                    }
                },
            }
        }),
{
    reveal(assign);
    reveal(equality);
}

/// One step of [`expr`].
pub proof fn lemma_expr_unfolds(toks: Seq<Lexeme>, pos: int)
    ensures
        expr(toks, pos) == ({
            assign(toks, pos)
        }),
{
    reveal(expr);
    reveal(assign);
}

/// One step of [`stmt`].
pub proof fn lemma_stmt_unfolds(toks: Seq<Lexeme>, pos: int)
    ensures
        stmt(toks, pos) == ({
            let e = expr(toks, pos);
            match e.result {
                Err(k) => fail(k, e.used),
                Ok(node) => {
                    let end = expect_at(toks, pos + e.used, mark(';'));
                    match end.result {
                        Err(k) => fail(k, e.used + end.used),
                        Ok(_) => done(node, e.used + end.used),
                    }
                },
            }
        }),
{
    reveal(stmt);
}

/// One step of [`program`].
pub proof fn lemma_program_unfolds(toks: Seq<Lexeme>, pos: int)
    ensures
        program(toks, pos) == ({
            if current_at(toks, pos).tk == TokenKind::Eof {
                done(Seq::empty(), 0)
            } else {
                let first = stmt(toks, pos);
                match first.result {
                    Err(k) => fail(k, first.used),
                    Ok(node) => {
                        let rest = program(toks, pos + first.used);
                        match rest.result {
                            Err(k) => fail(k, first.used + rest.used),
                            Ok(nodes) => done(seq![node] + nodes, first.used + rest.used),
                        }
                    },
                }
            }
        }),
{
    reveal(program);
}

} // verus!

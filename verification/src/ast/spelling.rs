//! Every tree can be written down and read back: the grammar reads the
//! fully parenthesised spelling of a tree as that tree.

use vstd::prelude::*;
use crate::ast::grammar::{
    additive, additive_rest, assign, equality, equality_rest, expr, mark, mark2, multiplicative,
    multiplicative_rest, primary, relation, relational, stmt, unary,
};
use crate::ast::nodetype::Ntype;
use crate::ast::tree::Tree;
use crate::ast::unfold::{
    lemma_additive_rest_unfolds, lemma_additive_unfolds, lemma_assign_unfolds,
    lemma_equality_rest_unfolds, lemma_equality_unfolds, lemma_expr_unfolds,
    lemma_multiplicative_rest_unfolds, lemma_multiplicative_unfolds, lemma_primary_unfolds,
    lemma_relational_unfolds, lemma_stmt_unfolds, lemma_unary_unfolds,
};
use crate::chars::is_ident_char;
use crate::datatype::Data;
use crate::error::ErrorKind;
use crate::tokenize::kind::TokenKind;
use crate::tokenize::scan::Lexeme;
use crate::tokenize::stream::{
    consume_at, current_at, expect_at, ident_at, lemma_consume_moves, number_at, Taken,
};
use crate::tokenize::token::TokenView;

verus! {

/// The text of the operator of kind `ty`.
pub open spec fn sign(ty: Ntype) -> Data {
    match ty {
        Ntype::Add => mark('+'),
        Ntype::Sub => mark('-'),
        Ntype::Mul => mark('*'),
        Ntype::Div => mark('/'),
        Ntype::Eq => mark2('=', '='),
        Ntype::Neq => mark2('!', '='),
        Ntype::Greater => mark('>'),
        Ntype::GreaterEq => mark2('>', '='),
        _ => mark('='),
    }
}

/// Whether `data` is the text of an operator that joins two operands.
pub open spec fn joins(data: Data) -> bool {
    ||| data == mark('+')
    ||| data == mark('-')
    ||| data == mark('*')
    ||| data == mark('/')
    ||| data == mark('>')
    ||| data == mark('<')
    ||| data == mark2('>', '=')
    ||| data == mark2('<', '=')
    ||| data == mark2('=', '=')
    ||| data == mark2('!', '=')
    ||| data == mark('=')
}

/// Whether `name` can be the name of a variable: it starts with a letter
/// or an underscore.
pub open spec fn is_name(name: Seq<char>) -> bool {
    name.len() > 0 && is_ident_char(name[0])
}

/// Whether the tree can be written down: it is well formed and its
/// variables have names.
pub open spec fn spellable(tree: Tree) -> bool
    decreases tree,
{
    match tree.ty {
        Ntype::Num => tree.childs is None && tree.value is Num,
        Ntype::Lvar => tree.childs is None && tree.value is String && is_name(
            tree.value->String_0,
        ),
        _ => tree.value is Empty && tree.childs is Some && spellable(tree.childs.unwrap().0)
            && spellable(tree.childs.unwrap().1),
    }
}

/// The operand that is written to the left of the operator: the target
/// of an assignment, the first operand of any other operator.
pub open spec fn left_of(tree: Tree) -> Tree {
    if tree.ty == Ntype::Assign {
        tree.childs.unwrap().1
    } else {
        tree.childs.unwrap().0
    }
}

/// The operand that is written to the right of the operator.
pub open spec fn right_of(tree: Tree) -> Tree {
    if tree.ty == Ntype::Assign {
        tree.childs.unwrap().0
    } else {
        tree.childs.unwrap().1
    }
}

/// The fully parenthesised spelling of a tree: a literal or a name as one
/// token, an operator between its two operands, each in parentheses.
pub open spec fn spelling(tree: Tree) -> Seq<TokenView>
    decreases tree,
{
    match tree.ty {
        Ntype::Num => seq![TokenView { tk: TokenKind::Number, data: tree.value }],
        Ntype::Lvar => seq![TokenView { tk: TokenKind::Ident, data: tree.value }],
        _ => if tree.childs is Some {
            seq![TokenView::reserved(seq!['('])] + spelling(left_of(tree)) + seq![
                TokenView::reserved(seq![')']),
                TokenView { tk: TokenKind::Reserved, data: sign(tree.ty) },
                TokenView::reserved(seq!['(']),
            ] + spelling(right_of(tree)) + seq![TokenView::reserved(seq![')'])]
        } else {
            Seq::empty()
        },
    }
}

/// Whether the stream `toks` holds the tokens `text` from position `pos`
/// on, and a further token after them.
pub open spec fn holds(toks: Seq<Lexeme>, pos: int, text: Seq<TokenView>) -> bool {
    &&& 0 <= pos
    &&& pos + text.len() < toks.len()
    &&& forall|i: int| 0 <= i < text.len() ==> (#[trigger] toks[pos + i]).token == Some(text[i])
    &&& toks[pos + text.len()].token is Some
}

/// Whether the outcome `r` is the tree `tree` read from `used` lexemes.
pub open spec fn reads(r: Taken<Tree>, tree: Tree, used: int) -> bool {
    r.result == Ok::<Tree, ErrorKind>(tree) && r.used == used
}

/// Whether a token with the payload `data` stands at `pos` and another
/// token after it.
spec fn stands(toks: Seq<Lexeme>, pos: int, data: Data) -> bool {
    &&& 0 <= pos
    &&& pos + 1 < toks.len()
    &&& toks[pos].token is Some
    &&& toks[pos].token->0.data == data
    &&& toks[pos + 1].token is Some
}

/// What the texts of the operators and parentheses are made of.
proof fn lemma_marks()
    ensures
        forall|c: char| #[trigger] mark(c) == Data::String(seq![c]) && seq![c].len() == 1 && seq![c][0] == c,
        forall|a: char, b: char| #[trigger]
            mark2(a, b) == Data::String(seq![a, b]) && seq![a, b].len() == 2 && seq![a, b][0]
                == a,
{
}

/// A token that stands in the stream with a payload is taken.
proof fn lemma_taken(toks: Seq<Lexeme>, pos: int, data: Data)
    requires
        stands(toks, pos, data),
        !(data is Empty),
    ensures
        current_at(toks, pos).data == data,
        consume_at(toks, pos, data).result == Ok::<bool, ErrorKind>(true),
        consume_at(toks, pos, data).used == 1,
        expect_at(toks, pos, data).result is Ok,
        expect_at(toks, pos, data).used == 1,
        data is Num ==> number_at(toks, pos).result == Ok::<i32, ErrorKind>(data->Num_0)
            && number_at(toks, pos).used == 1,
        data is String && toks[pos].token->0.tk == TokenKind::Ident ==> ident_at(toks, pos).result
            == Ok::<Seq<char>, ErrorKind>(data->String_0) && ident_at(toks, pos).used == 1,
{
    reveal(consume_at);
    reveal(expect_at);
    reveal(number_at);
    reveal(ident_at);
}

/// A token that differs from what is looked for is left.
proof fn lemma_left(toks: Seq<Lexeme>, pos: int, data: Data)
    requires
        current_at(toks, pos).data != data,
    ensures
        consume_at(toks, pos, data).result == Ok::<bool, ErrorKind>(false),
        consume_at(toks, pos, data).used == 0,
{
    lemma_consume_moves(toks, pos, data);
}

/// A number is read as a literal.
proof fn lemma_primary_number(toks: Seq<Lexeme>, pos: int, n: i32)
    requires
        stands(toks, pos, Data::Num(n)),
        toks[pos].token->0.tk == TokenKind::Number,
    ensures
        reads(primary(toks, pos), Tree::number(n), 1),
{
    lemma_primary_unfolds(toks, pos);
    lemma_marks();
    lemma_taken(toks, pos, Data::Num(n));
    lemma_left(toks, pos, mark('('));
}

/// A name is read as a variable.
proof fn lemma_primary_name(toks: Seq<Lexeme>, pos: int, name: Seq<char>)
    requires
        stands(toks, pos, Data::String(name)),
        toks[pos].token->0.tk == TokenKind::Ident,
        is_name(name),
    ensures
        reads(primary(toks, pos), Tree::lvar(name), 1),
{
    lemma_primary_unfolds(toks, pos);
    lemma_marks();
    lemma_taken(toks, pos, Data::String(name));
    assert(Data::String(name) != mark('(')) by {
        assert(name[0] != seq!['('][0]);
    }
    lemma_left(toks, pos, mark('('));
}

/// An expression in parentheses is read as the expression.
proof fn lemma_primary_parenthesised(toks: Seq<Lexeme>, pos: int, tree: Tree, used: int)
    requires
        stands(toks, pos, mark('(')),
        reads(expr(toks, pos + 1), tree, used),
        stands(toks, pos + 1 + used, mark(')')),
    ensures
        reads(primary(toks, pos), tree, used + 2),
{
    lemma_primary_unfolds(toks, pos);
    lemma_marks();
    lemma_taken(toks, pos, mark('('));
    lemma_taken(toks, pos + 1 + used, mark(')'));
}

/// A primary expression that starts with no sign is read as a unary
/// expression.
proof fn lemma_unary_alone(toks: Seq<Lexeme>, pos: int, tree: Tree, used: int)
    requires
        reads(primary(toks, pos), tree, used),
        current_at(toks, pos).data != mark('+'),
        current_at(toks, pos).data != mark('-'),
    ensures
        reads(unary(toks, pos), tree, used),
{
    lemma_unary_unfolds(toks, pos);
    lemma_left(toks, pos, mark('+'));
    lemma_left(toks, pos, mark('-'));
}

/// What is read at the level below is read at this level too where no
/// operator of this level follows it.
proof fn lemma_multiplicative_alone(toks: Seq<Lexeme>, pos: int, tree: Tree, used: int)
    requires
        reads(unary(toks, pos), tree, used),
        current_at(toks, pos + used).data != mark('*'),
        current_at(toks, pos + used).data != mark('/'),
    ensures
        reads(multiplicative(toks, pos), tree, used),
{
    lemma_multiplicative_unfolds(toks, pos);
    lemma_multiplicative_rest_unfolds(toks, pos + used, tree);
    lemma_left(toks, pos + used, mark('*'));
    lemma_left(toks, pos + used, mark('/'));
}

/// Two operands with an operator of this level between them, and none
/// after them, are read as the operator on the two.
proof fn lemma_multiplicative_joined(
    toks: Seq<Lexeme>,
    pos: int,
    ty: Ntype,
    left: Tree,
    used_left: int,
    right: Tree,
    used_right: int,
)
    requires
        ty == Ntype::Mul || ty == Ntype::Div,
        0 <= used_left,
        0 <= used_right,
        reads(unary(toks, pos), left, used_left),
        stands(toks, pos + used_left, sign(ty)),
        reads(unary(toks, pos + used_left + 1), right, used_right),
        current_at(toks, pos + used_left + 1 + used_right).data != mark('*'),
        current_at(toks, pos + used_left + 1 + used_right).data != mark('/'),
    ensures
        reads(multiplicative(toks, pos), Tree::binary(ty, left, right), used_left + 1 + used_right),
{
    lemma_multiplicative_unfolds(toks, pos);
    lemma_multiplicative_rest_unfolds(toks, pos + used_left, left);
    lemma_multiplicative_rest_unfolds(
        toks,
        pos + used_left + 1 + used_right,
        Tree::binary(ty, left, right),
    );
    lemma_marks();
    let at = pos + used_left;
    let end = at + 1 + used_right;
    lemma_taken(toks, at, sign(ty));
    if ty == Ntype::Div {
        assert(mark('*') != mark('/'));
        lemma_left(toks, at, mark('*'));
    }
    lemma_left(toks, end, mark('*'));
    lemma_left(toks, end, mark('/'));
    let joined = Tree::binary(ty, left, right);
    assert(reads(multiplicative_rest(toks, end, joined), joined, 0));
    assert(reads(multiplicative_rest(toks, at, left), joined, 1 + used_right));
}

/// What is read at the level below is read at this level too where no
/// operator of this level follows it.
proof fn lemma_additive_alone(toks: Seq<Lexeme>, pos: int, tree: Tree, used: int)
    requires
        reads(multiplicative(toks, pos), tree, used),
        current_at(toks, pos + used).data != mark('+'),
        current_at(toks, pos + used).data != mark('-'),
    ensures
        reads(additive(toks, pos), tree, used),
{
    lemma_additive_unfolds(toks, pos);
    lemma_additive_rest_unfolds(toks, pos + used, tree);
    lemma_left(toks, pos + used, mark('+'));
    lemma_left(toks, pos + used, mark('-'));
}

/// Two operands with an operator of this level between them, and none
/// after them, are read as the operator on the two.
proof fn lemma_additive_joined(
    toks: Seq<Lexeme>,
    pos: int,
    ty: Ntype,
    left: Tree,
    used_left: int,
    right: Tree,
    used_right: int,
)
    requires
        ty == Ntype::Add || ty == Ntype::Sub,
        0 <= used_left,
        0 <= used_right,
        reads(multiplicative(toks, pos), left, used_left),
        stands(toks, pos + used_left, sign(ty)),
        reads(multiplicative(toks, pos + used_left + 1), right, used_right),
        current_at(toks, pos + used_left + 1 + used_right).data != mark('+'),
        current_at(toks, pos + used_left + 1 + used_right).data != mark('-'),
    ensures
        reads(additive(toks, pos), Tree::binary(ty, left, right), used_left + 1 + used_right),
{
    lemma_additive_unfolds(toks, pos);
    lemma_additive_rest_unfolds(toks, pos + used_left, left);
    lemma_additive_rest_unfolds(
        toks,
        pos + used_left + 1 + used_right,
        Tree::binary(ty, left, right),
    );
    lemma_marks();
    let at = pos + used_left;
    let end = at + 1 + used_right;
    lemma_taken(toks, at, sign(ty));
    if ty == Ntype::Sub {
        assert(mark('+') != mark('-'));
        lemma_left(toks, at, mark('+'));
    }
    lemma_left(toks, end, mark('+'));
    lemma_left(toks, end, mark('-'));
    let joined = Tree::binary(ty, left, right);
    assert(reads(additive_rest(toks, end, joined), joined, 0));
    assert(reads(additive_rest(toks, at, left), joined, 1 + used_right));
}

/// What is read at the level below is read at this level too where no
/// operator of this level follows it.
proof fn lemma_equality_alone(toks: Seq<Lexeme>, pos: int, tree: Tree, used: int)
    requires
        reads(relational(toks, pos), tree, used),
        current_at(toks, pos + used).data != mark2('=', '='),
        current_at(toks, pos + used).data != mark2('!', '='),
    ensures
        reads(equality(toks, pos), tree, used),
{
    lemma_equality_unfolds(toks, pos);
    lemma_equality_rest_unfolds(toks, pos + used, tree);
    lemma_left(toks, pos + used, mark2('=', '='));
    lemma_left(toks, pos + used, mark2('!', '='));
}

/// Two operands with an operator of this level between them, and none
/// after them, are read as the operator on the two.
proof fn lemma_equality_joined(
    toks: Seq<Lexeme>,
    pos: int,
    ty: Ntype,
    left: Tree,
    used_left: int,
    right: Tree,
    used_right: int,
)
    requires
        ty == Ntype::Eq || ty == Ntype::Neq,
        0 <= used_left,
        0 <= used_right,
        reads(relational(toks, pos), left, used_left),
        stands(toks, pos + used_left, sign(ty)),
        reads(relational(toks, pos + used_left + 1), right, used_right),
        current_at(toks, pos + used_left + 1 + used_right).data != mark2('=', '='),
        current_at(toks, pos + used_left + 1 + used_right).data != mark2('!', '='),
    ensures
        reads(equality(toks, pos), Tree::binary(ty, left, right), used_left + 1 + used_right),
{
    lemma_equality_unfolds(toks, pos);
    lemma_equality_rest_unfolds(toks, pos + used_left, left);
    lemma_equality_rest_unfolds(
        toks,
        pos + used_left + 1 + used_right,
        Tree::binary(ty, left, right),
    );
    lemma_marks();
    let at = pos + used_left;
    let end = at + 1 + used_right;
    lemma_taken(toks, at, sign(ty));
    if ty == Ntype::Neq {
        assert(mark2('=', '=') != mark2('!', '='));
        lemma_left(toks, at, mark2('=', '='));
    }
    lemma_left(toks, end, mark2('=', '='));
    lemma_left(toks, end, mark2('!', '='));
    let joined = Tree::binary(ty, left, right);
    assert(reads(equality_rest(toks, end, joined), joined, 0));
    assert(reads(equality_rest(toks, at, left), joined, 1 + used_right));
}

/// `>` stands for the comparison greater, `>=` for greater or equal, each
/// with its operands in the places where they are written.
proof fn lemma_relation_of_sign(ty: Ntype)
    requires
        ty == Ntype::Greater || ty == Ntype::GreaterEq,
    ensures
        relation(sign(ty)) == Some((ty, false)),
{
    reveal(relation);
    assert(seq!['>', '='].len() == 2);
    assert(seq!['>'].len() == 1);
    assert(seq!['<'].len() == 1);
    assert(seq!['>'][0] == '>');
    assert(seq!['<'][0] == '<');
}

/// What is read as a sum is read as a comparison too where no relational
/// operator follows it.
proof fn lemma_relational_alone(toks: Seq<Lexeme>, pos: int, tree: Tree, used: int)
    requires
        reads(additive(toks, pos), tree, used),
        relation(current_at(toks, pos + used).data) is None,
    ensures
        reads(relational(toks, pos), tree, used),
{
    lemma_relational_unfolds(toks, pos);
}

/// Two operands with `>` or `>=` between them, and no relational
/// operator after them, are read as the comparison of the two.
proof fn lemma_relational_joined(
    toks: Seq<Lexeme>,
    pos: int,
    ty: Ntype,
    left: Tree,
    used_left: int,
    right: Tree,
    used_right: int,
)
    requires
        ty == Ntype::Greater || ty == Ntype::GreaterEq,
        0 <= used_left,
        0 <= used_right,
        reads(additive(toks, pos), left, used_left),
        stands(toks, pos + used_left, sign(ty)),
        reads(relational(toks, pos + used_left + 1), right, used_right),
    ensures
        reads(relational(toks, pos), Tree::binary(ty, left, right), used_left + 1 + used_right),
{
    lemma_relational_unfolds(toks, pos);
    lemma_marks();
    let at = pos + used_left;
    lemma_taken(toks, at, sign(ty));
    lemma_relation_of_sign(ty);
    let op = consume_at(toks, at, current_at(toks, at).data);
    assert(op.result is Ok && op.used == 1);
    assert(relation(current_at(toks, at).data) == Some((ty, false)));
}

/// What is read as an equality test is read as an assignment and as an
/// expression too where no `=` follows it.
proof fn lemma_assign_alone(toks: Seq<Lexeme>, pos: int, tree: Tree, used: int)
    requires
        reads(equality(toks, pos), tree, used),
        current_at(toks, pos + used).data != mark('='),
    ensures
        reads(assign(toks, pos), tree, used),
        reads(expr(toks, pos), tree, used),
{
    lemma_expr_unfolds(toks, pos);
    lemma_assign_unfolds(toks, pos);
    lemma_left(toks, pos + used, mark('='));
}

/// A target, `=` and a value are read as the assignment of the value to
/// the target.
proof fn lemma_assign_joined(
    toks: Seq<Lexeme>,
    pos: int,
    target: Tree,
    used_target: int,
    value: Tree,
    used_value: int,
)
    requires
        0 <= used_target,
        0 <= used_value,
        reads(equality(toks, pos), target, used_target),
        stands(toks, pos + used_target, mark('=')),
        reads(assign(toks, pos + used_target + 1), value, used_value),
    ensures
        reads(
            assign(toks, pos),
            Tree::binary(Ntype::Assign, value, target),
            used_target + 1 + used_value,
        ),
        reads(
            expr(toks, pos),
            Tree::binary(Ntype::Assign, value, target),
            used_target + 1 + used_value,
        ),
{
    lemma_expr_unfolds(toks, pos);
    lemma_assign_unfolds(toks, pos);
    lemma_marks();
    lemma_taken(toks, pos + used_target, mark('='));
}

/// How the texts of the operators and parentheses differ.
proof fn lemma_signs()
    ensures
        !joins(mark('(')),
        !joins(mark(')')),
        !joins(mark(';')),
        mark('+') != mark('*') && mark('+') != mark('/'),
        mark('-') != mark('*') && mark('-') != mark('/'),
        forall|ty: Ntype|
            ty == Ntype::Greater || ty == Ntype::GreaterEq || ty == Ntype::Eq || ty == Ntype::Neq
                || ty == Ntype::Assign ==> #[trigger] sign(ty) != mark('*') && sign(ty) != mark(
                '/',
            ) && sign(ty) != mark('+') && sign(ty) != mark('-'),
        forall|ty: Ntype|
            ty == Ntype::Eq || ty == Ntype::Neq || ty == Ntype::Assign ==> relation(
                #[trigger] sign(ty),
            ) is None,
        mark('=') != mark2('=', '=') && mark('=') != mark2('!', '='),
        forall|d: Data| !#[trigger] joins(d) ==> relation(d) is None,
{
    reveal(relation);
    assert(seq!['('][0] == '(' && seq![')'][0] == ')' && seq![';'][0] == ';');
    assert(seq!['+'][0] == '+' && seq!['-'][0] == '-' && seq!['*'][0] == '*' && seq!['/'][0] == '/');
    assert(seq!['>'][0] == '>' && seq!['<'][0] == '<' && seq!['='][0] == '=');
    assert(seq!['>', '='][0] == '>' && seq!['<', '='][0] == '<' && seq!['=', '='][0] == '='
        && seq!['!', '='][0] == '!');
    assert(seq!['('].len() == 1 && seq![')'].len() == 1 && seq!['='].len() == 1 && seq!['>'].len()
        == 1 && seq!['<'].len() == 1);
    assert(seq!['>', '='].len() == 2 && seq!['<', '='].len() == 2 && seq!['=', '='].len() == 2
        && seq!['!', '='].len() == 2);
}

/// The spelling of an operator on two operands, token by token.
proof fn lemma_layout(tree: Tree)
    requires
        spellable(tree),
    ensures
        spelling(tree).len() >= 1,
        tree.ty != Ntype::Num && tree.ty != Ntype::Lvar ==> ({
            let s = spelling(tree);
            let x = spelling(left_of(tree));
            let y = spelling(right_of(tree));
            let a = x.len() as int;
            let b = y.len() as int;
            &&& spellable(left_of(tree))
            &&& spellable(right_of(tree))
            &&& s.len() == a + b + 5
            &&& s[0].data == mark('(')
            &&& forall|i: int| 0 <= i < a ==> #[trigger] s[1 + i] == x[i]
            &&& s[1 + a].data == mark(')')
            &&& s[2 + a].data == sign(tree.ty)
            &&& s[3 + a].data == mark('(')
            &&& forall|j: int| 0 <= j < b ==> #[trigger] s[4 + a + j] == y[j]
            &&& s[4 + a + b].data == mark(')')
        }),
{
    if tree.ty != Ntype::Num && tree.ty != Ntype::Lvar {
        let x = spelling(left_of(tree));
        let y = spelling(right_of(tree));
        let open = seq![TokenView::reserved(seq!['('])];
        let mid = seq![
            TokenView::reserved(seq![')']),
            TokenView { tk: TokenKind::Reserved, data: sign(tree.ty) },
            TokenView::reserved(seq!['(']),
        ];
        let close = seq![TokenView::reserved(seq![')'])];
        assert(spelling(tree) == open + x + mid + y + close);
        assert(open.len() == 1 && mid.len() == 3 && close.len() == 1);
    }
}

/// Where the stream holds the spelling of an operator on two operands, it
/// holds the parentheses, the spellings of the operands and the operator
/// in their places.
proof fn lemma_parts(toks: Seq<Lexeme>, pos: int, tree: Tree)
    requires
        spellable(tree),
        tree.ty != Ntype::Num,
        tree.ty != Ntype::Lvar,
        holds(toks, pos, spelling(tree)),
    ensures
        ({
            let a = spelling(left_of(tree)).len() as int;
            let b = spelling(right_of(tree)).len() as int;
            &&& spelling(tree).len() == a + b + 5
            &&& stands(toks, pos, mark('('))
            &&& holds(toks, pos + 1, spelling(left_of(tree)))
            &&& stands(toks, pos + 1 + a, mark(')'))
            &&& stands(toks, pos + 2 + a, sign(tree.ty))
            &&& stands(toks, pos + 3 + a, mark('('))
            &&& holds(toks, pos + 4 + a, spelling(right_of(tree)))
            &&& stands(toks, pos + 4 + a + b, mark(')'))
        }),
{
    lemma_layout(tree);
    lemma_layout(left_of(tree));
    lemma_layout(right_of(tree));
    let s = spelling(tree);
    let x = spelling(left_of(tree));
    let y = spelling(right_of(tree));
    let a = x.len() as int;
    let b = y.len() as int;
    assert(toks[pos + 0int].token == Some(s[0int]));
    assert(toks[pos + (1 + a)].token == Some(s[1 + a]));
    assert(toks[pos + (2 + a)].token == Some(s[2 + a]));
    assert(toks[pos + (3 + a)].token == Some(s[3 + a]));
    assert(toks[pos + (4 + a + b)].token == Some(s[4 + a + b]));
    let zero: int = 0;
    assert(toks[pos + 1].token is Some) by {
        assert(toks[pos + (1 + zero)].token == Some(s[1 + zero]));
    }
    assert(toks[pos + (4 + a)].token is Some) by {
        assert(toks[pos + (4 + a + zero)].token == Some(s[4 + a + zero]));
    }
    assert forall|i: int| 0 <= i < a implies (#[trigger] toks[pos + 1 + i]).token == Some(
        x[i],
    ) by {
        assert(toks[pos + (1 + i)].token == Some(s[1 + i]));
    }
    assert forall|j: int| 0 <= j < b implies (#[trigger] toks[pos + 4 + a + j]).token == Some(
        y[j],
    ) by {
        assert(toks[pos + (4 + a + j)].token == Some(s[4 + a + j]));
    }
}

/// What is read as a primary expression that starts with no sign is
/// read at every level of the grammar up to the first whose operator
/// follows it.
proof fn lemma_climb(toks: Seq<Lexeme>, pos: int, tree: Tree, used: int)
    requires
        reads(primary(toks, pos), tree, used),
        current_at(toks, pos).data != mark('+'),
        current_at(toks, pos).data != mark('-'),
    ensures
        ({
            let d = current_at(toks, pos + used).data;
            let quiet1 = d != mark('*') && d != mark('/');
            let quiet2 = quiet1 && d != mark('+') && d != mark('-');
            let quiet3 = quiet2 && relation(d) is None;
            let quiet4 = quiet3 && d != mark2('=', '=') && d != mark2('!', '=');
            let quiet5 = quiet4 && d != mark('=');
            &&& reads(unary(toks, pos), tree, used)
            &&& quiet1 ==> reads(multiplicative(toks, pos), tree, used)
            &&& quiet2 ==> reads(additive(toks, pos), tree, used)
            &&& quiet3 ==> reads(relational(toks, pos), tree, used)
            &&& quiet4 ==> reads(equality(toks, pos), tree, used)
            &&& quiet5 ==> reads(assign(toks, pos), tree, used) && reads(
                expr(toks, pos),
                tree,
                used,
            )
        }),
{
    let d = current_at(toks, pos + used).data;
    lemma_unary_alone(toks, pos, tree, used);
    if d != mark('*') && d != mark('/') {
        lemma_multiplicative_alone(toks, pos, tree, used);
        if d != mark('+') && d != mark('-') {
            lemma_additive_alone(toks, pos, tree, used);
            if relation(d) is None {
                lemma_relational_alone(toks, pos, tree, used);
                if d != mark2('=', '=') && d != mark2('!', '=') {
                    lemma_equality_alone(toks, pos, tree, used);
                    if d != mark('=') {
                        lemma_assign_alone(toks, pos, tree, used);
                    }
                }
            }
        }
    }
}

/// What is read at one level of the grammar, with no operator after it,
/// is read as an expression.
proof fn lemma_rise(toks: Seq<Lexeme>, pos: int, tree: Tree, used: int)
    requires
        !joins(current_at(toks, pos + used).data),
    ensures
        reads(multiplicative(toks, pos), tree, used) ==> reads(additive(toks, pos), tree, used),
        reads(additive(toks, pos), tree, used) ==> reads(relational(toks, pos), tree, used),
        reads(relational(toks, pos), tree, used) ==> reads(equality(toks, pos), tree, used),
        reads(equality(toks, pos), tree, used) ==> reads(expr(toks, pos), tree, used),
{
    lemma_signs();
    if reads(multiplicative(toks, pos), tree, used) {
        lemma_additive_alone(toks, pos, tree, used);
    }
    if reads(additive(toks, pos), tree, used) {
        lemma_relational_alone(toks, pos, tree, used);
    }
    if reads(relational(toks, pos), tree, used) {
        lemma_equality_alone(toks, pos, tree, used);
    }
    if reads(equality(toks, pos), tree, used) {
        lemma_assign_alone(toks, pos, tree, used);
    }
}

/// The grammar reads the spelling of a tree as that tree: where the
/// stream holds the spelling of `tree` from `pos` on and no operator
/// after it, the expression at `pos` is `tree`, and it takes exactly the
/// tokens of the spelling.
pub proof fn lemma_spelling_reads(tree: Tree, toks: Seq<Lexeme>, pos: int)
    requires
        spellable(tree),
        holds(toks, pos, spelling(tree)),
        !joins(current_at(toks, pos + spelling(tree).len()).data),
    ensures
        reads(expr(toks, pos), tree, spelling(tree).len() as int),
    decreases tree,
{
    lemma_signs();
    lemma_layout(tree);
    let n = spelling(tree).len() as int;
    assert(toks[pos + 0int].token == Some(spelling(tree)[0int]));
    match tree.ty {
        Ntype::Num => {
            assert(tree == Tree::number(tree.value->Num_0));
            lemma_primary_number(toks, pos, tree.value->Num_0);
            lemma_climb(toks, pos, tree, 1);
        },
        Ntype::Lvar => {
            let name = tree.value->String_0;
            assert(tree == Tree::lvar(name));
            lemma_primary_name(toks, pos, name);
            assert(Data::String(name) != mark('+') && Data::String(name) != mark('-')) by {
                assert(seq!['+'][0] == '+' && seq!['-'][0] == '-');
            }
            lemma_climb(toks, pos, tree, 1);
        },
        _ => {
            let x = left_of(tree);
            let y = right_of(tree);
            let a = spelling(x).len() as int;
            let b = spelling(y).len() as int;
            lemma_parts(toks, pos, tree);
            // The operands in their parentheses.
            assert(current_at(toks, pos + 1 + a).data == mark(')'));
            lemma_spelling_reads(x, toks, pos + 1);
            lemma_primary_parenthesised(toks, pos, x, a);
            assert(current_at(toks, pos + 4 + a + b).data == mark(')'));
            lemma_spelling_reads(y, toks, pos + 4 + a);
            lemma_primary_parenthesised(toks, pos + 3 + a, y, b);
            let k1 = a + 2;
            let k2 = b + 2;
            assert(pos + k1 + 1 == pos + 3 + a);
            assert(pos + k1 + 1 + k2 == pos + n);
            assert(current_at(toks, pos).data == mark('('));
            assert(current_at(toks, pos + k1 + 1).data == mark('('));
            assert(current_at(toks, pos + k1).data == sign(tree.ty));
            lemma_climb(toks, pos, x, k1);
            lemma_climb(toks, pos + k1 + 1, y, k2);
            let joined = Tree::binary(tree.ty, tree.childs.unwrap().0, tree.childs.unwrap().1);
            assert(joined == tree);
            match tree.ty {
                Ntype::Mul | Ntype::Div => {
                    lemma_multiplicative_joined(toks, pos, tree.ty, x, k1, y, k2);
                    lemma_rise(toks, pos, tree, n);
                },
                Ntype::Add | Ntype::Sub => {
                    lemma_additive_joined(toks, pos, tree.ty, x, k1, y, k2);
                    lemma_rise(toks, pos, tree, n);
                },
                Ntype::Greater | Ntype::GreaterEq => {
                    lemma_relational_joined(toks, pos, tree.ty, x, k1, y, k2);
                    lemma_rise(toks, pos, tree, n);
                },
                Ntype::Eq | Ntype::Neq => {
                    lemma_equality_joined(toks, pos, tree.ty, x, k1, y, k2);
                    lemma_rise(toks, pos, tree, n);
                },
                _ => {
                    assert(tree.ty == Ntype::Assign);
                    lemma_assign_joined(toks, pos, x, k1, y, k2);
                },
            }
        },
    }
}

/// The grammar reads the spelling of a tree and `;` after it as the
/// statement of that tree.
pub proof fn lemma_statement_reads(tree: Tree, toks: Seq<Lexeme>, pos: int)
    requires
        spellable(tree),
        holds(toks, pos, spelling(tree)),
        toks[pos + spelling(tree).len()].token->0.data == mark(';'),
        pos + spelling(tree).len() + 1 < toks.len(),
        toks[pos + spelling(tree).len() + 1].token is Some,
    ensures
        reads(stmt(toks, pos), tree, spelling(tree).len() as int + 1),
{
    let end = pos + spelling(tree).len();
    lemma_signs();
    assert(current_at(toks, end).data == mark(';'));
    lemma_spelling_reads(tree, toks, pos);
    lemma_taken(toks, end, mark(';'));
    assert(expect_at(toks, end, mark(';')).result is Ok);
    assert(expect_at(toks, end, mark(';')).used == 1);
    lemma_stmt_unfolds(toks, pos);
}

} // verus!

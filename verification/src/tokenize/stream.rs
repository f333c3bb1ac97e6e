//! Reading a token stream: the token under the cursor, and what each way
//! of taking a token yields.

use vstd::prelude::*;
use crate::datatype::Data;
use crate::error::ErrorKind;
use crate::tokenize::kind::TokenKind;
use crate::tokenize::scan::Lexeme;
use crate::tokenize::token::TokenView;

verus! {

/// What an attempt to take something from a token stream yields: the
/// value or the kind of failure, and by how many lexemes the cursor
/// moved.
pub struct Taken<T> {
    pub result: Result<T, ErrorKind>,
    pub used: nat,
}

/// The token that a cursor resting on lexeme `pos` holds. On a character
/// that starts no token it is still the token before it.
pub open spec fn current_at(toks: Seq<Lexeme>, pos: int) -> TokenView {
    if 0 <= pos < toks.len() {
        match toks[pos].token {
            Some(t) => t,
            None => if pos > 0 && toks[pos - 1].token is Some {
                toks[pos - 1].token->0
            } else {
                TokenView::eof()
            },
        }
    } else {
        TokenView::eof()
    }
}

/// Moving the cursor to the next lexeme. The cursor does not leave the
/// end of the input, where the move succeeds, nor a character that starts
/// no token, where it fails. A move onto such a character fails too.
pub open spec fn advance(toks: Seq<Lexeme>, pos: int) -> Taken<()> {
    if !(0 <= pos < toks.len()) || toks[pos].is_eof() {
        Taken { result: Ok(()), used: 0 }
    } else if toks[pos].is_invalid() {
        Taken { result: Err(ErrorKind::InvalidChar), used: 0 }
    } else if pos + 1 < toks.len() && !toks[pos + 1].is_invalid() {
        Taken { result: Ok(()), used: 1 }
    } else {
        Taken { result: Err(ErrorKind::InvalidChar), used: 1 }
    }
}

/// How many lexemes the stream holds from position `pos` on.
pub open spec fn remaining(toks: Seq<Lexeme>, pos: int) -> nat {
    if pos < toks.len() {
        (toks.len() - pos) as nat
    } else {
        0
    }
}

/// Taking the current token if it carries the payload `data`.
#[verifier::opaque]
pub open spec fn consume_at(toks: Seq<Lexeme>, pos: int, data: Data) -> Taken<bool> {
    if current_at(toks, pos).data == data {
        match advance(toks, pos).result {
            Ok(_) => Taken { result: Ok(true), used: advance(toks, pos).used },
            Err(k) => Taken { result: Err(k), used: advance(toks, pos).used },
        }
    } else {
        Taken { result: Ok(false), used: 0 }
    }
}

/// Taking the current token, which must carry the payload `data`.
#[verifier::opaque]
pub open spec fn expect_at(toks: Seq<Lexeme>, pos: int, data: Data) -> Taken<()> {
    if current_at(toks, pos).data == data {
        advance(toks, pos)
    } else {
        Taken { result: Err(ErrorKind::SyntaxError), used: 0 }
    }
}

/// Taking the current token, which must be of class `kind`.
#[verifier::opaque]
pub open spec fn expect_kind_at(toks: Seq<Lexeme>, pos: int, kind: TokenKind) -> Taken<()> {
    if current_at(toks, pos).tk == kind {
        advance(toks, pos)
    } else {
        Taken { result: Err(ErrorKind::SyntaxError), used: 0 }
    }
}

/// Taking the current token, which must carry a number.
#[verifier::opaque]
pub open spec fn number_at(toks: Seq<Lexeme>, pos: int) -> Taken<i32> {
    match current_at(toks, pos).data {
        Data::Num(n) => match advance(toks, pos).result {
            Ok(_) => Taken { result: Ok(n), used: advance(toks, pos).used },
            Err(k) => Taken { result: Err(k), used: advance(toks, pos).used },
        },
        _ => Taken { result: Err(ErrorKind::SyntaxError), used: 0 },
    }
}

/// Taking the current token, which must be an identifier.
#[verifier::opaque]
pub open spec fn ident_at(toks: Seq<Lexeme>, pos: int) -> Taken<Seq<char>> {
    if current_at(toks, pos).tk == TokenKind::Ident {
        match current_at(toks, pos).data {
            Data::String(s) => match advance(toks, pos).result {
                Ok(_) => Taken { result: Ok(s), used: advance(toks, pos).used },
                Err(k) => Taken { result: Err(k), used: advance(toks, pos).used },
            },
            _ => Taken { result: Err(ErrorKind::InvalidData), used: 0 },
        }
    } else {
        Taken { result: Err(ErrorKind::SyntaxError), used: 0 }
    }
}

/// A token that is taken moves the cursor by one lexeme, which lies in
/// the stream; one that is left does not move it.
pub proof fn lemma_consume_moves(toks: Seq<Lexeme>, pos: int, data: Data)
    ensures
        consume_at(toks, pos, data).used <= 1,
        current_at(toks, pos).data != data ==> consume_at(toks, pos, data) == (Taken {
            result: Ok::<bool, ErrorKind>(false),
            used: 0,
        }),
        current_at(toks, pos).data == data ==> consume_at(toks, pos, data).result != Ok::<
            bool,
            ErrorKind,
        >(false),
        consume_at(toks, pos, data).result is Ok && current_at(toks, pos).data == data ==> consume_at(
            toks,
            pos,
            data,
        ).result == Ok::<bool, ErrorKind>(true),
        consume_at(toks, pos, data).result is Ok && current_at(toks, pos).data == data && !(data
            is Empty) ==> consume_at(toks, pos, data).used == 1 && 0 <= pos < toks.len(),
{
    reveal(consume_at);
}

/// Wherever a token with a payload is taken from the stream `toks`, the
/// cursor moves by one lexeme, which lies in the stream.
pub proof fn lemma_consume_moves_everywhere(toks: Seq<Lexeme>)
    ensures
        forall|pos: int, data: Data|
            (#[trigger] consume_at(toks, pos, data)).result is Ok && current_at(toks, pos).data
                == data && !(data is Empty) ==> consume_at(toks, pos, data).result == Ok::<
                bool,
                ErrorKind,
            >(true) && consume_at(toks, pos, data).used == 1 && 0 <= pos < toks.len(),
        forall|pos: int, data: Data|
            current_at(toks, pos).data != data ==> #[trigger] consume_at(toks, pos, data) == (Taken {
                result: Ok::<bool, ErrorKind>(false),
                used: 0,
            }),
{
    assert forall|pos: int, data: Data|
        (#[trigger] consume_at(toks, pos, data)).result is Ok && current_at(toks, pos).data == data
            && !(data is Empty) implies consume_at(toks, pos, data).result == Ok::<bool, ErrorKind>(
        true,
    ) && consume_at(toks, pos, data).used == 1 && 0 <= pos < toks.len() by {
        lemma_consume_moves(toks, pos, data);
    }
    assert forall|pos: int, data: Data| current_at(toks, pos).data != data implies #[trigger] consume_at(
        toks,
        pos,
        data,
    ) == (Taken { result: Ok::<bool, ErrorKind>(false), used: 0 }) by {
        lemma_consume_moves(toks, pos, data);
    }
}

/// An expected token that is found moves the cursor by one lexeme, which
/// lies in the stream.
pub proof fn lemma_expect_moves(toks: Seq<Lexeme>, pos: int, data: Data)
    ensures
        expect_at(toks, pos, data).used <= 1,
        expect_at(toks, pos, data).result is Ok && !(data is Empty) ==> expect_at(
            toks,
            pos,
            data,
        ).used == 1 && 0 <= pos < toks.len(),
{
    reveal(expect_at);
}

/// A number that is taken moves the cursor by one lexeme, which lies in
/// the stream.
pub proof fn lemma_number_moves(toks: Seq<Lexeme>, pos: int)
    ensures
        number_at(toks, pos).used <= 1,
        number_at(toks, pos).result is Ok ==> number_at(toks, pos).used == 1 && 0 <= pos
            < toks.len(),
{
    reveal(number_at);
}

/// An identifier that is taken moves the cursor by one lexeme, which
/// lies in the stream.
pub proof fn lemma_ident_moves(toks: Seq<Lexeme>, pos: int)
    ensures
        ident_at(toks, pos).used <= 1,
        ident_at(toks, pos).result is Ok ==> ident_at(toks, pos).used == 1 && 0 <= pos
            < toks.len(),
{
    reveal(ident_at);
}

} // verus!

//! The lexer that produces all tokens of a text at once.

use vstd::prelude::*;
use crate::arith::{wrap32, wrapping_difference, wrapping_sum};
use crate::chars::copy_text;
use crate::datatype::{Data, DataUnion};
use crate::error::{answers, failure, is_failure, Error, ErrorKind};
use crate::tokenize::kind::TokenKind;
use crate::tokenize::scan::{
    lemma_lexemes, lemma_lexemes_consistent, lemma_lexemes_nonempty, lexemes, scan, scan_token,
    tokens,
};
use crate::tokenize::token::{Token, TokenView};

verus! {

/// The tokens of a source text and a cursor into them.
#[derive(Debug)]
pub struct TokenList {
    list: Vec<Token>,
    index: usize,
}

/// The mathematical value of a [`TokenList`].
pub struct TokenListView {
    pub list: Seq<TokenView>,
    pub index: nat,
}

/// The values of a list of tokens, in order.
pub open spec fn token_views(list: Seq<Token>) -> Seq<TokenView> {
    Seq::new(list.len(), |i: int| list[i]@)
}

impl View for TokenList {
    type V = TokenListView;

    closed spec fn view(&self) -> TokenListView {
        TokenListView { list: token_views(self.list@), index: self.index as nat }
    }
}

impl TokenListView {
    /// The token under the cursor.
    pub open spec fn current(self) -> TokenView
        recommends
            self.index < self.list.len(),
    {
        self.list[self.index as int]
    }

    /// This list with the cursor moved by `n` tokens.
    pub open spec fn moved(self, n: nat) -> TokenListView {
        TokenListView { list: self.list, index: self.index + n }
    }
}

/// What a calculation on a token list gives: the number or the kind of
/// failure, and by how many tokens the cursor moved.
pub struct Calculated {
    pub result: Result<i32, ErrorKind>,
    pub used: nat,
}

/// Taking the token at `index`, which must be a number. A token of
/// class number without a number in it is taken and is a failure.
pub open spec fn number_in(list: Seq<TokenView>, index: int) -> Calculated {
    if list[index].tk == TokenKind::Number {
        match list[index].data {
            Data::Num(n) => Calculated { result: Ok(n), used: 1 },
            _ => Calculated { result: Err(ErrorKind::InvalidData), used: 1 },
        }
    } else {
        Calculated { result: Err(ErrorKind::SyntaxError), used: 0 }
    }
}

/// The value of the rest of a chain of additions and subtractions
/// whose value so far is `acc`: `( ('+' | '-') number )* end-of-input`.
pub open spec fn sum_from(list: Seq<TokenView>, index: int, acc: i32) -> Calculated
    decreases list.len() - index,
{
    if !(0 <= index < list.len() - 1) || list[index].tk == TokenKind::Eof {
        Calculated { result: Ok(acc), used: 0 }
    } else if list[index].data == Data::String(seq!['+']) || list[index].data == Data::String(
        seq!['-'],
    ) {
        let operand = number_in(list, index + 1);
        match operand.result {
            Err(k) => Calculated { result: Err(k), used: 1 + operand.used },
            Ok(n) => {
                let total = if list[index].data == Data::String(seq!['+']) {
                    wrap32(acc + n)
                } else {
                    wrap32(acc - n)
                };
                let rest = sum_from(list, index + 2, total);
                Calculated { result: rest.result, used: 2 + rest.used }
            },
        }
    } else {
        Calculated { result: Err(ErrorKind::SyntaxError), used: 0 }
    }
}

/// The value of a chain of additions and subtractions of numbers that
/// starts at `index` and runs to the end of the input.
pub open spec fn calculation(list: Seq<TokenView>, index: int) -> Calculated {
    let first = number_in(list, index);
    match first.result {
        Err(k) => Calculated { result: Err(k), used: first.used },
        Ok(n) => {
            let rest = sum_from(list, index + 1, n);
            Calculated { result: rest.result, used: 1 + rest.used }
        },
    }
}

impl TokenList {
    /// The invariant of the list: it ends with the end-of-input token,
    /// and the cursor is not beyond its end.
    pub closed spec fn wf(&self) -> bool {
        &&& 1 <= self.list@.len() <= usize::MAX
        &&& self.list@.last()@ == TokenView::eof()
        &&& self.index <= self.list@.len()
    }

    /// Whether the cursor rests on a token.
    pub open spec fn has_current(&self) -> bool {
        self@.index < self@.list.len()
    }

    /// The value of the list, token by token.
    proof fn lemma_view(&self)
        ensures
            self@.list.len() == self.list@.len(),
            self@.index == self.index,
            forall|i: int| 0 <= i < self.list@.len() ==> #[trigger] self@.list[i] == self.list@[i]@,
    {
    }

    /// A well-formed list ends with the end-of-input token.
    pub proof fn lemma_ends_with_eof(&self)
        requires
            self.wf(),
        ensures
            self@.list.len() >= 1,
            self@.list.last() == TokenView::eof(),
            self@.index <= self@.list.len(),
    {
    }

    /// The tokens of the text `b`, with the cursor on the first. It fails
    /// where the text holds a character that starts no token.
    pub fn gen_tokens(b: Vec<char>) -> (r: Result<Self, Error>)
        ensures
            match tokens(b@) {
                Some(list) => r is Ok && r->Ok_0.wf() && r->Ok_0.has_current() && r->Ok_0@ == (
                TokenListView { list, index: 0 }),
                None => is_failure(r, ErrorKind::InvalidChar),
            },
    {
        let ghost s = lexemes(b@);
        let mut v: Vec<Token> = Vec::new();
        let mut pos: usize = 0;
        proof {
            lemma_lexemes_nonempty(b@);
        }
        loop
            invariant
                s == lexemes(b@),
                v@.len() < s.len(),
                pos <= b@.len(),
                scan(b@, pos as int) == s[v@.len() as int],
                forall|k: int| 0 <= k < v@.len() ==> s[k].token == Some(#[trigger] v@[k]@),
            decreases s.len() - v@.len(),
        {
            let ghost k = v@.len() as int;
            proof {
                lemma_lexemes(b@, k);
            }
            let step = scan_token(b.as_slice(), pos);
            match step.token {
                None => {
                    return failure(ErrorKind::InvalidChar);
                },
                Some(t) => {
                    let last = t.is_kind(TokenKind::Eof);
                    proof {
                        lemma_lexemes_consistent(b@, k);
                    }
                    v.push(t);
                    if last {
                        assert(v@.len() == v.len() <= usize::MAX);
                        let list = TokenList { list: v, index: 0 };
                        assert(list@.list =~= tokens(b@).unwrap());
                        return Ok(list);
                    }
                    pos = step.end;
                },
            }
        }
    }

    /// Whether the current token is of class `kind`. The cursor stays.
    pub fn consume_kind(&mut self, kind: TokenKind) -> (r: bool)
        requires
            old(self).wf(),
            old(self).has_current(),
        ensures
            final(self).wf(),
            final(self)@ == old(self)@,
            r == (old(self)@.current().tk == kind),
    {
        proof {
            self.lemma_view();
        }
        kind == self.list[self.index].tk
    }

    /// Checks that the current token is of class `kind`. The cursor
    /// stays.
    pub fn expect_kind(&mut self, kind: TokenKind) -> (r: Result<(), Error>)
        requires
            old(self).wf(),
            old(self).has_current(),
        ensures
            final(self).wf(),
            final(self)@ == old(self)@,
            old(self)@.current().tk == kind ==> r is Ok,
            old(self)@.current().tk != kind ==> is_failure(r, ErrorKind::SyntaxError),
    {
        proof {
            self.lemma_view();
        }
        if self.consume_kind(kind) {
            return Ok(());
        }
        failure(ErrorKind::SyntaxError)
    }

    /// Moves past the current token if it carries the payload `dat`, and
    /// says whether it did.
    pub fn consume(&mut self, dat: DataUnion) -> (r: bool)
        requires
            old(self).wf(),
            old(self).has_current(),
        ensures
            final(self).wf(),
            r == (old(self)@.current().data == dat@),
            final(self)@ == old(self)@.moved(
                if r {
                    1
                } else {
                    0
                },
            ),
            !(dat@ is Empty) ==> final(self).has_current(),
    {
        proof {
            self.lemma_view();
        }
        if self.list[self.index].eq_data(dat) {
            self.index += 1;
            return true;
        }
        false
    }

    /// Moves past the current token, which must carry the payload `dat`.
    pub fn expect(&mut self, dat: DataUnion) -> (r: Result<(), Error>)
        requires
            old(self).wf(),
            old(self).has_current(),
        ensures
            final(self).wf(),
            old(self)@.current().data == dat@ ==> r is Ok && final(self)@ == old(self)@.moved(1),
            old(self)@.current().data != dat@ ==> is_failure(r, ErrorKind::SyntaxError)
                && final(self)@ == old(self)@,
            !(dat@ is Empty) ==> final(self).has_current(),
    {
        proof {
            self.lemma_view();
        }
        if self.consume(dat) {
            return Ok(());
        }
        failure(ErrorKind::SyntaxError)
    }

    /// Moves past the current token, which must be a number, and returns
    /// the number.
    pub fn next_number(&mut self) -> (r: Result<i32, Error>)
        requires
            old(self).wf(),
            old(self).has_current(),
        ensures
            final(self).wf(),
            final(self)@ == old(self)@.moved(
                number_in(old(self)@.list, old(self)@.index as int).used,
            ),
            answers(r, number_in(old(self)@.list, old(self)@.index as int).result),
            final(self).has_current(),
    {
        proof {
            self.lemma_view();
        }
        if self.list[self.index].tk == TokenKind::Number {
            let found = match self.list[self.index].data {
                DataUnion::Num(n) => Ok(n),
                _ => failure(ErrorKind::InvalidData),
            };
            self.index += 1;
            return found;
        }
        failure(ErrorKind::SyntaxError)
    }

    /// Moves past the current token, which must be an identifier, and
    /// returns its name. A token of class identifier without text in it
    /// is passed and is a failure.
    pub fn next_ident(&mut self) -> (r: Result<Vec<char>, Error>)
        requires
            old(self).wf(),
            old(self).has_current(),
        ensures
            final(self).wf(),
            match (old(self)@.current().tk, old(self)@.current().data) {
                (TokenKind::Ident, Data::String(s)) => r is Ok && r->Ok_0@ == s && final(self)@
                    == old(self)@.moved(1),
                (TokenKind::Ident, _) => is_failure(r, ErrorKind::InvalidData) && final(self)@
                    == old(self)@.moved(1),
                _ => is_failure(r, ErrorKind::SyntaxError) && final(self)@ == old(self)@,
            },
            final(self).has_current(),
    {
        proof {
            self.lemma_view();
        }
        if self.list[self.index].tk == TokenKind::Ident {
            let found = match &self.list[self.index].data {
                DataUnion::String(s) => Ok(copy_text(s.as_slice())),
                _ => failure(ErrorKind::InvalidData),
            };
            self.index += 1;
            found
        } else {
            failure(ErrorKind::SyntaxError)
        }
    }

    /// The place of the cursor counted from one, as a failure report
    /// names it.
    pub fn error_at(&self) -> (n: usize)
        requires
            self.wf(),
            self.has_current(),
        ensures
            n == self@.index + 1,
    {
        proof {
            self.lemma_view();
        }
        self.index + 1
    }

    /// The class of the current token.
    pub fn current(&self) -> (k: TokenKind)
        requires
            self.wf(),
            self.has_current(),
        ensures
            k == self@.current().tk,
    {
        proof {
            self.lemma_view();
        }
        self.list[self.index].tk
    }

    /// The payload of the current token.
    pub fn current_data(&self) -> (d: DataUnion)
        requires
            self.wf(),
            self.has_current(),
        ensures
            d@ == self@.current().data,
    {
        proof {
            self.lemma_view();
        }
        self.list[self.index].data.clone()
    }

    /// The place of the cursor.
    pub fn get_index(&self) -> (i: usize)
        ensures
            i == self@.index,
    {
        self.index
    }

    /// Evaluates a chain of additions and subtractions of numbers that
    /// runs from the cursor to the end of the input. Sums and differences
    /// wrap around.
    pub fn calculate(&mut self) -> (r: Result<i32, Error>)
        requires
            old(self).wf(),
            old(self).has_current(),
        ensures
            final(self).wf(),
            final(self)@ == old(self)@.moved(
                calculation(old(self)@.list, old(self)@.index as int).used,
            ),
            answers(r, calculation(old(self)@.list, old(self)@.index as int).result),
            final(self).has_current(),
    {
        let ghost list = self@.list;
        let ghost start = self@.index as int;
        let mut n = match self.next_number() {
            Ok(n) => n,
            Err(err) => {
                return Err(err);
            },
        };
        loop
            invariant
                self.wf(),
                self@.list == list,
                list == old(self)@.list,
                start == old(self)@.index,
                start < self@.index < list.len(),
                calculation(list, start).result == sum_from(list, self@.index as int, n).result,
                calculation(list, start).used == (self@.index - start) + sum_from(
                    list,
                    self@.index as int,
                    n,
                ).used,
            decreases list.len() - self@.index,
        {
            proof {
                self.lemma_view();
            }
            if self.current() == TokenKind::Eof {
                return Ok(n);
            }
            let plus = self.consume(DataUnion::char('+'));
            let minus = if plus {
                false
            } else {
                self.consume(DataUnion::char('-'))
            };
            if !plus && !minus {
                return failure(ErrorKind::SyntaxError);
            }
            let operand = match self.next_number() {
                Ok(m) => m,
                Err(err) => {
                    return Err(err);
                },
            };
            if plus {
                n = wrapping_sum(n, operand);
            } else {
                n = wrapping_difference(n, operand);
            }
        }
    }
}

} // verus!

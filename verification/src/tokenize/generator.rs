//! The lexer that produces tokens on demand, one at a time.

use vstd::prelude::*;
use crate::chars::{append_text, copy_text, text_of};
use crate::datatype::DataUnion;
use crate::error::{answers, failure, is_failure, Error, ErrorKind};
use crate::tokenize::kind::TokenKind;
use crate::tokenize::scan::{
    lemma_lexemes, lemma_lexemes_consistent, lemma_lexemes_nonempty, lemma_rescan, lexemes,
    scan_token, Lexeme,
};
use crate::tokenize::stream::{
    advance, consume_at, current_at, expect_at, expect_kind_at, ident_at, number_at,
};
use crate::tokenize::token::Token;

verus! {

/// A lexer over a source text that holds one token at a time.
pub struct TokenGen {
    code: Vec<char>,
    index: usize,
    prev: usize,
    current: Token,
    pos: Ghost<nat>,
}

/// The mathematical value of a [`TokenGen`]: the source text and the
/// place of the cursor in its token stream.
pub struct TokenGenView {
    pub code: Seq<char>,
    pub pos: nat,
}

impl View for TokenGen {
    type V = TokenGenView;

    closed spec fn view(&self) -> TokenGenView {
        TokenGenView { code: self.code@, pos: self.pos@ }
    }
}

/// Whether `r` is what `want` asks for: the same text, or the failure of
/// the same kind without a description.
pub open spec fn answers_text(r: Result<Vec<char>, Error>, want: Result<Seq<char>, ErrorKind>) -> bool {
    match want {
        Ok(v) => r is Ok && r->Ok_0@ == v,
        Err(k) => is_failure(r, k),
    }
}

/// The text that points out the span from `start` to `end` of `code`: up
/// to `left` characters before the span, the span between `>>>` and
/// `<<<`, and up to `right` characters after it.
pub open spec fn window(code: Seq<char>, start: int, end: int, left: int, right: int) -> Seq<char>
    recommends
        0 <= start <= end <= code.len(),
        0 <= left,
        0 <= right,
{
    let from = if start > left {
        start - left
    } else {
        0
    };
    let to = if end + right < code.len() {
        end + right
    } else {
        code.len() as int
    };
    code.subrange(from, start) + seq![' ', '>', '>', '>'] + code.subrange(start, end) + seq![
        '<',
        '<',
        '<',
        ' ',
    ] + code.subrange(end, to)
}

/// The text that shows the span from `start` to `end` of `code` between
/// `>>>` and `<<<`, after the text from `from` on and before the text up
/// to `to`.
fn window_text(code: &[char], start: usize, end: usize, from: usize, to: usize) -> (text: Vec<char>)
    requires
        from <= start <= end <= to <= code@.len(),
    ensures
        text@ == code@.subrange(from as int, start as int) + seq![' ', '>', '>', '>']
            + code@.subrange(start as int, end as int) + seq!['<', '<', '<', ' ']
            + code@.subrange(end as int, to as int),
{
    let open: Vec<char> = vec![' ', '>', '>', '>'];
    let close: Vec<char> = vec!['<', '<', '<', ' '];
    assert(open@.subrange(0, 4) =~= open@);
    assert(close@.subrange(0, 4) =~= close@);
    let mut text: Vec<char> = Vec::new();
    append_text(&mut text, code, from, start);
    assert(text@ =~= code@.subrange(from as int, start as int));
    append_text(&mut text, open.as_slice(), 0, 4);
    append_text(&mut text, code, start, end);
    append_text(&mut text, close.as_slice(), 0, 4);
    append_text(&mut text, code, end, to);
    text
}

/// The report of a failure at the span from `start` to `end` of `code`:
/// the window around the span, then the message `msg` on a line of its
/// own. The range gives how many characters are shown before and after
/// the span; thirty of each where none is given.
pub open spec fn report(
    code: Seq<char>,
    start: int,
    end: int,
    msg: Seq<char>,
    range: Option<(usize, usize)>,
) -> Seq<char> {
    window(
        code,
        start,
        end,
        match range {
            Some((l, _)) => l as int,
            None => 30,
        },
        match range {
            Some((_, r)) => r as int,
            None => 30,
        },
    ) + seq!['\n'] + msg
}

/// The report of a failure at the span from `start` to `end` of `code`.
pub fn error_at(
    code: &[char],
    start: usize,
    end: usize,
    msg: &str,
    range: Option<(usize, usize)>,
) -> (text: Vec<char>)
    requires
        start <= end <= code@.len(),
    ensures
        text@ == report(code@, start as int, end as int, msg@, range),
{
    let (l, r) = match range {
        Some((l, r)) => (l, r),
        None => (30, 30),
    };
    let len = code.len();
    let from: usize = if start > l {
        start - l
    } else {
        0
    };
    let to: usize = if r < len - end {
        end + r
    } else {
        len
    };
    let mut text = window_text(code, start, end, from, to);
    let ghost shown = text@;
    text.push('\n');
    let tail = text_of(msg);
    append_text(&mut text, tail.as_slice(), 0, tail.len());
    assert(tail@.subrange(0, tail@.len() as int) =~= msg@);
    assert(shown.push('\n') =~= shown + seq!['\n']);
    text
}

impl TokenGen {
    /// The invariant of the lexer: the cursor rests on a lexeme of the
    /// token stream of the source text, and the lexer holds the token and
    /// the span of that lexeme.
    pub closed spec fn wf(&self) -> bool {
        let s = lexemes(self.code@);
        &&& self.pos@ < s.len()
        &&& self.prev == s[self.pos@ as int].start
        &&& self.index == s[self.pos@ as int].end
        &&& self.current@ == current_at(s, self.pos@ as int)
    }

    /// The token stream of the source text.
    pub open spec fn stream(&self) -> Seq<Lexeme> {
        lexemes(self@.code)
    }

    /// The place of the cursor in the token stream.
    pub open spec fn cursor(&self) -> int {
        self@.pos as int
    }

    /// Whether this lexer is `before` with the cursor moved on by `used`
    /// lexemes.
    pub open spec fn follows(&self, before: TokenGen, used: nat) -> bool {
        &&& self.wf()
        &&& self@.code == before@.code
        &&& self@.pos == before@.pos + used
    }

    /// Where the lexeme under the cursor starts in the source text.
    pub open spec fn span_start(&self) -> int {
        self.stream()[self.cursor()].start
    }

    /// Where the lexeme under the cursor ends in the source text.
    pub open spec fn span_end(&self) -> int {
        self.stream()[self.cursor()].end
    }

    /// The cursor rests on a lexeme of the stream.
    pub proof fn lemma_cursor_in_stream(&self)
        requires
            self.wf(),
        ensures
            0 <= self.cursor() < self.stream().len(),
    {
    }

    /// In the token that the lexer holds, class and payload agree.
    pub proof fn lemma_current_consistent(&self)
        requires
            self.wf(),
        ensures
            current_at(self.stream(), self.cursor()).consistent(),
    {
        let p = self.cursor();
        lemma_lexemes_consistent(self@.code, p);
        if p > 0 {
            lemma_lexemes_consistent(self@.code, p - 1);
        }
    }

    /// A lexer at the start of `code`. It fails where the text starts,
    /// after blanks, with a character that starts no token.
    pub fn new(code: Vec<char>) -> (r: Result<TokenGen, Error>)
        ensures
            match r {
                Ok(g) => g.wf() && g@.code == code@ && g@.pos == 0 && lexemes(code@)[0].token
                    is Some,
                Err(_) => is_failure(r, ErrorKind::InvalidChar) && lexemes(code@)[0].token
                    is None,
            },
    {
        let step = scan_token(code.as_slice(), 0);
        proof {
            lemma_lexemes_nonempty(code@);
        }
        match step.token {
            Some(t) => Ok(
                TokenGen { code, index: step.end, prev: step.start, current: t, pos: Ghost(0) },
            ),
            None => failure(ErrorKind::InvalidChar),
        }
    }

    /// Moves to the next token.
    pub fn next(&mut self) -> (r: Result<(), Error>)
        requires
            old(self).wf(),
        ensures
            final(self).follows(*old(self), advance(old(self).stream(), old(self).cursor()).used),
            answers(r, advance(old(self).stream(), old(self).cursor()).result),
    {
        let ghost s = lexemes(self.code@);
        let ghost p = self.pos@ as int;
        proof {
            lemma_lexemes(self.code@, p);
        }
        let step = scan_token(self.code.as_slice(), self.index);
        proof {
            if s[p].is_final() {
                if p > 0 {
                    lemma_lexemes(self.code@, p - 1);
                    lemma_rescan(self.code@, s[p - 1].end);
                } else {
                    lemma_rescan(self.code@, 0);
                }
            } else {
                lemma_lexemes(self.code@, p + 1);
            }
        }
        self.prev = step.start;
        self.index = step.end;
        proof {
            if !s[p].is_final() {
                self.pos@ = (p + 1) as nat;
            }
        }
        match step.token {
            Some(t) => {
                self.current = t;
                Ok(())
            },
            None => failure(ErrorKind::InvalidChar),
        }
    }

    /// Whether the current token is of class `kind`. The cursor stays.
    pub fn consume_kind(&mut self, kind: TokenKind) -> (r: bool)
        requires
            old(self).wf(),
        ensures
            final(self).follows(*old(self), 0),
            r == (current_at(old(self).stream(), old(self).cursor()).tk == kind),
    {
        self.current.is_kind(kind)
    }

    /// Moves past the current token, which must be of class `kind`.
    pub fn expect_kind(&mut self, kind: TokenKind) -> (r: Result<(), Error>)
        requires
            old(self).wf(),
        ensures
            final(self).follows(
                *old(self),
                expect_kind_at(old(self).stream(), old(self).cursor(), kind).used,
            ),
            answers(r, expect_kind_at(old(self).stream(), old(self).cursor(), kind).result),
    {
        reveal(expect_kind_at);
        if self.current.is_kind(kind) {
            self.next()
        } else {
            failure(ErrorKind::SyntaxError)
        }
    }

    /// Moves past the current token if it carries the payload `data`, and
    /// says whether it did.
    pub fn consume(&mut self, data: DataUnion) -> (r: Result<bool, Error>)
        requires
            old(self).wf(),
        ensures
            final(self).follows(
                *old(self),
                consume_at(old(self).stream(), old(self).cursor(), data@).used,
            ),
            answers(r, consume_at(old(self).stream(), old(self).cursor(), data@).result),
    {
        reveal(consume_at);
        if self.current.eq_data(data) {
            match self.next() {
                Ok(_) => Ok(true),
                Err(_) => failure(ErrorKind::InvalidChar),
            }
        } else {
            Ok(false)
        }
    }

    /// Moves past the current token, which must carry the payload `data`.
    pub fn expect(&mut self, data: DataUnion) -> (r: Result<(), Error>)
        requires
            old(self).wf(),
        ensures
            final(self).follows(
                *old(self),
                expect_at(old(self).stream(), old(self).cursor(), data@).used,
            ),
            answers(r, expect_at(old(self).stream(), old(self).cursor(), data@).result),
    {
        reveal(expect_at);
        if self.current.eq_data(data) {
            self.next()
        } else {
            failure(ErrorKind::SyntaxError)
        }
    }

    /// Moves past the current token, which must carry a number, and
    /// returns the number.
    pub fn get_number(&mut self) -> (r: Result<i32, Error>)
        requires
            old(self).wf(),
        ensures
            final(self).follows(*old(self), number_at(old(self).stream(), old(self).cursor()).used),
            answers(r, number_at(old(self).stream(), old(self).cursor()).result),
    {
        reveal(number_at);
        match self.current.data {
            DataUnion::Num(n) => match self.next() {
                Ok(_) => Ok(n),
                Err(_) => failure(ErrorKind::InvalidChar),
            },
            _ => failure(ErrorKind::SyntaxError),
        }
    }

    /// The current token.
    pub fn current(&self) -> (t: &Token)
        requires
            self.wf(),
        ensures
            t@ == current_at(self.stream(), self.cursor()),
    {
        &self.current
    }

    /// The report of a failure at the cursor: a line that shows the
    /// lexeme under the cursor between `>>>` and `<<<` with the text around
    /// it, and the message `msg` on a line of its own. The range gives how
    /// many characters are shown before and after; thirty of each where
    /// none is given.
    pub fn error_at(&self, msg: &str, range: Option<(usize, usize)>) -> (text: Vec<char>)
        requires
            self.wf(),
        ensures
            text@ == report(self@.code, self.span_start(), self.span_end(), msg@, range),
    {
        proof {
            lemma_lexemes(self.code@, self.pos@ as int);
        }
        error_at(self.code.as_slice(), self.prev, self.index, msg, range)
    }

    /// Moves past the current token, which must be an identifier, and
    /// returns its name.
    pub fn get_ident(&mut self) -> (r: Result<Vec<char>, Error>)
        requires
            old(self).wf(),
        ensures
            final(self).follows(*old(self), ident_at(old(self).stream(), old(self).cursor()).used),
            answers_text(r, ident_at(old(self).stream(), old(self).cursor()).result),
    {
        reveal(ident_at);
        if self.current.is_kind(TokenKind::Ident) {
            let name = match &self.current.data {
                DataUnion::String(s) => copy_text(s.as_slice()),
                _ => {
                    return failure(ErrorKind::InvalidData);
                },
            };
            match self.next() {
                Ok(_) => Ok(name),
                Err(_) => failure(ErrorKind::InvalidChar),
            }
        } else {
            failure(ErrorKind::SyntaxError)
        }
    }
}

} // verus!

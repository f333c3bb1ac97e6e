//! The lexical rules: what one step of the lexer finds at a position of
//! the source text, and the token stream that repeated steps produce.

use vstd::prelude::*;
use vstd::slice::slice_subrange;
use crate::arith::{lemma_wrap32_fits, lemma_wrap32_step, wrap32, wrapping_product, wrapping_sum};
use crate::chars::{
    digit_value, is_digit, is_digit_char, is_ident, is_ident_char, is_mark, is_space,
    is_space_char, to_digit,
};
use crate::datatype::{Data, DataUnion};
use crate::tokenize::kind::TokenKind;
use crate::tokenize::token::{Token, TokenView};

verus! {

/// The operators and punctuation marks of one character:
/// `+ - * / ( ) ; = < >`.
pub open spec fn is_operator_char(c: char) -> bool {
    ||| c == '+'
    ||| c == '-'
    ||| c == '*'
    ||| c == '/'
    ||| c == '('
    ||| c == ')'
    ||| c == ';'
    ||| c == '='
    ||| c == '<'
    ||| c == '>'
}

/// The operators of two characters: `== != <= >=`.
pub open spec fn is_operator_pair(a: char, b: char) -> bool {
    b == '=' && (a == '=' || a == '!' || a == '<' || a == '>')
}

/// The length of the longest operator that `code` holds at `at`: 2, 1, or
/// 0 where no operator starts there.
pub open spec fn operator_len(code: Seq<char>, at: int) -> int {
    if 0 <= at && at + 1 < code.len() && is_operator_pair(code[at], code[at + 1]) {
        2
    } else if 0 <= at < code.len() && is_operator_char(code[at]) {
        1
    } else {
        0
    }
}

/// The first position at or after `from` that holds no blank character;
/// the length of `code` where only blanks are left.
pub open spec fn skip_blanks(code: Seq<char>, from: int) -> int
    decreases code.len() - from,
{
    if 0 <= from < code.len() && is_space_char(code[from]) {
        skip_blanks(code, from + 1)
    } else {
        from
    }
}

/// The first position at or after `from` that holds neither a letter, an
/// underscore nor a digit.
pub open spec fn word_end(code: Seq<char>, from: int) -> int
    decreases code.len() - from,
{
    if 0 <= from < code.len() && (is_ident_char(code[from]) || is_digit_char(code[from])) {
        word_end(code, from + 1)
    } else {
        from
    }
}

/// The first position at or after `from` that holds no digit.
pub open spec fn digits_end(code: Seq<char>, from: int) -> int
    decreases code.len() - from,
{
    if 0 <= from < code.len() && is_digit_char(code[from]) {
        digits_end(code, from + 1)
    } else {
        from
    }
}

/// The number that a run of decimal digits denotes.
pub open spec fn decimal(digits: Seq<char>) -> nat
    decreases digits.len(),
{
    if digits.len() == 0 {
        0
    } else {
        (decimal(digits.drop_last()) * 10 + digit_value(digits.last())) as nat
    }
}

/// What one step of the lexer finds: the token, or `None` where the text
/// holds a character that starts no token, and the span of text that it
/// covers.
pub struct Lexeme {
    pub start: int,
    pub end: int,
    pub token: Option<TokenView>,
}

impl Lexeme {
    /// Whether the token stream ends here: at the end of the input or at a
    /// character that starts no token.
    pub open spec fn is_final(self) -> bool {
        self.is_invalid() || self.is_eof()
    }

    /// Whether this is the end of the input.
    pub open spec fn is_eof(self) -> bool {
        self.token == Some(TokenView::eof())
    }

    /// Whether this is a character that starts no token.
    pub open spec fn is_invalid(self) -> bool {
        self.token is None
    }
}

/// One step of the lexer from position `from`: blanks are skipped, then
/// the longest identifier, operator or number that starts there is taken.
/// At the end of the text the step finds the end-of-input token. At any
/// other character it finds nothing.
pub open spec fn scan(code: Seq<char>, from: int) -> Lexeme {
    let at = skip_blanks(code, from);
    if at >= code.len() {
        Lexeme { start: code.len() as int, end: code.len() as int, token: Some(TokenView::eof()) }
    } else if is_ident_char(code[at]) {
        let end = word_end(code, at + 1);
        Lexeme { start: at, end, token: Some(TokenView::ident(code.subrange(at, end))) }
    } else if operator_len(code, at) > 0 {
        let end = at + operator_len(code, at);
        Lexeme { start: at, end, token: Some(TokenView::reserved(code.subrange(at, end))) }
    } else if is_digit_char(code[at]) {
        let end = digits_end(code, at + 1);
        Lexeme {
            start: at,
            end,
            token: Some(TokenView::number(wrap32(decimal(code.subrange(at, end)) as int))),
        }
    } else {
        Lexeme { start: at, end: at, token: None }
    }
}

/// The lexemes that repeated steps find from position `from` on, up to
/// and including the first final one.
pub open spec fn lexemes_from(code: Seq<char>, from: int) -> Seq<Lexeme>
    decreases code.len() - from,
{
    let first = scan(code, from);
    if first.is_final() || from < 0 {
        seq![first]
    } else {
        proof {
            lemma_scan_bounds(code, from);
        }
        seq![first] + lexemes_from(code, first.end)
    }
}

/// The token stream of a source text.
#[verifier::opaque]
pub open spec fn lexemes(code: Seq<char>) -> Seq<Lexeme> {
    lexemes_from(code, 0)
}

/// The tokens of a source text, the end-of-input token last; `None` where
/// the text holds a character that starts no token.
pub open spec fn tokens(code: Seq<char>) -> Option<Seq<TokenView>> {
    let s = lexemes(code);
    if s.last().is_invalid() {
        None
    } else {
        Some(Seq::new(s.len(), |k: int| s[k].token.unwrap()))
    }
}

/// Skipping blanks moves forward, stays inside the text, and stops at a
/// character that is not blank.
pub proof fn lemma_skip_blanks(code: Seq<char>, from: int)
    requires
        0 <= from <= code.len(),
    ensures
        from <= skip_blanks(code, from) <= code.len(),
        skip_blanks(code, from) < code.len() ==> !is_space_char(code[skip_blanks(code, from)]),
        forall|i: int| from <= i < skip_blanks(code, from) ==> is_space_char(#[trigger] code[i]),
    decreases code.len() - from,
{
    if from < code.len() && is_space_char(code[from]) {
        lemma_skip_blanks(code, from + 1);
    }
}

/// A word ends inside the text, at or after its start.
pub proof fn lemma_word_end(code: Seq<char>, from: int)
    requires
        0 <= from <= code.len(),
    ensures
        from <= word_end(code, from) <= code.len(),
    decreases code.len() - from,
{
    if from < code.len() && (is_ident_char(code[from]) || is_digit_char(code[from])) {
        lemma_word_end(code, from + 1);
    }
}

/// A run of digits ends inside the text, at or after its start.
pub proof fn lemma_digits_end(code: Seq<char>, from: int)
    requires
        0 <= from <= code.len(),
    ensures
        from <= digits_end(code, from) <= code.len(),
    decreases code.len() - from,
{
    if from < code.len() && is_digit_char(code[from]) {
        lemma_digits_end(code, from + 1);
    }
}

/// A step of the lexer covers a span inside the text that starts at or
/// after the position it was taken from; a token other than the end of
/// the input covers at least one character.
pub proof fn lemma_scan_bounds(code: Seq<char>, from: int)
    requires
        0 <= from,
    ensures
        from <= code.len() ==> from <= scan(code, from).start <= scan(code, from).end
            <= code.len(),
        !scan(code, from).is_final() ==> from <= scan(code, from).start < scan(code, from).end
            <= code.len(),
{
    if from <= code.len() {
        lemma_skip_blanks(code, from);
        let at = skip_blanks(code, from);
        if at < code.len() {
            lemma_word_end(code, at + 1);
            lemma_digits_end(code, at + 1);
        }
    }
}

/// The shape of the token stream from position `from` on: it starts with
/// the lexeme found at `from`, each lexeme but the last is followed by
/// the one found where it ends, and only the last one is final.
pub proof fn lemma_lexemes_from(code: Seq<char>, from: int, k: int)
    requires
        0 <= from <= code.len(),
        0 <= k < lexemes_from(code, from).len(),
    ensures
        lexemes_from(code, from)[0] == scan(code, from),
        from <= lexemes_from(code, from)[k].start <= lexemes_from(code, from)[k].end
            <= code.len(),
        k + 1 < lexemes_from(code, from).len() <==> !lexemes_from(code, from)[k].is_final(),
        k + 1 < lexemes_from(code, from).len() ==> lexemes_from(code, from)[k + 1] == scan(
            code,
            lexemes_from(code, from)[k].end,
        ),
    decreases k,
{
    let first = scan(code, from);
    lemma_scan_bounds(code, from);
    if !first.is_final() {
        let rest = lexemes_from(code, first.end);
        assert(rest.len() >= 1 && rest[0] == scan(code, first.end)) by {
            lemma_scan_bounds(code, first.end);
        }
        assert(lexemes_from(code, from) == seq![first] + rest);
        if k > 0 {
            lemma_lexemes_from(code, first.end, k - 1);
        }
    }
}

/// A step taken from where a final lexeme ends finds the same lexeme
/// again.
pub proof fn lemma_rescan(code: Seq<char>, from: int)
    requires
        0 <= from <= code.len(),
        scan(code, from).is_final(),
    ensures
        scan(code, scan(code, from).end) == scan(code, from),
{
    lemma_skip_blanks(code, from);
    let at = skip_blanks(code, from);
    if at < code.len() {
        assert(skip_blanks(code, at) == at);
    } else {
        assert(skip_blanks(code, code.len() as int) == code.len());
    }
}

/// In the token that a step finds, class and payload agree.
pub proof fn lemma_scan_consistent(code: Seq<char>, from: int)
    requires
        0 <= from <= code.len(),
    ensures
        scan(code, from).token is Some ==> scan(code, from).token->0.consistent(),
{
    lemma_scan_bounds(code, from);
    lemma_skip_blanks(code, from);
    let at = skip_blanks(code, from);
    if at < code.len() {
        lemma_word_end(code, at + 1);
        lemma_digits_end(code, at + 1);
    }
}

/// In every token of a token stream, class and payload agree.
pub proof fn lemma_lexemes_consistent(code: Seq<char>, k: int)
    requires
        0 <= k < lexemes(code).len(),
    ensures
        lexemes(code)[k].token is Some ==> lexemes(code)[k].token->0.consistent(),
{
    reveal(lexemes);
    lemma_lexemes_from(code, 0, k);
    if k == 0 {
        lemma_scan_consistent(code, 0);
    } else {
        lemma_lexemes_from(code, 0, k - 1);
        lemma_scan_consistent(code, lexemes(code)[k - 1].end);
    }
}

/// The token stream of a text is not empty.
pub proof fn lemma_lexemes_nonempty(code: Seq<char>)
    ensures
        lexemes(code).len() >= 1,
        lexemes(code)[0] == scan(code, 0),
{
    reveal(lexemes);
    let first = scan(code, 0);
    if !first.is_final() {
        assert(lexemes_from(code, 0) == seq![first] + lexemes_from(code, first.end));
    }
}

/// The shape of the token stream: each lexeme lies inside the text, each
/// but the last is followed by the one found where it ends, and only the
/// last one is final.
pub proof fn lemma_lexemes(code: Seq<char>, k: int)
    requires
        0 <= k < lexemes(code).len(),
    ensures
        lexemes(code)[0] == scan(code, 0),
        0 <= lexemes(code)[k].start <= lexemes(code)[k].end <= code.len(),
        k + 1 < lexemes(code).len() <==> !lexemes(code)[k].is_final(),
        k + 1 < lexemes(code).len() ==> lexemes(code)[k + 1] == scan(code, lexemes(code)[k].end),
{
    reveal(lexemes);
    lemma_lexemes_from(code, 0, k);
}

/// What one step of the lexer found, as the lexer holds it.
#[derive(Debug)]
pub struct Scanned {
    pub start: usize,
    pub end: usize,
    pub token: Option<Token>,
}

impl View for Scanned {
    type V = Lexeme;

    open spec fn view(&self) -> Lexeme {
        Lexeme {
            start: self.start as int,
            end: self.end as int,
            token: match self.token {
                Some(t) => Some(t@),
                None => None,
            },
        }
    }
}

/// The length of the longest operator that `text` starts with, if it
/// starts with one.
pub fn include_reserved(text: &[char]) -> (r: Option<usize>)
    ensures
        match r {
            Some(n) => n > 0 && n == operator_len(text@, 0),
            None => operator_len(text@, 0) == 0,
        },
{
    if text.len() >= 2 && text[1] == '=' && (text[0] == '=' || text[0] == '!' || text[0] == '<'
        || text[0] == '>') {
        Some(2)
    } else if text.len() >= 1 && (text[0] == '+' || text[0] == '-' || text[0] == '*' || text[0]
        == '/' || text[0] == '(' || text[0] == ')' || text[0] == ';' || text[0] == '=' || text[0]
        == '<' || text[0] == '>') {
        Some(1)
    } else {
        None
    }
}

/// One step of the lexer on `code` from position `from`.
pub fn scan_token(code: &[char], from: usize) -> (r: Scanned)
    requires
        from <= code@.len(),
    ensures
        r@ == scan(code@, from as int),
{
    let l: usize = code.len();
    let mut i: usize = from;
    while i < l && is_space(code[i])
        invariant
            l == code@.len(),
            from <= i <= l,
            skip_blanks(code@, i as int) == skip_blanks(code@, from as int),
        decreases l - i,
    {
        i += 1;
    }
    if i >= l {
        return Scanned { start: l, end: l, token: Some(Token::new(TokenKind::Eof, DataUnion::Empty)) };
    }
    let c: char = code[i];
    if c == ';' {
        assert(code@.subrange(i as int, i + 1) =~= seq![';']);
        Scanned {
            start: i,
            end: i + 1,
            token: Some(Token::new(TokenKind::Reserved, DataUnion::char(';'))),
        }
    } else if is_ident(c) {
        let mut j: usize = i + 1;
        while j < l && (is_ident(code[j]) || is_digit(code[j]))
            invariant
                l == code@.len(),
                i < j <= l,
                word_end(code@, j as int) == word_end(code@, i + 1),
            decreases l - j,
        {
            j += 1;
        }
        let name = DataUnion::cstr(slice_subrange(code, i, j));
        Scanned { start: i, end: j, token: Some(Token::new(TokenKind::Ident, name)) }
    } else if is_mark(c) {
        let rest = slice_subrange(code, i, l);
        assert(operator_len(rest@, 0) == operator_len(code@, i as int));
        match include_reserved(rest) {
            Some(n) => {
                let text = DataUnion::cstr(slice_subrange(code, i, i + n));
                Scanned { start: i, end: i + n, token: Some(Token::new(TokenKind::Reserved, text)) }
            },
            None => Scanned { start: i, end: i, token: None },
        }
    } else if is_digit(c) {
        let mut n: i32 = to_digit(c);
        let mut j: usize = i + 1;
        proof {
            let one = code@.subrange(i as int, i + 1);
            assert(one.drop_last() =~= Seq::<char>::empty());
            assert(decimal(one.drop_last()) == 0);
            assert(decimal(one) == digit_value(c));
            lemma_wrap32_fits(n as int);
        }
        while j < l && is_digit(code[j])
            invariant
                l == code@.len(),
                i < j <= l,
                digits_end(code@, j as int) == digits_end(code@, i + 1),
                n == wrap32(decimal(code@.subrange(i as int, j as int)) as int),
            decreases l - j,
        {
            let d: i32 = to_digit(code[j]);
            proof {
                let before = code@.subrange(i as int, j as int);
                let after = code@.subrange(i as int, j + 1);
                assert(after.drop_last() =~= before);
                assert(after.last() == code@[j as int]);
                assert(decimal(after) == decimal(before) * 10 + d);
                lemma_wrap32_step(decimal(before) as int, 10, 0);
                lemma_wrap32_step((decimal(before) * 10) as int, 1, d as int);
            }
            n = wrapping_sum(wrapping_product(n, 10), d);
            j += 1;
        }
        Scanned { start: i, end: j, token: Some(Token::new(TokenKind::Number, DataUnion::Num(n))) }
    } else {
        Scanned { start: i, end: i, token: None }
    }
}

/// Where the token stream of `code` ends at a character that starts no
/// token, the position of that character.
pub fn first_invalid(code: &[char]) -> (r: Option<usize>)
    ensures
        match r {
            Some(at) => at < code@.len() && lexemes(code@).last().is_invalid() && lexemes(
                code@,
            ).last().start == at,
            None => lexemes(code@).last().is_eof(),
        },
{
    let ghost s = lexemes(code@);
    let ghost mut k: int = 0;
    let mut pos: usize = 0;
    proof {
        lemma_lexemes_nonempty(code@);
    }
    loop
        invariant
            s == lexemes(code@),
            0 <= k < s.len(),
            pos <= code@.len(),
            scan(code@, pos as int) == s[k],
        decreases s.len() - k,
    {
        proof {
            lemma_lexemes(code@, k);
        }
        let step = scan_token(code, pos);
        match step.token {
            None => {
                proof {
                    lemma_skip_blanks(code@, pos as int);
                }
                return Some(step.start);
            },
            Some(t) => {
                if t.is_kind(TokenKind::Eof) {
                    proof {
                        lemma_lexemes_consistent(code@, k);
                    }
                    return None;
                }
                pos = step.end;
                proof {
                    k = k + 1;
                }
            },
        }
    }
}

/// A word runs over letters, underscores and digits only, and ends where
/// the text ends or another character stands.
pub proof fn lemma_word_is_longest(code: Seq<char>, from: int)
    requires
        0 <= from <= code.len(),
    ensures
        forall|i: int|
            from <= i < word_end(code, from) ==> is_ident_char(#[trigger] code[i]) || is_digit_char(
                code[i],
            ),
        word_end(code, from) < code.len() ==> !is_ident_char(code[word_end(code, from)])
            && !is_digit_char(code[word_end(code, from)]),
    decreases code.len() - from,
{
    if from < code.len() && (is_ident_char(code[from]) || is_digit_char(code[from])) {
        lemma_word_is_longest(code, from + 1);
    }
}

/// A run of digits holds digits only, and ends where the text ends or
/// another character stands.
pub proof fn lemma_digits_are_longest(code: Seq<char>, from: int)
    requires
        0 <= from <= code.len(),
    ensures
        forall|i: int| from <= i < digits_end(code, from) ==> is_digit_char(#[trigger] code[i]),
        digits_end(code, from) < code.len() ==> !is_digit_char(code[digits_end(code, from)]),
    decreases code.len() - from,
{
    if from < code.len() && is_digit_char(code[from]) {
        lemma_digits_are_longest(code, from + 1);
    }
}

/// What a step of the lexer finds, said of the text: only blanks lie
/// between the position it was taken from and the lexeme; an identifier
/// is the longest run of letters, underscores and digits that starts
/// there with a letter or an underscore; a number is the longest run of
/// digits, and its value is the decimal value of the run, wrapped around;
/// an operator is the longest one that the text holds there; the end of
/// the input is found only where nothing but blanks is left; and nothing
/// is found only at a character that is neither blank nor the start of
/// any of these.
pub proof fn lemma_scan_shape(code: Seq<char>, from: int)
    requires
        0 <= from <= code.len(),
    ensures
        ({
            let found = scan(code, from);
            let text = code.subrange(found.start, found.end);
            &&& from <= found.start <= found.end <= code.len()
            &&& forall|i: int| from <= i < found.start ==> is_space_char(#[trigger] code[i])
            &&& match found.token {
                None => found.end == found.start < code.len() && !is_space_char(code[found.start])
                    && !is_ident_char(code[found.start]) && !is_digit_char(code[found.start])
                    && operator_len(code, found.start) == 0,
                Some(t) => match t.tk {
                    TokenKind::Eof => t == TokenView::eof() && found.start == code.len(),
                    TokenKind::Ident => t.data == Data::String(text) && is_ident_char(text[0])
                        && (forall|i: int|
                        0 <= i < text.len() ==> is_ident_char(#[trigger] text[i]) || is_digit_char(
                            text[i],
                        )) && (found.end < code.len() ==> !is_ident_char(code[found.end])
                        && !is_digit_char(code[found.end])),
                    TokenKind::Number => t.data == Data::Num(wrap32(decimal(text) as int))
                        && text.len() > 0 && (forall|i: int|
                        0 <= i < text.len() ==> is_digit_char(#[trigger] text[i])) && (found.end
                        < code.len() ==> !is_digit_char(code[found.end])),
                    TokenKind::Reserved => t.data == Data::String(text) && text.len()
                        == operator_len(code, found.start) && text.len() > 0,
                },
            }
        }),
{
    lemma_skip_blanks(code, from);
    let at = skip_blanks(code, from);
    if at < code.len() {
        lemma_word_end(code, at + 1);
        lemma_digits_end(code, at + 1);
        lemma_word_is_longest(code, at + 1);
        lemma_digits_are_longest(code, at + 1);
        let found = scan(code, from);
        let text = code.subrange(found.start, found.end);
        if is_ident_char(code[at]) {
            assert forall|i: int| 0 <= i < text.len() implies is_ident_char(#[trigger] text[i])
                || is_digit_char(text[i]) by {
                assert(text[i] == code[at + i]);
            }
        } else if operator_len(code, at) > 0 {
        } else if is_digit_char(code[at]) {
            assert forall|i: int| 0 <= i < text.len() implies is_digit_char(#[trigger] text[i]) by {
                assert(text[i] == code[at + i]);
            }
        }
    }
}

/// The longest operator wins: where the text holds one of `==`, `!=`,
/// `<=` and `>=` after the blanks that follow `from`, the step taken from
/// `from` finds that operator as one token of two characters.
pub proof fn lemma_longest_match(code: Seq<char>, from: int)
    requires
        0 <= from <= code.len(),
        skip_blanks(code, from) + 1 < code.len(),
        is_operator_pair(code[skip_blanks(code, from)], code[skip_blanks(code, from) + 1]),
    ensures
        scan(code, from) == (Lexeme {
            start: skip_blanks(code, from),
            end: skip_blanks(code, from) + 2,
            token: Some(
                TokenView::reserved(
                    seq![code[skip_blanks(code, from)], code[skip_blanks(code, from) + 1]],
                ),
            ),
        }),
{
    lemma_skip_blanks(code, from);
    let at = skip_blanks(code, from);
    assert(code.subrange(at, at + 2) =~= seq![code[at], code[at + 1]]);
}

/// The longest operator wins in every place of a token stream: a lexeme
/// that starts where the text holds one of `==`, `!=`, `<=` and `>=` is
/// that operator, as one token of two characters.
pub proof fn lemma_stream_longest_match(code: Seq<char>, k: int)
    requires
        0 <= k < lexemes(code).len(),
        lexemes(code)[k].start + 1 < code.len(),
        is_operator_pair(code[lexemes(code)[k].start], code[lexemes(code)[k].start + 1]),
    ensures
        lexemes(code)[k].end == lexemes(code)[k].start + 2,
        lexemes(code)[k].token == Some(
            TokenView::reserved(
                seq![code[lexemes(code)[k].start], code[lexemes(code)[k].start + 1]],
            ),
        ),
{
    lemma_lexemes(code, k);
    let from = if k == 0 {
        0
    } else {
        lexemes(code)[k - 1].end
    };
    if k > 0 {
        lemma_lexemes(code, k - 1);
    }
    assert(lexemes(code)[k] == scan(code, from));
    lemma_skip_blanks(code, from);
    let at = skip_blanks(code, from);
    if at < code.len() {
        lemma_word_end(code, at + 1);
        lemma_digits_end(code, at + 1);
    }
    assert(lexemes(code)[k].start == at);
    lemma_longest_match(code, from);
}

/// The tokens of a text end with the end-of-input token, which occurs
/// nowhere else among them.
pub proof fn lemma_one_eof(code: Seq<char>)
    requires
        tokens(code) is Some,
    ensures
        tokens(code).unwrap().len() >= 1,
        tokens(code).unwrap().last() == TokenView::eof(),
        forall|k: int|
            0 <= k < tokens(code).unwrap().len() - 1 ==> (#[trigger] tokens(code).unwrap()[k]).tk
                != TokenKind::Eof,
{
    let s = lexemes(code);
    lemma_lexemes_nonempty(code);
    lemma_lexemes(code, s.len() - 1);
    assert forall|k: int| 0 <= k < s.len() - 1 implies (#[trigger] tokens(code).unwrap()[k]).tk
        != TokenKind::Eof by {
        lemma_lexemes(code, k);
        lemma_lexemes_consistent(code, k);
    }
}

} // verus!

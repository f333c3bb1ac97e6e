use exprlang::datatype::DataUnion;
use exprlang::error::ErrorKind;
use exprlang::tokenize::generator::error_at;
use exprlang::tokenize::scan::{first_invalid, include_reserved, scan_token};
use exprlang::tokenize::{Token, TokenGen, TokenKind, TokenList};

fn chars(s: &str) -> Vec<char> {
    s.chars().collect()
}

fn reserved(s: &str) -> (TokenKind, DataUnion) {
    (TokenKind::Reserved, DataUnion::str(s))
}

fn ident(s: &str) -> (TokenKind, DataUnion) {
    (TokenKind::Ident, DataUnion::str(s))
}

fn number(n: i32) -> (TokenKind, DataUnion) {
    (TokenKind::Number, DataUnion::Num(n))
}

fn eof() -> (TokenKind, DataUnion) {
    (TokenKind::Eof, DataUnion::Empty)
}

/// All tokens of `source`, read one by one from the lazy lexer.
fn lazily(source: &str) -> Result<Vec<(TokenKind, DataUnion)>, ErrorKind> {
    let mut gen = match TokenGen::new(chars(source)) {
        Ok(g) => g,
        Err(e) => return Err(e.kind()),
    };
    let mut out = Vec::new();
    loop {
        let t: &Token = gen.current();
        out.push((t.tk, t.data.clone()));
        if t.tk == TokenKind::Eof {
            return Ok(out);
        }
        if let Err(e) = gen.next() {
            return Err(e.kind());
        }
    }
}

/// All tokens of `source`, read from the eager lexer.
fn eagerly(source: &str) -> Result<Vec<(TokenKind, DataUnion)>, ErrorKind> {
    let mut list = match TokenList::gen_tokens(chars(source)) {
        Ok(l) => l,
        Err(e) => return Err(e.kind()),
    };
    let mut out = Vec::new();
    loop {
        let kind = list.current();
        let data = list.current_data();
        out.push((kind, data.clone()));
        if kind == TokenKind::Eof {
            return Ok(out);
        }
        assert!(list.consume(data));
    }
}

fn both(source: &str) -> Result<Vec<(TokenKind, DataUnion)>, ErrorKind> {
    let lazy = lazily(source);
    let eager = eagerly(source);
    assert_eq!(lazy, eager, "{:?}", source);
    lazy
}

#[test]
fn empty_input_is_one_end_of_input() {
    assert_eq!(both(""), Ok(vec![eof()]));
    assert_eq!(both("  \n\t "), Ok(vec![eof()]));
}

#[test]
fn exactly_one_end_of_input_and_it_is_last() {
    for source in ["", "a", "a = 3; b = a + 2 * 5; c = b - a;", "1 2 3", "((", "x==y!=z"] {
        let tokens = both(source).unwrap();
        let count = tokens.iter().filter(|t| t.0 == TokenKind::Eof).count();
        assert_eq!(count, 1, "{:?}", source);
        assert_eq!(tokens.last().unwrap(), &eof());
    }
}

#[test]
fn end_of_input_repeats_when_asked_again() {
    let mut gen = TokenGen::new(chars("a")).unwrap();
    assert!(gen.next().is_ok());
    assert!(gen.current().is_kind(TokenKind::Eof));
    assert!(gen.next().is_ok());
    assert!(gen.current().is_kind(TokenKind::Eof));
    assert_eq!(gen.consume(DataUnion::Empty).unwrap(), true);
    assert!(gen.current().is_kind(TokenKind::Eof));
}

#[test]
fn statement_tokens() {
    assert_eq!(
        both("a = 3;"),
        Ok(vec![ident("a"), reserved("="), number(3), reserved(";"), eof()])
    );
    assert_eq!(
        both("b=a+2*5 ;"),
        Ok(vec![
            ident("b"),
            reserved("="),
            ident("a"),
            reserved("+"),
            number(2),
            reserved("*"),
            number(5),
            reserved(";"),
            eof()
        ])
    );
}

#[test]
fn longest_match_for_two_character_operators() {
    assert_eq!(both("a==b"), Ok(vec![ident("a"), reserved("=="), ident("b"), eof()]));
    assert_eq!(both("a!=b"), Ok(vec![ident("a"), reserved("!="), ident("b"), eof()]));
    assert_eq!(both("a<=b"), Ok(vec![ident("a"), reserved("<="), ident("b"), eof()]));
    assert_eq!(both("a>=b"), Ok(vec![ident("a"), reserved(">="), ident("b"), eof()]));
    assert_eq!(both("==="), Ok(vec![reserved("=="), reserved("="), eof()]));
    assert_eq!(both("<=="), Ok(vec![reserved("<="), reserved("="), eof()]));
    assert_eq!(both("!=="), Ok(vec![reserved("!="), reserved("="), eof()]));
    assert_eq!(both("= ="), Ok(vec![reserved("="), reserved("="), eof()]));
    assert_eq!(both("<>"), Ok(vec![reserved("<"), reserved(">"), eof()]));
}

#[test]
fn single_character_operator_where_no_pair_matches() {
    assert_eq!(both("a=-1"), Ok(vec![ident("a"), reserved("="), reserved("-"), number(1), eof()]));
    assert_eq!(
        both("-(2+3)"),
        Ok(vec![
            reserved("-"),
            reserved("("),
            number(2),
            reserved("+"),
            number(3),
            reserved(")"),
            eof()
        ])
    );
    assert_eq!(both("=;"), Ok(vec![reserved("="), reserved(";"), eof()]));
    assert_eq!(both("*/"), Ok(vec![reserved("*"), reserved("/"), eof()]));
}

#[test]
fn identifiers_and_numbers() {
    assert_eq!(both("_a1b2 c_d"), Ok(vec![ident("_a1b2"), ident("c_d"), eof()]));
    assert_eq!(both("12ab"), Ok(vec![number(12), ident("ab"), eof()]));
    assert_eq!(both("007"), Ok(vec![number(7), eof()]));
    assert_eq!(both("0"), Ok(vec![number(0), eof()]));
    assert_eq!(both("2147483647"), Ok(vec![number(i32::MAX), eof()]));
}

#[test]
fn number_literals_wrap_around() {
    assert_eq!(both("2147483648"), Ok(vec![number(i32::MIN), eof()]));
    assert_eq!(both("4294967296"), Ok(vec![number(0), eof()]));
    assert_eq!(both("4294967299"), Ok(vec![number(3), eof()]));
    assert_eq!(both("99999999999999999999"), Ok(vec![number(1661992959), eof()]));
}

#[test]
fn characters_that_start_no_token() {
    assert_eq!(both("a @ 3;"), Err(ErrorKind::InvalidChar));
    assert_eq!(both("!"), Err(ErrorKind::InvalidChar));
    assert_eq!(both("a ! b"), Err(ErrorKind::InvalidChar));
    assert_eq!(both("{"), Err(ErrorKind::InvalidChar));
    assert_eq!(both("a.b"), Err(ErrorKind::InvalidChar));
    assert_eq!(both("é"), Err(ErrorKind::InvalidChar));
    assert_eq!(both("1 \u{0} 2"), Err(ErrorKind::InvalidChar));
    assert_eq!(both("  #"), Err(ErrorKind::InvalidChar));
}

#[test]
fn lazy_lexer_fails_only_when_it_reaches_the_character() {
    let mut gen = TokenGen::new(chars("a = @")).unwrap();
    assert_eq!(gen.consume(DataUnion::str("a")).unwrap(), true);
    let failed = gen.consume(DataUnion::char('=')).unwrap_err();
    assert_eq!(failed.kind(), ErrorKind::InvalidChar);
    // The lexer still holds the token before the character, and fails again.
    assert_eq!(gen.current().data, DataUnion::char('='));
    assert_eq!(gen.next().unwrap_err().kind(), ErrorKind::InvalidChar);
    let report: String = gen.error_at("bad", None).into_iter().collect();
    assert_eq!(report, "a =  >>><<< @\nbad");
}

#[test]
fn scan_token_reports_spans() {
    let code = chars("  ab1 >= 42;");
    let s = scan_token(&code, 0);
    assert_eq!((s.start, s.end), (2, 5));
    assert_eq!(s.token.unwrap().data, DataUnion::str("ab1"));
    let s = scan_token(&code, 5);
    assert_eq!((s.start, s.end), (6, 8));
    assert_eq!(s.token.unwrap().data, DataUnion::str(">="));
    let s = scan_token(&code, 8);
    assert_eq!((s.start, s.end), (9, 11));
    assert_eq!(s.token.unwrap().data, DataUnion::Num(42));
    let s = scan_token(&code, 11);
    assert_eq!((s.start, s.end), (11, 12));
    let s = scan_token(&code, 12);
    assert_eq!((s.start, s.end), (12, 12));
    assert_eq!(s.token.unwrap().tk, TokenKind::Eof);
    let bad = chars("a  ?");
    let s = scan_token(&bad, 1);
    assert_eq!((s.start, s.end), (3, 3));
    assert!(s.token.is_none());
}

#[test]
fn first_invalid_character() {
    assert_eq!(first_invalid(&chars("a @ 3;")), Some(2));
    assert_eq!(first_invalid(&chars("a = 3;")), None);
    assert_eq!(first_invalid(&chars("")), None);
    assert_eq!(first_invalid(&chars("  !")), Some(2));
    assert_eq!(first_invalid(&chars("a != b ! c ?")), Some(7));
    let code = chars("a @ 3;");
    let report: String = error_at(&code, 2, 2, "bad", None).into_iter().collect();
    assert_eq!(report, "a  >>><<< @ 3;\nbad");
    let report: String = error_at(&code, 0, 6, "", Some((5, 5))).into_iter().collect();
    assert_eq!(report, " >>>a @ 3;<<< \n");
}

#[test]
fn include_reserved_lengths() {
    assert_eq!(include_reserved(&chars("==x")), Some(2));
    assert_eq!(include_reserved(&chars("!=")), Some(2));
    assert_eq!(include_reserved(&chars("<=")), Some(2));
    assert_eq!(include_reserved(&chars(">=")), Some(2));
    assert_eq!(include_reserved(&chars("=")), Some(1));
    assert_eq!(include_reserved(&chars("=+")), Some(1));
    assert_eq!(include_reserved(&chars(";")), Some(1));
    assert_eq!(include_reserved(&chars("+-")), Some(1));
    assert_eq!(include_reserved(&chars("()")), Some(1));
    assert_eq!(include_reserved(&chars("!")), None);
    assert_eq!(include_reserved(&chars("!x")), None);
    assert_eq!(include_reserved(&chars("a")), None);
    assert_eq!(include_reserved(&chars("")), None);
}

#[test]
fn generator_operations() {
    let mut gen = TokenGen::new(chars("x 7 ;")).unwrap();
    assert!(gen.consume_kind(TokenKind::Ident));
    assert!(!gen.consume_kind(TokenKind::Number));
    assert_eq!(gen.get_number().unwrap_err().kind(), ErrorKind::SyntaxError);
    assert_eq!(gen.consume(DataUnion::str("y")).unwrap(), false);
    assert_eq!(gen.expect(DataUnion::str("y")).unwrap_err().kind(), ErrorKind::SyntaxError);
    assert_eq!(gen.expect_kind(TokenKind::Number).unwrap_err().kind(), ErrorKind::SyntaxError);
    assert_eq!(gen.get_ident().unwrap(), vec!['x']);
    assert_eq!(gen.get_ident().unwrap_err().kind(), ErrorKind::SyntaxError);
    assert_eq!(gen.get_number().unwrap(), 7);
    assert!(gen.expect(DataUnion::char(';')).is_ok());
    assert!(gen.expect_kind(TokenKind::Eof).is_ok());
    assert!(gen.current().is_kind(TokenKind::Eof));
}

#[test]
fn failure_report_shows_the_current_token() {
    let mut gen = TokenGen::new(chars("abc = 12 + 3;")).unwrap();
    gen.next().unwrap();
    gen.next().unwrap();
    let report: String = gen.error_at("syntax error.", None).into_iter().collect();
    assert_eq!(report, "abc =  >>>12<<<  + 3;\nsyntax error.");
    let report: String = gen.error_at("m", Some((2, 3))).into_iter().collect();
    assert_eq!(report, "=  >>>12<<<  + \nm");
    let report: String = gen.error_at("", Some((0, 0))).into_iter().collect();
    assert_eq!(report, " >>>12<<< \n");
    let report: String = gen.error_at("m", Some((usize::MAX, usize::MAX))).into_iter().collect();
    assert_eq!(report, "abc =  >>>12<<<  + 3;\nm");
}

#[test]
fn failure_report_window_is_thirty_characters() {
    let source = "a0123456789012345678901234567890123456789 = b0123456789012345678901234567890123456789;";
    let mut gen = TokenGen::new(chars(source)).unwrap();
    gen.next().unwrap();
    let report: String = gen.error_at("m", None).into_iter().collect();
    assert_eq!(
        report,
        "12345678901234567890123456789  >>>=<<<  b0123456789012345678901234567\nm"
    );
}

#[test]
fn token_list_operations() {
    let mut list = TokenList::gen_tokens(chars("x 7 ;")).unwrap();
    assert_eq!(list.get_index(), 0);
    assert_eq!(list.error_at(), 1);
    assert!(list.consume_kind(TokenKind::Ident));
    assert_eq!(list.get_index(), 0);
    assert!(list.expect_kind(TokenKind::Ident).is_ok());
    assert_eq!(list.expect_kind(TokenKind::Eof).unwrap_err().kind(), ErrorKind::SyntaxError);
    assert_eq!(list.get_index(), 0);
    assert_eq!(list.next_number().unwrap_err().kind(), ErrorKind::SyntaxError);
    assert!(!list.consume(DataUnion::str("y")));
    assert_eq!(list.expect(DataUnion::str("y")).unwrap_err().kind(), ErrorKind::SyntaxError);
    assert_eq!(list.next_ident().unwrap(), vec!['x']);
    assert_eq!(list.get_index(), 1);
    assert_eq!(list.next_ident().unwrap_err().kind(), ErrorKind::SyntaxError);
    assert_eq!(list.current(), TokenKind::Number);
    assert_eq!(list.current_data(), DataUnion::Num(7));
    assert_eq!(list.next_number().unwrap(), 7);
    assert!(list.expect(DataUnion::char(';')).is_ok());
    assert_eq!(list.current(), TokenKind::Eof);
    assert_eq!(list.get_index(), 3);
    assert_eq!(list.error_at(), 4);
}

#[test]
fn calculate_chains() {
    let calc = |s: &str| {
        let mut list = TokenList::gen_tokens(chars(s)).unwrap();
        let r = list.calculate();
        (r.map_err(|e| e.kind()), list.get_index())
    };
    assert_eq!(calc("5"), (Ok(5), 1));
    assert_eq!(calc("1 + 2 - 4"), (Ok(-1), 5));
    assert_eq!(calc("2147483647 + 1"), (Ok(i32::MIN), 3));
    assert_eq!(calc("0 - 2147483647 - 2"), (Ok(i32::MAX), 5));
    assert_eq!(calc(""), (Err(ErrorKind::SyntaxError), 0));
    assert_eq!(calc("+ 1"), (Err(ErrorKind::SyntaxError), 0));
    assert_eq!(calc("1 +"), (Err(ErrorKind::SyntaxError), 2));
    assert_eq!(calc("1 * 2"), (Err(ErrorKind::SyntaxError), 1));
    assert_eq!(calc("1 2"), (Err(ErrorKind::SyntaxError), 1));
    assert_eq!(calc("1 + a"), (Err(ErrorKind::SyntaxError), 2));
}

#[test]
fn token_constructors() {
    let t = Token::new(TokenKind::Ident, DataUnion::str("ab"));
    assert_eq!(t.tk, TokenKind::Ident);
    assert!(t.is_kind(TokenKind::Ident));
    assert!(!t.is_kind(TokenKind::Reserved));
    assert!(t.eq_data(DataUnion::cstr(&['a', 'b'])));
    assert!(!t.eq_data(DataUnion::cstr(&['a'])));
    assert!(!t.eq_data(DataUnion::Num(0)));
    assert_eq!(*t.get_data(), DataUnion::String(vec!['a', 'b']));
    let t = Token::with_str(TokenKind::Reserved, "==");
    assert_eq!(t.data, DataUnion::String(vec!['=', '=']));
    let c = t.clone();
    assert_eq!(c.tk, TokenKind::Reserved);
    assert_eq!(c.data, t.data);
}

#[test]
fn payload_constructors_and_equality() {
    assert_eq!(DataUnion::number(5), DataUnion::Num(5));
    assert_eq!(DataUnion::char('x'), DataUnion::String(vec!['x']));
    assert_eq!(DataUnion::str("xy"), DataUnion::String(vec!['x', 'y']));
    assert_eq!(DataUnion::cstr(&['x', 'y']), DataUnion::String(vec!['x', 'y']));
    assert_ne!(DataUnion::str(""), DataUnion::Empty);
    assert_ne!(DataUnion::Num(0), DataUnion::Empty);
    assert_ne!(DataUnion::Num(1), DataUnion::Num(2));
    assert_ne!(DataUnion::str("1"), DataUnion::Num(1));
    assert_eq!(DataUnion::Empty, DataUnion::Empty);
    assert_eq!(DataUnion::str("ab").clone(), DataUnion::str("ab"));
}

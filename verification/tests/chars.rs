use exprlang::chars::{
    append_text, copy_text, is_digit, is_ident, is_mark, is_space, same_text, text_of, to_digit,
};

fn every_char() -> Vec<char> {
    let mut all = Vec::new();
    let mut n: u32 = 0;
    while n <= 0x10ffff {
        if let Some(c) = char::from_u32(n) {
            all.push(c);
        }
        n += 1;
    }
    all
}

#[test]
fn blank_is_what_std_calls_whitespace() {
    for c in every_char() {
        assert_eq!(is_space(c), c.is_whitespace(), "{:?}", c);
    }
}

#[test]
fn identifier_start_is_ascii_letter_or_underscore() {
    for c in every_char() {
        assert_eq!(is_ident(c), c.is_ascii_alphabetic() || c == '_', "{:?}", c);
    }
}

#[test]
fn digit_is_ascii_digit_with_its_value() {
    for c in every_char() {
        assert_eq!(is_digit(c), c.is_ascii_digit(), "{:?}", c);
        if is_digit(c) {
            assert_eq!(to_digit(c), c.to_digit(10).unwrap() as i32);
        }
    }
    assert_eq!(to_digit('0'), 0);
    assert_eq!(to_digit('7'), 7);
    assert_eq!(to_digit('9'), 9);
}

#[test]
fn mark_set_is_the_thirty_symbols() {
    let marks = "=~|-^\\!\"#$%&'(){}[]`@*:/+<>,.?";
    let mut count = 0;
    for c in every_char() {
        assert_eq!(is_mark(c), marks.contains(c), "{:?}", c);
        if is_mark(c) {
            count += 1;
        }
    }
    assert_eq!(count, 30);
    assert!(!is_mark(';'));
    assert!(!is_mark('_'));
}

#[test]
fn character_classes_on_named_cases() {
    assert!(is_space(' '));
    assert!(is_space('\n'));
    assert!(is_space('\t'));
    assert!(is_space('\u{a0}'));
    assert!(is_space('\u{3000}'));
    assert!(!is_space('\u{200b}'));
    assert!(!is_space('a'));
    assert!(is_ident('a'));
    assert!(is_ident('Z'));
    assert!(is_ident('_'));
    assert!(!is_ident('0'));
    assert!(!is_ident('é'));
    assert!(!is_digit('٣'));
}

#[test]
fn text_helpers() {
    assert_eq!(text_of("a=1"), vec!['a', '=', '1']);
    assert_eq!(text_of(""), Vec::<char>::new());
    assert_eq!(text_of("構文"), vec!['構', '文']);
    assert_eq!(copy_text(&['x', 'y']), vec!['x', 'y']);
    assert!(same_text(&['x', 'y'], &['x', 'y']));
    assert!(!same_text(&['x', 'y'], &['x', 'z']));
    assert!(!same_text(&['x', 'y'], &['x']));
    assert!(same_text(&[], &[]));
    let mut dst = vec!['a'];
    append_text(&mut dst, &['b', 'c', 'd', 'e'], 1, 3);
    assert_eq!(dst, vec!['a', 'c', 'd']);
    append_text(&mut dst, &['b', 'c'], 2, 2);
    assert_eq!(dst, vec!['a', 'c', 'd']);
}

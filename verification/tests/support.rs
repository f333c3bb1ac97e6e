use exprlang::arith::{wrapping_difference, wrapping_product, wrapping_quotient, wrapping_sum};
use exprlang::array::Array;
use exprlang::error::{failure, Error, ErrorKind};

#[test]
fn error_kinds_and_messages() {
    assert_eq!(ErrorKind::InvalidChar.msg(), "使えない文字が含まれています。");
    assert_eq!(ErrorKind::CannotReadFile.msg(), "ファイルを開けませんでした。");
    assert_eq!(ErrorKind::SyntaxError.msg(), "構文エラー");
    assert_eq!(ErrorKind::InvalidData.msg(), "終端トークンがデータを保持しています。");
    assert_eq!(ErrorKind::UnexpectedError.msg(), "予期せぬエラー");
    assert_eq!(ErrorKind::TypeError.msg(), "型エラー");
    assert_eq!(ErrorKind::DivisionByZero.msg(), "ゼロ除算");
}

#[test]
fn error_values() {
    let e = Error::new(ErrorKind::CannotReadFile, "no such file");
    assert_eq!(e.kind(), ErrorKind::CannotReadFile);
    assert_eq!(e.message(), "ファイルを開けませんでした。");
    assert_eq!(e.detail(), Some("no such file"));
    let e = Error::from(ErrorKind::TypeError);
    assert_eq!(e.kind(), ErrorKind::TypeError);
    assert_eq!(e.message(), "型エラー");
    assert_eq!(e.detail(), None);
    let r: Result<i32, Error> = failure(ErrorKind::SyntaxError);
    assert_eq!(r.unwrap_err().kind(), ErrorKind::SyntaxError);
}

#[test]
fn wrapping_arithmetic() {
    assert_eq!(wrapping_sum(1, 2), 3);
    assert_eq!(wrapping_sum(i32::MAX, 1), i32::MIN);
    assert_eq!(wrapping_sum(i32::MIN, -1), i32::MAX);
    assert_eq!(wrapping_difference(1, 2), -1);
    assert_eq!(wrapping_difference(i32::MIN, 1), i32::MAX);
    assert_eq!(wrapping_difference(i32::MAX, -1), i32::MIN);
    assert_eq!(wrapping_product(6, 7), 42);
    assert_eq!(wrapping_product(i32::MAX, 2), -2);
    assert_eq!(wrapping_product(i32::MIN, -1), i32::MIN);
    assert_eq!(wrapping_quotient(7, 2), Some(3));
    assert_eq!(wrapping_quotient(-7, 2), Some(-3));
    assert_eq!(wrapping_quotient(7, -2), Some(-3));
    assert_eq!(wrapping_quotient(-7, -2), Some(3));
    assert_eq!(wrapping_quotient(7, 0), None);
    assert_eq!(wrapping_quotient(i32::MIN, -1), Some(i32::MIN));
    assert_eq!(wrapping_quotient(i32::MIN, 1), Some(i32::MIN));
}

#[test]
fn arrays() {
    let a: Array<i32> = Array::new(3);
    assert_eq!(a.len(), 3);
    assert_eq!(a.iter().copied().collect::<Vec<i32>>(), vec![0, 0, 0]);
    let e: Array<i32> = Array::new_empty();
    assert_eq!(e.len(), 0);
    assert_eq!(e.iter().count(), 0);
    let mut b = Array::from_box(Box::new([10, 20, 30]));
    assert_eq!(b.len(), 3);
    assert_eq!(*b.get(1), 20);
    b.set(1, 25);
    assert_eq!(*b.get(1), 25);
    assert_eq!(b.iter().copied().collect::<Vec<i32>>(), vec![10, 25, 30]);
    for i in 0..b.len() {
        let next = *b.get(i) + 1;
        b.set(i, next);
    }
    assert_eq!(b.iter().copied().collect::<Vec<i32>>(), vec![11, 26, 31]);
    assert_eq!(b.len(), 3);
    let s: Array<String> = Array::new(2);
    assert_eq!(*s.get(0), String::new());
}

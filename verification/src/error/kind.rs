//! The kinds of failure.

use vstd::prelude::*;

verus! {

/// What went wrong.
#[derive(Debug, Clone, Copy, PartialEq, Eq, Structural)]
pub enum ErrorKind {
    /// The source holds a character that starts no token.
    InvalidChar,
    /// The source text could not be read.
    CannotReadFile,
    /// A token does not fit the grammar where it stands.
    SyntaxError,
    /// A token or a tree node carries a payload that its kind does not allow.
    InvalidData,
    /// A tree node lacks the operands or the payload that its kind requires.
    UnexpectedError,
    /// A storage address was required and a plain value was found.
    TypeError,
    /// The divisor of a division is zero.
    DivisionByZero,
}

impl ErrorKind {
    /// The message text of each kind.
    pub open spec fn msg_text(self) -> Seq<char> {
        match self {
            ErrorKind::InvalidChar => "使えない文字が含まれています。"@,
            ErrorKind::CannotReadFile => "ファイルを開けませんでした。"@,
            ErrorKind::SyntaxError => "構文エラー"@,
            ErrorKind::InvalidData => "終端トークンがデータを保持しています。"@,
            ErrorKind::UnexpectedError => "予期せぬエラー"@,
            ErrorKind::TypeError => "型エラー"@,
            ErrorKind::DivisionByZero => "ゼロ除算"@,
        }
    }

    /// The message shown to the user for this kind of failure.
    pub fn msg(self) -> (s: &'static str)
        ensures
            s@ == self.msg_text(),
    {
        match self {
            ErrorKind::InvalidChar => "使えない文字が含まれています。",
            ErrorKind::CannotReadFile => "ファイルを開けませんでした。",
            ErrorKind::SyntaxError => "構文エラー",
            ErrorKind::InvalidData => "終端トークンがデータを保持しています。",
            ErrorKind::UnexpectedError => "予期せぬエラー",
            ErrorKind::TypeError => "型エラー",
            ErrorKind::DivisionByZero => "ゼロ除算",
        }
    }
}

} // verus!

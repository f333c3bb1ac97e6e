//! The error value that every stage returns.

use vstd::prelude::*;
use vstd::std_specs::convert::FromSpecImpl;

pub mod kind;

pub use kind::ErrorKind;

verus! {

#[derive(Debug)]
enum Repr {
    Simple(ErrorKind),
    Custom(ErrorKind, String),
}

/// A failure: its kind and, where one was given, a description.
#[derive(Debug)]
pub struct Error {
    _error: Repr,
}

/// The mathematical value of an [`Error`].
pub struct ErrorView {
    pub kind: ErrorKind,
    pub detail: Option<Seq<char>>,
}

impl View for Error {
    type V = ErrorView;

    closed spec fn view(&self) -> ErrorView {
        match self._error {
            Repr::Simple(k) => ErrorView { kind: k, detail: None },
            Repr::Custom(k, s) => ErrorView { kind: k, detail: Some(s@) },
        }
    }
}

/// Whether `r` is the failure of kind `kind` that carries no description.
pub open spec fn is_failure<T>(r: Result<T, Error>, kind: ErrorKind) -> bool {
    r is Err && r->Err_0@ == (ErrorView { kind, detail: None })
}

/// Whether `r` is what `want` asks for: the same value, or the failure of
/// the same kind without a description.
pub open spec fn answers<T>(r: Result<T, Error>, want: Result<T, ErrorKind>) -> bool {
    match want {
        Ok(v) => r is Ok && r->Ok_0 == v,
        Err(k) => is_failure(r, k),
    }
}

/// The failure of kind `kind` that carries no description.
pub fn failure<T>(kind: ErrorKind) -> (r: Result<T, Error>)
    ensures
        is_failure(r, kind),
{
    Err(Error { _error: Repr::Simple(kind) })
}

impl Error {
    /// The failure of the given kind that carries no description.
    pub closed spec fn simple(kind: ErrorKind) -> Error {
        Error { _error: Repr::Simple(kind) }
    }

    /// A failure without a description is its kind and nothing else.
    pub broadcast proof fn lemma_simple_view(kind: ErrorKind)
        ensures
            #[trigger] Error::simple(kind)@ == (ErrorView { kind, detail: None }),
    {
    }

    /// A failure of the given kind with a description.
    pub fn new(kind: ErrorKind, error: &str) -> (e: Self)
        ensures
            e@ == (ErrorView { kind, detail: Some(error@) }),
    {
        Error { _error: Repr::Custom(kind, error.to_owned()) }
    }

    /// The kind of this failure.
    pub fn kind(&self) -> (k: ErrorKind)
        ensures
            k == self@.kind,
    {
        match &self._error {
            Repr::Simple(k) => *k,
            Repr::Custom(k, _) => *k,
        }
    }

    /// The description that this failure carries, if any.
    pub fn detail(&self) -> (d: Option<&str>)
        ensures
            match self@.detail {
                Some(text) => d is Some && d->0@ == text,
                None => d is None,
            },
    {
        match &self._error {
            Repr::Simple(_) => None,
            Repr::Custom(_, s) => Some(s.as_str()),
        }
    }

    /// The message of this failure's kind.
    pub fn message(&self) -> (s: &'static str)
        ensures
            s@ == self@.kind.msg_text(),
    {
        self.kind().msg()
    }
}

impl From<ErrorKind> for Error {
    fn from(kind: ErrorKind) -> (e: Error) {
        Error { _error: Repr::Simple(kind) }
    }
}

impl FromSpecImpl<ErrorKind> for Error {
    open spec fn obeys_from_spec() -> bool {
        true
    }

    open spec fn from_spec(kind: ErrorKind) -> Error {
        Error::simple(kind)
    }
}

} // verus!

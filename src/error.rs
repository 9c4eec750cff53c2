//! Errors reported by the row specification parser.

use vstd::prelude::*;

verus! {

/// What went wrong while parsing a row specification.
#[derive(Debug, Clone, PartialEq, Eq)]
pub enum Error {
    /// The input ended inside a placeholder; holds what followed the `{`.
    UnclosedColumnSpec(String),
    /// A character stood where the grammar allows none of its kind.
    UnexpectedCharacter(char),
    /// The two characters after `{` were `:` and something other than `<` or `>`.
    BadColumnSpec(String),
    /// A `}` that was not part of a `}}` escape.
    UnexpectedRightBrace,
}

/// The mathematical value of an [`Error`]: strings seen as character sequences.
pub enum ErrorView {
    UnclosedColumnSpec(Seq<char>),
    UnexpectedCharacter(char),
    BadColumnSpec(Seq<char>),
    UnexpectedRightBrace,
}

impl View for Error {
    type V = ErrorView;

    open spec fn view(&self) -> ErrorView {
        match self {
            Error::UnclosedColumnSpec(s) => ErrorView::UnclosedColumnSpec(s@),
            Error::UnexpectedCharacter(c) => ErrorView::UnexpectedCharacter(*c),
            Error::BadColumnSpec(s) => ErrorView::BadColumnSpec(s@),
            Error::UnexpectedRightBrace => ErrorView::UnexpectedRightBrace,
        }
    }
}

/// The result type of the parser.
pub type Result<T> = std::result::Result<T, Error>;

} // verus!

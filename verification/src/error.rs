//! What can be wrong with the text of a machine.

use vstd::prelude::*;

verus! {

/// The ways in which a text fails to be a machine.
#[derive(Debug, Clone, Copy, PartialEq, Eq, Structural)]
pub enum ParseErrorKind {
    /// The word `EMPTY:` was expected.
    ExpectedEmpty,
    /// The word `INITIAL_STATE:` was expected.
    ExpectedInitialState,
    /// A state's name was expected: a letter or `_`, then letters, digits
    /// and `_`.
    ExpectedIdentifier,
    /// `(` was expected.
    ExpectedOpen,
    /// `)` was expected.
    ExpectedClose,
    /// `,` was expected.
    ExpectedComma,
    /// `:` was expected.
    ExpectedColon,
    /// `R` or `L` was expected.
    UnknownDirection,
    /// A quoted symbol has no closing quote.
    UnterminatedString,
    /// A backslash in a quoted symbol stands before something other than a
    /// quote or a backslash.
    InvalidEscape,
    /// After the last rule there is text that is no rule.
    TrailingInput,
}

/// A failure to read a machine: what is wrong, and where.
#[derive(Debug, Clone, Copy, PartialEq, Eq, Structural)]
pub struct ParseError {
    /// What is wrong.
    pub kind: ParseErrorKind,
    /// Where: the number of characters of the text before the place.
    pub position: usize,
}

/// The failure of kind `kind` at the place `at`.
pub open spec fn failure(kind: ParseErrorKind, at: int) -> ParseError {
    ParseError { kind, position: at as usize }
}

} // verus!

//! Parse errors: recoverable errors and failures of a started construct.

use vstd::prelude::*;

verus! {

/// Which primitive of the grammar did not match.
#[derive(Clone, Copy, Debug, PartialEq, Eq, Structural)]
pub enum ErrorKind {
    /// An expected literal was not there.
    Tag,
    /// A run of at least one byte was expected.
    TakeTill1,
    /// None of the alternatives matched.
    Alt,
    /// A byte that must not appear was found.
    Not,
}

/// Where parsing went wrong (the byte offset of the remaining input), how,
/// and an optional message that explains it.
#[derive(Debug, PartialEq)]
pub struct ParsingErrorInformation {
    pub input: usize,
    pub kind: ErrorKind,
    pub context: Option<String>,
}

/// A parse error. `ParsingError` means that an alternative did not match and
/// another may be tried; `ParsingFailure` means that a construct had started
/// and could not be finished, so no other alternative is tried.
#[derive(Debug, PartialEq)]
pub enum TwigParseError {
    ParsingError(ParsingErrorInformation),
    ParsingFailure(ParsingErrorInformation),
    MissingClosing,
}

impl ParsingErrorInformation {
    /// A fresh error of `kind` at `input`, without context.
    pub fn from_error_kind(input: usize, kind: ErrorKind) -> (r: Self)
        ensures
            r.input == input,
            r.kind == kind,
            r.context is None,
    {
        ParsingErrorInformation { input, kind, context: None }
    }

    /// Combining an error with an outer one keeps the inner error as it is.
    pub fn append(_input: usize, _kind: ErrorKind, other: Self) -> (r: Self)
        ensures
            r == other,
    {
        other
    }

    /// An error for an unexpected byte at `input`.
    pub fn from_char(input: usize, _c: u8) -> (r: Self)
        ensures
            r.input == input,
            r.kind == ErrorKind::Not,
            r.context is None,
    {
        ParsingErrorInformation { input, kind: ErrorKind::Not, context: None }
    }

    /// Attaches the static message `ctx` to `other`.
    pub fn add_context(_input: usize, ctx: &str, other: Self) -> (r: Self)
        ensures
            r.input == other.input,
            r.kind == other.kind,
            r.context matches Some(c) && c@ == ctx@,
    {
        let mut other = other;
        other.context = Some(ctx.to_owned());
        other
    }

    /// Attaches a message built at parse time to `other`.
    pub fn add_dynamic_context(_input: usize, ctx: String, other: Self) -> (r: Self)
        ensures
            r.input == other.input,
            r.kind == other.kind,
            r.context == Some(ctx),
    {
        let mut other = other;
        other.context = Some(ctx);
        other
    }
}

} // verus!

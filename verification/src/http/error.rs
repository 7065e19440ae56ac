//! Failures of the recognizer: which production was expected, and where.

use vstd::prelude::*;

verus! {

/// The production that was expected where recognition stopped.
#[derive(Clone, Copy, Debug, PartialEq, Eq, Structural)]
pub enum ErrorKind {
    /// No token character where the method must start.
    EmptyMethod,
    /// No single space after the method or after the target.
    MissingSpace,
    /// The target does not start with `/`.
    MissingPathRoot,
    /// No token character where a path segment must start.
    EmptySegment,
    /// A query pair lacks its key, its `=` or its value.
    MalformedQueryPair,
    /// Neither a known version literal nor a letter where the version must start.
    EmptyVersion,
    /// No line terminator after the version.
    MissingLineEnd,
    /// A header line lacks its name, its `:` or its line terminator.
    MalformedHeaderLine,
    /// The bytes that were to be parsed are no text. No recognizer gives this
    /// failure: it is for the caller that holds the bytes and turns them
    /// into text.
    InvalidEncoding,
}

/// A failed parse: the expected production and the offset at which it was
/// expected. Offsets count characters, which in ASCII text are bytes.
#[derive(Clone, Copy, Debug, PartialEq, Eq, Structural)]
pub struct ParseError {
    pub kind: ErrorKind,
    pub offset: usize,
}

/// Mathematical value of a [`ParseError`].
pub struct Failure {
    pub kind: ErrorKind,
    pub offset: int,
}

impl View for ParseError {
    type V = Failure;

    open spec fn view(&self) -> Failure {
        Failure { kind: self.kind, offset: self.offset as int }
    }
}

impl DeepView for ParseError {
    type V = Failure;

    open spec fn deep_view(&self) -> Failure {
        self.view()
    }
}

/// What a production yields at a position: the position after what it consumed
/// and the value it built, or the failure.
pub type Parsed<T> = Result<(int, T), Failure>;

/// The value `value`, with the text consumed up to `next`.
pub open spec fn found<T>(next: int, value: T) -> Parsed<T> {
    Ok((next, value))
}

/// The failure of kind `kind` at `offset`.
pub open spec fn fail<T>(kind: ErrorKind, offset: int) -> Parsed<T> {
    Err(Failure { kind, offset })
}

/// What a recognizer on a cursor returned, as the grammar states it.
pub open spec fn outcome<T: DeepView>(r: Result<(usize, T), ParseError>) -> Parsed<T::V> {
    match r {
        Ok((next, value)) => Ok((next as int, value.deep_view())),
        Err(e) => Err(e@),
    }
}

/// The recognizer went forward from `pos` and stayed inside the input of
/// length `len`, on success and on failure.
pub open spec fn within<T>(r: Result<(usize, T), ParseError>, pos: int, len: int) -> bool {
    match r {
        Ok((next, _)) => pos <= next <= len,
        Err(e) => pos <= e.offset <= len,
    }
}

/// What an entry point owes for the text `s`, where the production yields
/// `yielded` at the start of `s`: the failure of the production, or the text
/// that it left unconsumed and the value.
pub open spec fn from_start<V>(s: Seq<char>, yielded: Parsed<V>) -> Result<
    (Seq<char>, V),
    Failure,
> {
    match yielded {
        Ok((next, value)) => Ok((s.subrange(next, s.len() as int), value)),
        Err(f) => Err(f),
    }
}

/// What an entry point returned, as the grammar states it.
pub open spec fn rest_outcome<T: DeepView>(r: Result<(&str, T), ParseError>) -> Result<
    (Seq<char>, T::V),
    Failure,
> {
    match r {
        Ok((rest, value)) => Ok((rest@, value.deep_view())),
        Err(e) => Err(e@),
    }
}

impl ParseError {
    /// The error of kind `kind` at `offset`.
    pub fn new(kind: ErrorKind, offset: usize) -> (e: ParseError)
        ensures
            e.kind == kind,
            e.offset == offset,
    {
        ParseError { kind, offset }
    }
}

} // verus!

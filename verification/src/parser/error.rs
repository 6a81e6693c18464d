//! The error a malformed pattern is rejected with.
use vstd::prelude::*;

verus! {

/// The part of the grammar in which a pattern was found to be malformed.
#[derive(Debug, Clone, Copy, PartialEq, Eq, Structural)]
pub enum ErrorContext {
    /// A name was expected: a run of name characters not starting with a digit.
    ValidIdent,
    /// A literal was expected: a run of literal characters.
    ValidExactMatch,
    /// A section count does not fit the machine word.
    Number,
    /// A capture `{…}` is malformed.
    Capture,
    /// An optional group `(…)` is malformed.
    Optional,
    /// A path was expected.
    Path,
    /// A query is malformed.
    Query,
    /// A fragment is malformed.
    Fragment,
    /// Two captures have the same name.
    DuplicateKey,
}

/// Why and where a pattern was rejected.
#[derive(Debug, Clone, Copy, PartialEq, Eq, Structural)]
pub struct ParseError {
    /// The part of the grammar that failed.
    pub context: ErrorContext,
    /// The number of characters before the point of failure.
    pub offset: usize,
}

/// Model of [`ParseError`], with an unbounded offset.
pub struct Failure {
    pub context: ErrorContext,
    pub offset: int,
}

impl DeepView for ParseError {
    type V = Failure;

    open spec fn deep_view(&self) -> Failure {
        Failure { context: self.context, offset: self.offset as int }
    }
}

/// What a grammar rule yields when applied at a position: a value and the
/// position after it, or a failure.
pub type Parsed<T> = Result<(T, int), Failure>;

/// What the executable form of a grammar rule yields.
pub type ParseResult<T> = Result<(T, usize), ParseError>;

/// The failure of `context` at `offset`.
pub open spec fn failure<T>(context: ErrorContext, offset: int) -> Parsed<T> {
    Err(Failure { context, offset })
}

/// Whether an executable result is the one the grammar prescribes.
pub open spec fn agrees<T: DeepView>(result: ParseResult<T>, prescribed: Parsed<T::V>) -> bool {
    match (result, prescribed) {
        (Ok((value, end)), Ok((model, model_end))) => value.deep_view() == model && end
            == model_end,
        (Err(error), Err(failure)) => error.deep_view() == failure,
        _ => false,
    }
}

impl ErrorContext {
    /// The name of the part of the grammar, as a sequence of characters.
    pub open spec fn spec_name(self) -> Seq<char> {
        match self {
            ErrorContext::ValidIdent => "valid ident"@,
            ErrorContext::ValidExactMatch => "valid exact match"@,
            ErrorContext::Number => "number"@,
            ErrorContext::Capture => "capture"@,
            ErrorContext::Optional => "optional"@,
            ErrorContext::Path => "path"@,
            ErrorContext::Query => "query"@,
            ErrorContext::Fragment => "fragment"@,
            ErrorContext::DuplicateKey => "duplicate key"@,
        }
    }

    /// The name of the part of the grammar.
    pub fn name(&self) -> (name: &'static str)
        ensures
            name@ == self.spec_name(),
    {
        match self {
            ErrorContext::ValidIdent => "valid ident",
            ErrorContext::ValidExactMatch => "valid exact match",
            ErrorContext::Number => "number",
            ErrorContext::Capture => "capture",
            ErrorContext::Optional => "optional",
            ErrorContext::Path => "path",
            ErrorContext::Query => "query",
            ErrorContext::Fragment => "fragment",
            ErrorContext::DuplicateKey => "duplicate key",
        }
    }
}

/// The error of `context` at `offset`.
pub fn fail<T: DeepView>(context: ErrorContext, offset: usize) -> (result: ParseResult<T>)
    ensures
        agrees(result, failure::<T::V>(context, offset as int)),
{
    Err(ParseError { context, offset })
}

} // verus!

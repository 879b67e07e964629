//! How a parse can fail.

use vstd::prelude::*;

verus! {

/// The kinds of structural violation, each with the place that is reported for it.
#[derive(Debug, Clone, Copy, PartialEq, Eq, Structural)]
pub enum ErrorKind {
    /// A required `(`, `)`, `{`, `}` or closing quote is missing. Its place is
    /// where the search for it began.
    UnexpectedEndOfInput,
    /// A literal was required and the text is none, or a number breaks off
    /// after its exponent mark. Its place is where the literal had to begin.
    MalformedLiteral,
    /// A comparator was required and the text is neither `==` nor `!=`. Its
    /// place is where the comparator had to begin.
    MalformedComparator,
    /// An argument list holds a character that neither starts a literal nor
    /// separates two. Its place is that character.
    MalformedArgumentSeparator,
    /// A `(` with no name before it. Its place is that `(`.
    EmptyInvocationName,
}

/// The first violation met when reading from left to right, as a mathematical value.
pub struct Failure {
    pub kind: ErrorKind,
    /// Characters of the input that lie before the place of the violation.
    pub position: int,
}

impl Failure {
    /// The same violation, seen from `by` characters further left.
    pub open spec fn shifted(self, by: int) -> Failure {
        Failure { kind: self.kind, position: self.position + by }
    }
}

/// The first violation met when reading from left to right.
#[derive(Debug, Clone, Copy, PartialEq, Eq, Structural)]
pub struct ParseError {
    pub kind: ErrorKind,
    /// Characters of the input that lie before the place of the violation.
    pub position: usize,
}

impl View for ParseError {
    type V = Failure;

    open spec fn view(&self) -> Failure {
        Failure { kind: self.kind, position: self.position as int }
    }
}

impl ParseError {
    /// The same violation, seen from `by` characters further left.
    pub fn shifted(self, by: usize) -> (moved: ParseError)
        requires
            self.position + by <= usize::MAX,
        ensures
            moved@ == self@.shifted(by as int),
    {
        ParseError { kind: self.kind, position: self.position + by }
    }
}

} // verus!

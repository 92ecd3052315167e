use vstd::prelude::*;

verus! {

/// The stable numeric codes of every diagnostic the analyzer can report.
#[derive(Clone, Copy, Debug, PartialEq, Eq, Structural)]
pub enum DiagnosticsCode {
    /// A syntax error the parser could not attribute to a specific cause.
    UnknownParseState,
    /// A syntax error that directly follows a statement: a `.` is missing.
    ExpectedDot,
    /// The parser had to make up a token that the source lacks.
    ExpectedMissingToken,
    /// A variable occurrence that is not bound by the statement.
    UnsafeVariable,
    /// Reserved for arithmetic that has no defined result.
    UndefinedOperation,
}

impl DiagnosticsCode {
    /// The number that identifies this diagnostic on the wire.
    pub open spec fn code(self) -> int {
        match self {
            DiagnosticsCode::UnknownParseState => 1000,
            DiagnosticsCode::ExpectedDot => 1001,
            DiagnosticsCode::ExpectedMissingToken => 1101,
            DiagnosticsCode::UnsafeVariable => 2000,
            DiagnosticsCode::UndefinedOperation => 2001,
        }
    }

    pub fn into_i32(self) -> (code: i32)
        ensures
            code == self.code(),
    {
        match self {
            DiagnosticsCode::UnknownParseState => 1000,
            DiagnosticsCode::ExpectedDot => 1001,
            DiagnosticsCode::ExpectedMissingToken => 1101,
            DiagnosticsCode::UnsafeVariable => 2000,
            DiagnosticsCode::UndefinedOperation => 2001,
        }
    }
}

} // verus!

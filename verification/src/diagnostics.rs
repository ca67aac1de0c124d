//! The kinds of problem that a diagnostic reports, and a diagnostic: a kind
//! and the range of the text it covers.
use vstd::prelude::*;

verus! {

#[derive(Debug, Clone, Copy, PartialEq, Eq, Structural)]
pub enum DiagnosticKind {
    NotClosedBlock,
    NotClosedComment,
    NotTerminatedString,
    UnexpectedKeyword,
    UnexpectedToken,
    UnexpectedOperator,
    ExpectingComma,
    ExpectingCommaOrBracket,
    ExpectingThen,
    ExpectingDo,
    ExpectingToken,
    ExpectingName,
    ExpectingClosingBracket,
    ExpectingFunctionCall,
    ExpectingExpression,
    InvalidName,
    InvalidFunction,
    InvalidNumberFormat,
}

#[derive(Debug, Clone, Copy, PartialEq, Eq, Structural)]
pub struct Diagnostic {
    kind: DiagnosticKind,
    start: u32,
    end: u32,
}

} // verus!

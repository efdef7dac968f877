//! The failures of evaluation.

use vstd::prelude::*;
use vstd::string::StringExecFns;

verus! {

/// Why an evaluation stopped.
#[derive(Clone, Debug, PartialEq)]
pub enum EvaluatorError {
    /// The tree holds a form that the interpreter does not implement.
    UnsupportedForm { what: String },
    /// A name stands where it cannot be used.
    BadName { identifier: String },
    /// A division by zero, for hosts that ask for it; the interpreter
    /// itself divides as IEEE-754 does and never reports it.
    DivisionByZero,
    /// A value handed to `JSON.stringify` contains itself.
    JsonCycle,
    /// A text handed to `JSON.parse` is not JSON.
    JsonSyntax,
    /// The evaluation went beyond a limit of the interpreter.
    Interrupted,
}

/// The mathematical content of an [`EvaluatorError`], and one more: the
/// end of what is said of a run that draws a random number.
pub enum ErrorView {
    UnsupportedForm { what: Seq<char> },
    BadName { identifier: Seq<char> },
    DivisionByZero,
    JsonCycle,
    JsonSyntax,
    Interrupted,
    /// A random number was drawn.  No evaluation returns this: it stands
    /// where the meaning of a run ends, because what the run goes on to do
    /// depends on the number that was drawn.
    Drawn,
}

impl View for EvaluatorError {
    type V = ErrorView;

    open spec fn view(&self) -> ErrorView {
        match *self {
            EvaluatorError::UnsupportedForm { what } => ErrorView::UnsupportedForm { what: what@ },
            EvaluatorError::BadName { identifier } => ErrorView::BadName { identifier: identifier@ },
            EvaluatorError::DivisionByZero => ErrorView::DivisionByZero,
            EvaluatorError::JsonCycle => ErrorView::JsonCycle,
            EvaluatorError::JsonSyntax => ErrorView::JsonSyntax,
            EvaluatorError::Interrupted => ErrorView::Interrupted,
        }
    }
}

/// The one-line message of a failure: its kind, then what it is about.
pub open spec fn message_text(e: ErrorView) -> Seq<char> {
    match e {
        ErrorView::UnsupportedForm { what } => "UnsupportedForm: "@ + what,
        ErrorView::BadName { identifier } => "BadName: "@ + identifier,
        ErrorView::DivisionByZero => "DivisionByZero"@,
        ErrorView::JsonCycle => "JsonCycle"@,
        ErrorView::JsonSyntax => "JsonSyntax"@,
        ErrorView::Interrupted => "Interrupted"@,
        ErrorView::Drawn => "Drawn"@,
    }
}

impl EvaluatorError {
    /// The one-line message of this failure.
    pub fn message(&self) -> (r: String)
        ensures
            r@ == message_text(self@),
    {
        match self {
            EvaluatorError::UnsupportedForm { what } => String::from_str("UnsupportedForm: ").concat(
                what.as_str(),
            ),
            EvaluatorError::BadName { identifier } => String::from_str("BadName: ").concat(
                identifier.as_str(),
            ),
            EvaluatorError::DivisionByZero => String::from_str("DivisionByZero"),
            EvaluatorError::JsonCycle => String::from_str("JsonCycle"),
            EvaluatorError::JsonSyntax => String::from_str("JsonSyntax"),
            EvaluatorError::Interrupted => String::from_str("Interrupted"),
        }
    }
}

} // verus!

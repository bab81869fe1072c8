//! The structured diagnostic record and its mathematical model.

use vstd::prelude::*;

verus! {

/// Severity of a diagnostic record: a primary error, or a secondary hint
/// that annotates the immediately preceding error in emission order.
#[derive(Clone, Copy, Debug, PartialEq, Eq, Structural)]
pub enum Severity {
    Error,
    Hint,
}

/// A zero-indexed source position: line and character column.
#[derive(Clone, Copy, Debug, PartialEq, Eq, Structural)]
pub struct Position {
    pub line: u32,
    pub character: u32,
}

/// A zero-indexed source range. When the compiler reports a single column,
/// `start` equals `end`.
#[derive(Clone, Copy, Debug, PartialEq, Eq, Structural)]
pub struct Span {
    pub start: Position,
    pub end: Position,
}

/// The mathematical model of a `Diagnostic`: the text fields are modeled as
/// character sequences.
pub struct DiagnosticView {
    pub span: Span,
    pub severity: Severity,
    pub source: Seq<char>,
    pub message: Seq<char>,
}

/// One structured diagnostic record, parsed from a single line of the
/// compiler's report. Created fresh per parsed line and never mutated.
#[derive(Debug)]
pub struct Diagnostic {
    pub span: Span,
    pub severity: Severity,
    /// Fixed tag identifying this tool as the record's origin.
    pub source: String,
    /// Message text, trimmed of surrounding whitespace and of one trailing
    /// period.
    pub message: String,
}

impl View for Diagnostic {
    type V = DiagnosticView;

    open spec fn view(&self) -> DiagnosticView {
        DiagnosticView {
            span: self.span,
            severity: self.severity,
            source: self.source@,
            message: self.message@,
        }
    }
}

impl DeepView for Diagnostic {
    type V = DiagnosticView;

    open spec fn deep_view(&self) -> DiagnosticView {
        self.view()
    }
}

impl PartialEq for Diagnostic {
    fn eq(&self, other: &Diagnostic) -> (r: bool) {
        self.span == other.span && self.severity == other.severity && self.source == other.source
            && self.message == other.message
    }
}

impl vstd::std_specs::cmp::PartialEqSpecImpl for Diagnostic {
    open spec fn obeys_eq_spec() -> bool {
        true
    }

    open spec fn eq_spec(&self, other: &Diagnostic) -> bool {
        self@ == other@
    }
}

} // verus!

//! Structured diagnostics from a schema compiler's textual error report.
//!
//! The library covers the two computational halves of a compiler bridge:
//! planning the compiler invocation for a document (`invoke`) and parsing
//! the captured standard-error text into ordered, position-accurate
//! diagnostic records (`parser`). Process execution itself is left to the
//! caller, which hands the captured text back in.

pub mod diagnostics;
pub mod invoke;
pub mod laws;
pub mod parser;

pub use diagnostics::{Diagnostic, DiagnosticView, Position, Severity, Span};
pub use invoke::{invocation_args, DocPath, DocRef, InvokeError};
pub use parser::{parse_diag, parse_diags};

use vstd::prelude::*;
use vstd::string::StringExecFns;
use crate::backend::errors::diagnostic_kind::DiagnosticKind;
use crate::backend::errors::error_location::ErrorLocation;

verus! {

/// How much a diagnostic matters.
#[derive(Debug, Clone, Copy, PartialEq, Eq, Structural)]
pub enum DiagnosticSeverity {
    Info,
    Warning,
}

impl DiagnosticSeverity {
    /// The word shown for the severity.
    pub open spec fn spec_label(&self) -> Seq<char> {
        match self {
            DiagnosticSeverity::Info => "Info"@,
            DiagnosticSeverity::Warning => "Warning"@,
        }
    }

    /// The word shown for the severity.
    pub fn label(&self) -> (s: String)
        ensures
            s@ == self.spec_label(),
    {
        match self {
            DiagnosticSeverity::Info => String::from_str("Info"),
            DiagnosticSeverity::Warning => String::from_str("Warning"),
        }
    }
}

/// A remark on the source that does not stop the work.
#[derive(Debug, Clone, Copy, PartialEq, Eq, Structural)]
pub struct Diagnostic {
    pub location: ErrorLocation,
    pub kind: DiagnosticKind,
    pub severity: DiagnosticSeverity,
}

impl Diagnostic {
    pub fn info(location: ErrorLocation, kind: DiagnosticKind) -> (d: Self)
        ensures
            d == (Diagnostic { location, kind, severity: DiagnosticSeverity::Info }),
    {
        Self { location, kind, severity: DiagnosticSeverity::Info }
    }

    pub fn warn(location: ErrorLocation, kind: DiagnosticKind) -> (d: Self)
        ensures
            d == (Diagnostic { location, kind, severity: DiagnosticSeverity::Warning }),
    {
        Self { location, kind, severity: DiagnosticSeverity::Warning }
    }
}

} // verus!

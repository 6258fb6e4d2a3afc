use vstd::prelude::*;
use vstd::string::StringExecFns;

verus! {

/// What a diagnostic is about.
#[derive(Debug, Clone, Copy, PartialEq, Eq, Structural)]
pub enum DiagnosticKind {
    EmptyLineInPart,
    CommentInPart,
    FormatAddedBarline,
    FormatReplacedInvalid,
    /// A bend, hammer-on, pull, release, slide or vibrato stands in the
    /// first tick of the stream, where no note comes before it.
    SpanInFirstTick,
}

impl DiagnosticKind {
    /// The sentence shown for the diagnostic.
    pub open spec fn spec_message(&self) -> Seq<char> {
        match self {
            DiagnosticKind::EmptyLineInPart => "Empty line inside Part, are you sure this is intended?"@,
            DiagnosticKind::CommentInPart => "Comment inside Part, are you sure this is intended?"@,
            DiagnosticKind::FormatAddedBarline => "There was no barline at the end of this line, so I added one."@,
            DiagnosticKind::FormatReplacedInvalid => "This character is invalid, so I replaced it with a rest (`-`)."@,
            DiagnosticKind::SpanInFirstTick => "Nothing comes before this mark, so it starts on the first atom of the stream."@,
        }
    }

    /// The sentence shown for the diagnostic.
    pub fn message(&self) -> (s: String)
        ensures
            s@ == self.spec_message(),
    {
        match self {
            DiagnosticKind::EmptyLineInPart => String::from_str(
                "Empty line inside Part, are you sure this is intended?",
            ),
            DiagnosticKind::CommentInPart => String::from_str(
                "Comment inside Part, are you sure this is intended?",
            ),
            DiagnosticKind::FormatAddedBarline => String::from_str(
                "There was no barline at the end of this line, so I added one.",
            ),
            DiagnosticKind::FormatReplacedInvalid => String::from_str(
                "This character is invalid, so I replaced it with a rest (`-`).",
            ),
            DiagnosticKind::SpanInFirstTick => String::from_str(
                "Nothing comes before this mark, so it starts on the first atom of the stream.",
            ),
        }
    }
}

} // verus!

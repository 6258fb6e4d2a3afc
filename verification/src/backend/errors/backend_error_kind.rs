use vstd::prelude::*;
use vstd::string::StringExecFns;

verus! {

/// `std::io::Error`, carried through as it is: nothing is known of what it holds.
#[verifier::external_type_specification]
#[verifier::external_body]
pub struct ExIoError(std::io::Error);

/// `std::fmt::Error`, carried through as it is: nothing is known of what it holds.
#[verifier::external_type_specification]
#[verifier::external_body]
pub struct ExFmtError(std::fmt::Error);

/// The closed set of things that can go wrong.
#[derive(Debug)]
pub enum BackendErrorKind {
    IOError(std::io::Error),
    FmtError(std::fmt::Error),
    EmptyScore,
    NoClosingBarline,
    Parse3InvalidCharacter(char),
    FretTooLarge,
    FixupFailed,
    InvalidStringName,
    BendOnInvalid,
    BothSlotsMultiChar,
    MultiBothSlotsFilled,
}

/// The message of an I/O error, as its `Display` impl prints it. Nothing is
/// claimed of the text: it comes from the operating system.
#[verifier::external_body]
fn io_error_text(e: &std::io::Error) -> (s: String) {
    format!("{e}")
}

/// The message of a formatting error, as its `Display` impl prints it.
/// Nothing is claimed of the text.
#[verifier::external_body]
fn fmt_error_text(e: &std::fmt::Error) -> (s: String) {
    format!("{e}")
}

impl BackendErrorKind {
    /// The headline shown for the kind.
    pub open spec fn spec_short(&self) -> Seq<char> {
        match self {
            BackendErrorKind::IOError(_) => "Cannot write to file"@,
            BackendErrorKind::FmtError(_) => "Cannot write to internal buffer"@,
            BackendErrorKind::EmptyScore => "Empty score"@,
            BackendErrorKind::NoClosingBarline => "No closing barline"@,
            BackendErrorKind::Parse3InvalidCharacter(_) => "Invalid character"@,
            BackendErrorKind::FretTooLarge => "Fret too large"@,
            BackendErrorKind::FixupFailed => "Fixup failed"@,
            BackendErrorKind::InvalidStringName => "Invalid string name"@,
            BackendErrorKind::BendOnInvalid => "Invalid bend"@,
            BackendErrorKind::BothSlotsMultiChar => "Both slots are multichar"@,
            BackendErrorKind::MultiBothSlotsFilled => "Both slots are filled"@,
        }
    }

    /// The explanation shown below the headline, for the kinds whose text
    /// does not come from the operating system or the formatter.
    pub open spec fn spec_long(&self) -> Seq<char> {
        match self {
            BackendErrorKind::IOError(_) => "IO Error:\n"@,
            BackendErrorKind::FmtError(_) => "Format error:\n"@,
            BackendErrorKind::EmptyScore => Seq::empty(),
            BackendErrorKind::NoClosingBarline => "Lines in a part must end with a barline, but this one doesn't"@,
            BackendErrorKind::Parse3InvalidCharacter(c) => "The character "@.push(*c)
                + " is not valid here."@,
            BackendErrorKind::FretTooLarge => "Frets are numbered from 0 to 255, and this one is above that."@,
            BackendErrorKind::FixupFailed => "Failed to fix the error at this location after 5 tries"@,
            BackendErrorKind::InvalidStringName => "Failed to parse the string name on this string"@,
            BackendErrorKind::BendOnInvalid => "You can only bend on frets, and the element before this bend is not a fret."@,
            BackendErrorKind::BothSlotsMultiChar => "The tick where this element starts is multichar, but has the start of this element as its last logical tick.\nThis is not allowed."@,
            BackendErrorKind::MultiBothSlotsFilled => "This tick is multichar, but there are two single-char elements on this track.\nThis is invalid.\nIn this position, you may have:\n - a rest\n - a single char element aligned left or right\n - another multichar element of the same cardinality"@,
        }
    }

    /// The headline and the explanation of the kind. For an I/O or a
    /// formatting error the explanation starts with `spec_long` and goes on
    /// with the error's own message; for every other kind it is `spec_long`.
    pub fn desc(&self) -> (r: (String, String))
        ensures
            r.0@ == self.spec_short(),
            match self {
                BackendErrorKind::IOError(_) | BackendErrorKind::FmtError(_) => self.spec_long().is_prefix_of(
                    r.1@,
                ),
                _ => r.1@ == self.spec_long(),
            },
    {
        match self {
            BackendErrorKind::IOError(x) => {
                let mut long = String::from_str("IO Error:\n");
                let text = io_error_text(x);
                long.append(text.as_str());
                (String::from_str("Cannot write to file"), long)
            },
            BackendErrorKind::FmtError(x) => {
                let mut long = String::from_str("Format error:\n");
                let text = fmt_error_text(x);
                long.append(text.as_str());
                (String::from_str("Cannot write to internal buffer"), long)
            },
            BackendErrorKind::EmptyScore => (String::from_str("Empty score"), String::new()),
            BackendErrorKind::NoClosingBarline => (
                String::from_str("No closing barline"),
                String::from_str("Lines in a part must end with a barline, but this one doesn't"),
            ),
            BackendErrorKind::Parse3InvalidCharacter(c) => {
                let mut long = String::from_str("The character ");
                long.push(*c);
                long.append(" is not valid here.");
                (String::from_str("Invalid character"), long)
            },
            BackendErrorKind::FretTooLarge => (
                String::from_str("Fret too large"),
                String::from_str("Frets are numbered from 0 to 255, and this one is above that."),
            ),
            BackendErrorKind::FixupFailed => (
                String::from_str("Fixup failed"),
                String::from_str("Failed to fix the error at this location after 5 tries"),
            ),
            BackendErrorKind::InvalidStringName => (
                String::from_str("Invalid string name"),
                String::from_str("Failed to parse the string name on this string"),
            ),
            BackendErrorKind::BendOnInvalid => (
                String::from_str("Invalid bend"),
                String::from_str(
                    "You can only bend on frets, and the element before this bend is not a fret.",
                ),
            ),
            BackendErrorKind::BothSlotsMultiChar => (
                String::from_str("Both slots are multichar"),
                String::from_str(
                    "The tick where this element starts is multichar, but has the start of this element as its last logical tick.\nThis is not allowed.",
                ),
            ),
            BackendErrorKind::MultiBothSlotsFilled => (
                String::from_str("Both slots are filled"),
                String::from_str(
                    "This tick is multichar, but there are two single-char elements on this track.\nThis is invalid.\nIn this position, you may have:\n - a rest\n - a single char element aligned left or right\n - another multichar element of the same cardinality",
                ),
            ),
        }
    }
}

} // verus!

use vstd::prelude::*;
use core::ops::RangeInclusive;
use crate::backend::errors::backend_error_kind::BackendErrorKind;
use crate::backend::errors::error_location::ErrorLocation;

verus! {

/// An error: what went wrong, where, and the lines worth showing with it.
#[derive(Debug)]
pub struct BackendError {
    pub main_location: ErrorLocation,
    pub relevant_lines: RangeInclusive<usize>,
    pub kind: BackendErrorKind,
}

/// What an error holds, with the line range as its two bounds.
pub struct BackendErrorView {
    pub main_location: ErrorLocation,
    pub first_line: usize,
    pub last_line: usize,
    pub kind: BackendErrorKind,
}

impl View for BackendError {
    type V = BackendErrorView;

    open spec fn view(&self) -> BackendErrorView {
        BackendErrorView {
            main_location: self.main_location,
            first_line: self.relevant_lines@.start,
            last_line: self.relevant_lines@.end,
            kind: self.kind,
        }
    }
}

impl BackendErrorView {
    /// An error of kind `kind` about the single line `line`, without a column.
    pub open spec fn on_line(kind: BackendErrorKind, line: usize) -> BackendErrorView {
        BackendErrorView {
            main_location: ErrorLocation::LineOnly(line),
            first_line: line,
            last_line: line,
            kind,
        }
    }

    /// An error of kind `kind` at column `column` of line `line`.
    pub open spec fn at(kind: BackendErrorKind, line: u32, column: u32) -> BackendErrorView {
        BackendErrorView {
            main_location: ErrorLocation::LineAndChar(line, column),
            first_line: line as usize,
            last_line: line as usize,
            kind,
        }
    }

    /// The error for two strings that are both wide at one tick: at column
    /// `main_char` of line `main_line`, with the lines from the smaller to
    /// the larger of `main_line` and `other_line` to show.
    pub open spec fn both_slots_multichar(
        main_line: u32,
        main_char: u32,
        other_line: u32,
    ) -> BackendErrorView {
        BackendErrorView {
            main_location: ErrorLocation::LineAndChar(main_line, main_char),
            first_line: if main_line <= other_line {
                main_line as usize
            } else {
                other_line as usize
            },
            last_line: if main_line <= other_line {
                other_line as usize
            } else {
                main_line as usize
            },
            kind: BackendErrorKind::BothSlotsMultiChar,
        }
    }
}

impl BackendError {
    /// Wraps a failed write.
    pub fn from_io_error(x: std::io::Error) -> (e: Self)
        ensures
            e@ == (BackendErrorView {
                main_location: ErrorLocation::NoLocation,
                first_line: 0,
                last_line: 0,
                kind: BackendErrorKind::IOError(x),
            }),
    {
        BackendError {
            main_location: ErrorLocation::NoLocation,
            kind: BackendErrorKind::IOError(x),
            relevant_lines: RangeInclusive::new(0, 0),
        }
    }

    /// Wraps a failed formatting.
    pub fn from_fmt_error(x: std::fmt::Error) -> (e: Self)
        ensures
            e@ == (BackendErrorView {
                main_location: ErrorLocation::NoLocation,
                first_line: 0,
                last_line: 0,
                kind: BackendErrorKind::FmtError(x),
            }),
    {
        BackendError {
            main_location: ErrorLocation::NoLocation,
            kind: BackendErrorKind::FmtError(x),
            relevant_lines: RangeInclusive::new(0, 0),
        }
    }

    pub fn empty_score_err() -> (e: Self)
        ensures
            e@ == (BackendErrorView {
                main_location: ErrorLocation::NoLocation,
                first_line: 0,
                last_line: 0,
                kind: BackendErrorKind::EmptyScore,
            }),
    {
        BackendError {
            main_location: ErrorLocation::NoLocation,
            kind: BackendErrorKind::EmptyScore,
            relevant_lines: RangeInclusive::new(0, 0),
        }
    }

    pub fn no_closing_barline(line_idx: usize) -> (e: Self)
        ensures
            e@ == BackendErrorView::on_line(BackendErrorKind::NoClosingBarline, line_idx),
    {
        BackendError {
            main_location: ErrorLocation::LineOnly(line_idx),
            kind: BackendErrorKind::NoClosingBarline,
            relevant_lines: RangeInclusive::new(line_idx, line_idx),
        }
    }

    pub fn fixup_failed(location: ErrorLocation, relevant_lines: RangeInclusive<usize>) -> (e: Self)
        ensures
            e@ == (BackendErrorView {
                main_location: location,
                first_line: relevant_lines@.start,
                last_line: relevant_lines@.end,
                kind: BackendErrorKind::FixupFailed,
            }),
    {
        BackendError { main_location: location, relevant_lines, kind: BackendErrorKind::FixupFailed }
    }

    pub fn parse3_invalid_string_name(line: usize) -> (e: Self)
        ensures
            e@ == BackendErrorView::on_line(BackendErrorKind::InvalidStringName, line),
    {
        BackendError {
            main_location: ErrorLocation::LineOnly(line),
            relevant_lines: RangeInclusive::new(line, line),
            kind: BackendErrorKind::InvalidStringName,
        }
    }

    pub fn parse3_invalid_character(line: u32, char: u32, c: char) -> (e: Self)
        ensures
            e@ == BackendErrorView::at(BackendErrorKind::Parse3InvalidCharacter(c), line, char),
    {
        BackendError {
            main_location: ErrorLocation::LineAndChar(line, char),
            kind: BackendErrorKind::Parse3InvalidCharacter(c),
            relevant_lines: RangeInclusive::new(line as usize, line as usize),
        }
    }

    pub fn large_fret(line: u32, char: u32) -> (e: Self)
        ensures
            e@ == BackendErrorView::at(BackendErrorKind::FretTooLarge, line, char),
    {
        BackendError {
            main_location: ErrorLocation::LineAndChar(line, char),
            kind: BackendErrorKind::FretTooLarge,
            relevant_lines: RangeInclusive::new(line as usize, line as usize),
        }
    }

    pub fn bend_on_invalid(line: u32, char: u32) -> (e: Self)
        ensures
            e@ == BackendErrorView::at(BackendErrorKind::BendOnInvalid, line, char),
    {
        BackendError {
            main_location: ErrorLocation::LineAndChar(line, char),
            kind: BackendErrorKind::BendOnInvalid,
            relevant_lines: RangeInclusive::new(line as usize, line as usize),
        }
    }

    pub fn both_slots_multichar(main_line: u32, main_char: u32, other_line: u32) -> (e: Self)
        ensures
            e@ == BackendErrorView::both_slots_multichar(main_line, main_char, other_line),
    {
        let (min, max) = if main_line <= other_line {
            (main_line as usize, other_line as usize)
        } else {
            (other_line as usize, main_line as usize)
        };
        BackendError {
            main_location: ErrorLocation::LineAndChar(main_line, main_char),
            kind: BackendErrorKind::BothSlotsMultiChar,
            relevant_lines: RangeInclusive::new(min, max),
        }
    }

    pub fn multi_both_slots_filled(line: u32, char: u32) -> (e: Self)
        ensures
            e@ == BackendErrorView::at(BackendErrorKind::MultiBothSlotsFilled, line, char),
    {
        Self {
            main_location: ErrorLocation::LineAndChar(line, char),
            kind: BackendErrorKind::MultiBothSlotsFilled,
            relevant_lines: RangeInclusive::new(line as usize, line as usize),
        }
    }
}

} // verus!

use vstd::prelude::*;
use vstd::string::StringExecFns;
use crate::text::{decimal_text, format_decimal};

verus! {

/// Where in the source an error or a diagnostic points.
#[derive(Clone, Copy, Debug, PartialEq, Eq, Structural)]
pub enum ErrorLocation {
    NoLocation,
    LineOnly(usize),
    LineAndMeasure(usize, usize),
    LineAndChar(u32, u32),
}

/// A byte offset into the source, with the line and column once resolved.
#[derive(Clone, Copy, Debug)]
pub struct SourceOffset {
    pub offset: usize,
    pub resolved: Option<(usize, usize)>,
}

impl ErrorLocation {
    /// The line the location names, if it names one.
    pub open spec fn spec_line_idx(&self) -> Option<usize> {
        match self {
            ErrorLocation::NoLocation => None,
            ErrorLocation::LineOnly(x) => Some(*x),
            ErrorLocation::LineAndMeasure(x, _) => Some(*x),
            ErrorLocation::LineAndChar(l, _) => Some(*l as usize),
        }
    }

    /// The column the location names, if it names one.
    pub open spec fn spec_char_idx(&self) -> Option<usize> {
        match self {
            ErrorLocation::LineAndChar(_, c) => Some(*c as usize),
            _ => None,
        }
    }

    /// The sentence that tells a reader where the location is, after the
    /// label `label`. Lines, measures and columns are counted from one.
    pub open spec fn spec_explainer(&self, label: Seq<char>) -> Seq<char> {
        match self {
            ErrorLocation::NoLocation => Seq::empty(),
            ErrorLocation::LineOnly(line_idx) => label + " in line "@ + decimal_text(
                (line_idx + 1) as nat,
            ) + ":\n"@,
            ErrorLocation::LineAndMeasure(line_idx, measure_idx) => label + " Measure "@
                + decimal_text((measure_idx + 1) as nat) + " in line "@ + decimal_text(
                (line_idx + 1) as nat,
            ) + ":\n"@,
            ErrorLocation::LineAndChar(line, column) => label + " line "@ + decimal_text(
                (line + 1) as nat,
            ) + " char "@ + decimal_text((column + 1) as nat) + "\n"@,
        }
    }

    pub fn get_line_idx(&self) -> (r: Option<usize>)
        ensures
            r == self.spec_line_idx(),
    {
        match self {
            ErrorLocation::NoLocation => None,
            ErrorLocation::LineOnly(x) => Some(*x),
            ErrorLocation::LineAndMeasure(x, _) => Some(*x),
            ErrorLocation::LineAndChar(l, _) => Some(*l as usize),
        }
    }

    pub fn get_char_idx(&self) -> (r: Option<usize>)
        ensures
            r == self.spec_char_idx(),
    {
        match self {
            ErrorLocation::NoLocation
            | ErrorLocation::LineOnly(..)
            | ErrorLocation::LineAndMeasure(..) => None,
            ErrorLocation::LineAndChar(_, c) => Some(*c as usize),
        }
    }

    /// Appends to `f` the sentence that says where the location is. `label`
    /// is the word it starts with, as the caller wants it shown.
    pub fn write_location_explainer(&self, f: &mut String, label: &str)
        ensures
            final(f)@ == old(f)@ + self.spec_explainer(label@),
    {
        match self {
            ErrorLocation::NoLocation => {
                assert(f@ + Seq::<char>::empty() =~= f@);
            },
            ErrorLocation::LineOnly(line_idx) => {
                let line_num = format_decimal(*line_idx as u128 + 1);
                f.append(label);
                f.append(" in line ");
                f.append(line_num.as_str());
                f.append(":\n");
                assert(f@ =~= old(f)@ + self.spec_explainer(label@));
            },
            ErrorLocation::LineAndMeasure(line_idx, measure_idx) => {
                let line_num = format_decimal(*line_idx as u128 + 1);
                let measure_num = format_decimal(*measure_idx as u128 + 1);
                f.append(label);
                f.append(" Measure ");
                f.append(measure_num.as_str());
                f.append(" in line ");
                f.append(line_num.as_str());
                f.append(":\n");
                assert(f@ =~= old(f)@ + self.spec_explainer(label@));
            },
            ErrorLocation::LineAndChar(line, column) => {
                let line_num = format_decimal(*line as u128 + 1);
                let column_num = format_decimal(*column as u128 + 1);
                f.append(label);
                f.append(" line ");
                f.append(line_num.as_str());
                f.append(" char ");
                f.append(column_num.as_str());
                f.append("\n");
                assert(f@ =~= old(f)@ + self.spec_explainer(label@));
            },
        }
    }
}

} // verus!

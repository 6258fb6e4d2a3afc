//! The parser as a plain function on owned lines.
use vstd::prelude::*;
use crate::backend::errors::backend_error::BackendError;
use crate::parser::model::{input_fits, spec_parse, ParseView};
use crate::parser::parser::{measure_bounds, Measure, Parser};
use crate::parser::tab_element::TabElement3;
use crate::ParseLines;

verus! {

/// What `parse3` hands back: the parse result, and with it the error that
/// stopped the parser.
#[derive(Debug)]
pub struct Parse3Result {
    /// This is not a `Result` because the tick stream and offsets are needed for printing the error
    pub error: Option<BackendError>,
    pub tick_stream: Vec<TabElement3>,
    pub measures: Vec<Measure>,
    pub base_notes: Vec<char>,
    /// The line on which the n-th section begins and the index of the first tick in that section.
    pub offsets: Vec<(u32, u32)>,
}

impl View for Parse3Result {
    type V = ParseView;

    open spec fn view(&self) -> ParseView {
        ParseView {
            tick_stream: self.tick_stream@,
            measures: measure_bounds(self.measures@),
            base_notes: self.base_notes@,
            offsets: self.offsets@,
        }
    }
}

impl Parse3Result {
    /// The result before anything is parsed.
    pub fn new() -> (r: Self)
        ensures
            r@ == ParseView::empty(),
            r.error is None,
    {
        let r = Parse3Result {
            error: None,
            tick_stream: Vec::new(),
            measures: Vec::new(),
            base_notes: Vec::new(),
            offsets: Vec::new(),
        };
        assert(measure_bounds(r.measures@) =~= Seq::empty());
        r
    }
}

/// Parses `lines`. The error that stopped the parser, if one did, stands in
/// the result beside what was parsed before it.
pub fn parse3(lines: &Vec<String>) -> (r: Parse3Result)
    requires
        input_fits(lines.spec_lines(), 0),
    ensures
        spec_parse(lines.spec_lines()).0 == r@,
        match r.error {
            Some(e) => spec_parse(lines.spec_lines()).1 == Some(e@),
            None => spec_parse(lines.spec_lines()).1 is None && r@.well_formed(),
        },
{
    let (error, parsed) = match Parser::parse(lines) {
        Ok(parsed) => (None, parsed),
        Err((e, parsed)) => (Some(e), parsed),
    };
    Parse3Result {
        error,
        tick_stream: parsed.tick_stream,
        measures: parsed.measures,
        base_notes: parsed.base_notes,
        offsets: parsed.offsets,
    }
}

} // verus!

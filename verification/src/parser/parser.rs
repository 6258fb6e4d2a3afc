//! The streaming column parser.
use vstd::prelude::*;
use vstd::slice::slice_subrange;
use core::ops::RangeInclusive;
use crate::backend::errors::backend_error::{BackendError, BackendErrorView};
use crate::parser::laws::lemma_close_measure_covers;
use crate::parser::locator::column_now;
use crate::parser::model::{
    body_of, close_measure, closing_measure, column_loop, column_while_parsing, failure_error,
    index_after, input_fits, is_space, lemma_leading_spaces_is, measures_chained,
    offsets_sorted,
    lemma_total_len_grows, lemma_trailing_spaces_is, line_is_tab, parse_from, part_bodies,
    prelude, refused_char, spec_location, spec_parse, strip_bar, total_len, trim_ascii, views_of,
    ColumnState, ParseView, TickFailure,
};
use crate::parser::tab_element::TabElement3;
use crate::parser::{byte_is_name, expect_byte, string_name, BAR};
use crate::ParseLines;

pub use crate::parser::dump::{dump_source, dump_tracks};
pub use crate::parser::locator::{source_location_from_stream, source_location_while_parsing};
pub use crate::parser::tick::read_tick;

verus! {

/// Tests whether `b` is ASCII whitespace.
pub fn byte_is_space(b: u8) -> (r: bool)
    ensures
        r == is_space(b),
{
    b == 32 || b == 9 || b == 10 || b == 12 || b == 13
}

/// The line without the ASCII whitespace around it.
pub fn trim_line(line: &[u8]) -> (t: &[u8])
    ensures
        t@ == trim_ascii(line@),
        t@.len() <= line@.len(),
{
    let mut start: usize = 0;
    while start < line.len() && byte_is_space(line[start])
        invariant
            start <= line.len(),
            forall|j: int| 0 <= j < start ==> is_space(#[trigger] line@[j]),
        decreases line.len() - start,
    {
        start = start + 1;
    }
    proof {
        lemma_leading_spaces_is(line@, start as nat);
    }
    if start == line.len() {
        let t = slice_subrange(line, 0, 0);
        assert(t@ =~= Seq::<u8>::empty());
        return t;
    }
    let mut end: usize = line.len();
    while end > start + 1 && byte_is_space(line[end - 1])
        invariant
            start < end <= line.len(),
            !is_space(line@[start as int]),
            forall|j: int| end <= j < line.len() ==> is_space(#[trigger] line@[j]),
        decreases end,
    {
        end = end - 1;
    }
    proof {
        lemma_trailing_spaces_is(line@, (line.len() - end) as nat);
    }
    slice_subrange(line, start, end)
}

/// Tests whether `line` is a tab line: trimmed, it starts with a string name
/// and a barline, and ends with a barline.
pub fn line_is_valid(line: &[u8]) -> (r: bool)
    ensures
        r == line_is_tab(line@),
{
    let t = trim_line(line);
    t.len() >= 2 && byte_is_name(t[0]) && t[1] == BAR && t[t.len() - 1] == BAR
}

/// A measure: the inclusive range of stream indices that it covers.
#[derive(Debug)]
pub struct Measure {
    pub data_range: RangeInclusive<u32>,
}

impl Measure {
    /// The first and the last stream index of the measure.
    pub open spec fn bounds(&self) -> (u32, u32) {
        (self.data_range@.start, self.data_range@.end)
    }

    pub fn from(range: RangeInclusive<u32>) -> (m: Self)
        ensures
            m.data_range == range,
    {
        Self { data_range: range }
    }
}

/// The measures as pairs of first and last stream index.
pub open spec fn measure_bounds(measures: Seq<Measure>) -> Seq<(u32, u32)> {
    Seq::new(measures.len(), |i: int| measures[i].bounds())
}

/// The parser: what it has parsed so far.
#[derive(Debug)]
pub struct Parser {
    tick_stream: Vec<TabElement3>,
    measures: Vec<Measure>,
    base_notes: Vec<char>,
    /// The line on which the n-th part begins and the index of the first atom in that part.
    offsets: Vec<(u32, u32)>,
}

/// The result of a parse.
#[derive(Debug)]
pub struct ParserResult {
    pub tick_stream: Vec<TabElement3>,
    pub measures: Vec<Measure>,
    pub base_notes: Vec<char>,
    /// The line on which the n-th part begins and the index of the first atom in that part.
    pub offsets: Vec<(u32, u32)>,
}

/// A borrowed look at what a parse has produced.
pub struct ParserRef<'a> {
    pub tick_stream: &'a [TabElement3],
    pub measures: &'a [Measure],
    pub base_notes: &'a [char],
    pub offsets: &'a [(u32, u32)],
}

impl View for Parser {
    type V = ParseView;

    closed spec fn view(&self) -> ParseView {
        ParseView {
            tick_stream: self.tick_stream@,
            measures: measure_bounds(self.measures@),
            base_notes: self.base_notes@,
            offsets: self.offsets@,
        }
    }
}

impl View for ParserResult {
    type V = ParseView;

    open spec fn view(&self) -> ParseView {
        ParseView {
            tick_stream: self.tick_stream@,
            measures: measure_bounds(self.measures@),
            base_notes: self.base_notes@,
            offsets: self.offsets@,
        }
    }
}

impl<'a> View for ParserRef<'a> {
    type V = ParseView;

    open spec fn view(&self) -> ParseView {
        ParseView {
            tick_stream: self.tick_stream@,
            measures: measure_bounds(self.measures@),
            base_notes: self.base_notes@,
            offsets: self.offsets@,
        }
    }
}

/// The stream index after a measure that ends at `end`.
pub fn after(end: u32) -> (r: u32)
    ensures
        r == index_after(end),
{
    if end == u32::MAX {
        0
    } else {
        end + 1
    }
}

impl Parser {
    pub fn new() -> (p: Self)
        ensures
            p@ == ParseView::empty(),
    {
        let p = Parser {
            tick_stream: Vec::new(),
            measures: Vec::new(),
            base_notes: Vec::new(),
            offsets: Vec::new(),
        };
        assert(measure_bounds(p.measures@) =~= Seq::empty());
        p
    }

    pub fn clear(&mut self)
        ensures
            final(self)@ == ParseView::empty(),
    {
        self.tick_stream.clear();
        self.measures.clear();
        self.base_notes.clear();
        self.offsets.clear();
        assert(measure_bounds(self.measures@) =~= Seq::empty());
    }

    /// Finish the current measure.
    pub fn new_measure(&mut self)
        requires
            old(self)@.tick_stream.len() <= u32::MAX,
        ensures
            final(self)@ == close_measure(old(self)@),
    {
        let start: u32 = if self.measures.len() == 0 {
            0
        } else {
            after(*self.measures[self.measures.len() - 1].data_range.end())
        };
        let end: u32 = if self.tick_stream.len() == 0 {
            u32::MAX
        } else {
            (self.tick_stream.len() - 1) as u32
        };
        self.measures.push(Measure::from(RangeInclusive::new(start, end)));
        assert(measure_bounds(self.measures@) =~= measure_bounds(old(self).measures@).push(
            closing_measure(old(self)@.measures, old(self)@.tick_stream.len()),
        ));
    }

    pub fn into_result(self) -> (r: ParserResult)
        ensures
            r@ == self@,
    {
        let Parser { tick_stream, measures, base_notes, offsets } = self;
        ParserResult { tick_stream, measures, base_notes, offsets }
    }

    pub fn as_ref<'a>(&'a self) -> (r: ParserRef<'a>)
        ensures
            r@ == self@,
    {
        ParserRef {
            tick_stream: self.tick_stream.as_slice(),
            measures: self.measures.as_slice(),
            base_notes: self.base_notes.as_slice(),
            offsets: self.offsets.as_slice(),
        }
    }
}

impl ParserResult {
    pub fn into_parser(self) -> (p: Parser)
        ensures
            p@ == self@,
    {
        let ParserResult { tick_stream, measures, base_notes, offsets } = self;
        Parser { tick_stream, measures, base_notes, offsets }
    }

    pub fn as_ref<'a>(&'a self) -> (r: ParserRef<'a>)
        ensures
            r@ == self@,
    {
        ParserRef {
            tick_stream: self.tick_stream.as_slice(),
            measures: self.measures.as_slice(),
            base_notes: self.base_notes.as_slice(),
            offsets: self.offsets.as_slice(),
        }
    }
}

/// The character shown for a byte that the codec refused.
fn refused(byte: Option<u8>) -> (c: char)
    ensures
        c == refused_char(byte),
{
    match byte {
        Some(b) => b as char,
        None => 0u8 as char,
    }
}

impl Parser {
    /// The error for a tick that could not be read, in the part that starts
    /// on line `first_line`, with the column taken from what has been parsed.
    fn tick_error(&self, failure: TickFailure, first_line: usize) -> (e: BackendError)
        requires
            first_line + 5 <= u32::MAX,
            failure.in_range(),
        ensures
            e@ == failure_error(failure, first_line as int, column_while_parsing(self@) as int),
    {
        let first: u32 = first_line as u32;
        match failure {
            TickFailure::Rejected { string, second, why, byte } => {
                let column = column_now(
                    &self.as_ref(),
                    if second {
                        1
                    } else {
                        0
                    },
                );
                match why {
                    Some(_) => BackendError::large_fret(first + string as u32, column),
                    None => BackendError::parse3_invalid_character(
                        first + string as u32,
                        column,
                        refused(byte),
                    ),
                }
            },
            TickFailure::BothSlotsMultichar { string, other } => {
                let column = column_now(&self.as_ref(), 0);
                BackendError::both_slots_multichar(
                    first + other as u32,
                    column,
                    first + string as u32,
                )
            },
            TickFailure::BothSlotsFilled { string } => {
                let column = column_now(&self.as_ref(), 1);
                BackendError::multi_both_slots_filled(first + string as u32, column)
            },
        }
    }

    /// Reads the heads of the six lines of the part that starts on line `p`:
    /// records their base notes and gives what stands between their barlines.
    fn read_heads<'a, L: ParseLines>(&mut self, lines: &'a L, p: usize) -> (r: Result<
        Vec<&'a [u8]>,
        BackendError,
    >)
        requires
            lines.lines_wf(),
            p + 5 < lines.spec_lines().len(),
            p + 5 <= usize::MAX,
        ensures
            final(self)@ == (ParseView {
                base_notes: prelude(lines.spec_lines(), p as int, 0, old(self)@.base_notes).0,
                ..old(self)@
            }),
            match r {
                Ok(bodies) => {
                    &&& prelude(lines.spec_lines(), p as int, 0, old(self)@.base_notes).1 is None
                    &&& final(self)@.base_notes.len() == old(self)@.base_notes.len() + 6
                    &&& bodies.len() == 6
                    &&& views_of(bodies@) == part_bodies(lines.spec_lines(), p as int)
                    &&& bodies[0]@.len() <= lines.spec_lines()[p as int].len()
                },
                Err(e) => prelude(lines.spec_lines(), p as int, 0, old(self)@.base_notes).1 == Some(
                    e@,
                ),
            },
    {
        let ghost all = lines.spec_lines();
        let ghost goal = prelude(all, p as int, 0, self@.base_notes);
        let mut bodies: Vec<&'a [u8]> = Vec::new();
        let mut i: usize = 0;
        while i < 6
            invariant
                i <= 6,
                lines.lines_wf(),
                all == lines.spec_lines(),
                p + 5 < all.len(),
                p + 5 <= usize::MAX,
                goal == prelude(all, p as int, 0, old(self)@.base_notes),
                goal == prelude(all, p as int, i as int, self@.base_notes),
                self@ == (ParseView { base_notes: self@.base_notes, ..old(self)@ }),
                self@.base_notes.len() == old(self)@.base_notes.len() + i,
                bodies.len() == i,
                forall|j: int|
                    0 <= j < i ==> (#[trigger] bodies[j])@ == body_of(trim_ascii(all[p + j])),
                i > 0 ==> bodies[0]@.len() <= all[p as int].len(),
            decreases 6 - i,
        {
            let line = lines.get_line(p + i);
            let t = trim_line(line);
            let (after_name, name) = match string_name(t) {
                Ok(read) => read,
                Err(_) => {
                    return Err(BackendError::parse3_invalid_string_name(p + i));
                },
            };
            self.base_notes.push(name);
            let after_bar = match expect_byte(BAR, after_name) {
                Ok((rest, _)) => rest,
                Err(_) => {
                    return Err(BackendError::parse3_invalid_string_name(p + i));
                },
            };
            assert(after_bar@ =~= t@.skip(2));
            if after_bar.len() == 0 || after_bar[after_bar.len() - 1] != BAR {
                return Err(BackendError::no_closing_barline(p + i));
            }
            let body = slice_subrange(after_bar, 0, after_bar.len() - 1);
            assert(body@ =~= body_of(t@));
            bodies.push(body);
            i = i + 1;
        }
        assert(views_of(bodies@) =~= part_bodies(all, p as int));
        Ok(bodies)
    }

    /// Runs the column loop over the six strings `bodies` of the part that
    /// starts on line `first_line`.
    fn read_columns<'a>(&mut self, strings: Vec<&'a [u8]>, first_line: usize) -> (r: Result<
        (),
        BackendError,
    >)
        requires
            strings.len() == 6,
            first_line + 5 <= u32::MAX,
            old(self)@.tick_stream.len() + 6 * strings[0]@.len() <= u32::MAX,
        ensures
            old(self)@.partly_formed() && old(self)@.offsets.len() > 0
                ==> final(self)@.partly_formed(),
            final(self)@.base_notes == old(self)@.base_notes,
            final(self)@.offsets == old(self)@.offsets,
            column_loop(
                ColumnState {
                    bodies: views_of(strings@),
                    tick: 0,
                    budget: strings[0]@.len() as int,
                    parsed: old(self)@,
                },
                first_line as int,
            ) == (
                final(self)@,
                match r {
                    Ok(_) => None,
                    Err(e) => Some(e@),
                },
            ),
            final(self)@.tick_stream.len() <= old(self)@.tick_stream.len() + 6 * strings[0]@.len(),
    {
        let ghost limit = self@.tick_stream.len() + 6 * strings[0]@.len();
        let ghost goal = column_loop(
            ColumnState {
                bodies: views_of(strings@),
                tick: 0,
                budget: strings[0]@.len() as int,
                parsed: self@,
            },
            first_line as int,
        );
        let ghost given = strings@;
        let mut bodies = strings;
        let mut tick: usize = 0;
        let mut budget: usize = bodies[0].len();
        while tick < budget
            invariant
                bodies.len() == 6,
                given.len() == 6,
                given == strings@,
                old(self)@.partly_formed() && old(self)@.offsets.len() > 0
                    ==> self@.partly_formed(),
                self@.base_notes == old(self)@.base_notes,
                self@.offsets == old(self)@.offsets,
                first_line + 5 <= u32::MAX,
                limit <= u32::MAX,
                limit == old(self)@.tick_stream.len() + 6 * given[0]@.len(),
                goal == column_loop(
                    ColumnState {
                        bodies: views_of(given),
                        tick: 0,
                        budget: given[0]@.len() as int,
                        parsed: old(self)@,
                    },
                    first_line as int,
                ),
                self@.tick_stream.len() + 6 * bodies[0]@.len() <= limit,
                goal == column_loop(
                    ColumnState {
                        bodies: views_of(bodies@),
                        tick: tick as int,
                        budget: budget as int,
                        parsed: self@,
                    },
                    first_line as int,
                ),
            decreases budget - tick + 1,
        {
            let ghost views = views_of(bodies@);
            assert(views[0] == bodies[0]@);
            if bodies[0].len() > 0 && bodies[0][0] == BAR {
                proof {
                    if self@.partly_formed() && self@.offsets.len() > 0 {
                        lemma_close_measure_covers(self@);
                    }
                }
                self.new_measure();
                let mut stripped: Vec<&'a [u8]> = Vec::new();
                let mut s: usize = 0;
                while s < 6
                    invariant
                        s <= 6,
                        bodies.len() == 6,
                        stripped.len() == s,
                        views == views_of(bodies@),
                        forall|j: int|
                            0 <= j < s ==> (#[trigger] stripped[j])@ == strip_bar(views)[j],
                    decreases 6 - s,
                {
                    let body: &'a [u8] = bodies[s];
                    assert(views[s as int] == body@);
                    if body.len() > 0 {
                        stripped.push(slice_subrange(body, 1, body.len()));
                    } else {
                        stripped.push(body);
                    }
                    s = s + 1;
                }
                assert(views_of(stripped@) =~= strip_bar(views));
                bodies = stripped;
                budget = budget - 1;
            } else {
                match read_tick(&mut bodies) {
                    Ok((mut atoms, wide)) => {
                        self.tick_stream.append(&mut atoms);
                        if wide {
                            budget = budget - 1;
                        }
                        tick = tick + 1;
                    },
                    Err(failure) => {
                        return Err(self.tick_error(failure, first_line));
                    },
                }
            }
        }
        Ok(())
    }

    /// Parses `lines` and adds what they hold to what has been parsed.
    /// Stops at the first error.
    pub fn parse_inner<L: ParseLines>(&mut self, lines: &L) -> (r: Result<(), BackendError>)
        requires
            lines.lines_wf(),
            input_fits(lines.spec_lines(), old(self)@.tick_stream.len()),
        ensures
            parse_from(lines.spec_lines(), 0, old(self)@) == (
                final(self)@,
                match r {
                    Ok(_) => None,
                    Err(e) => Some(e@),
                },
            ),
            old(self)@.well_formed() && r is Ok ==> final(self)@.well_formed(),
            final(self)@.tick_stream.len() + 6 <= u32::MAX,
    {
        let ghost all = lines.spec_lines();
        let ghost goal = parse_from(all, 0, self@);
        let ghost already = self@.tick_stream.len();
        let count = lines.line_count();
        let mut part_first_line: usize = 0;
        assert(all.take(0) =~= Seq::<Seq<u8>>::empty());
        while count >= 6 && part_first_line < count - 5
            invariant
                lines.lines_wf(),
                all == lines.spec_lines(),
                count == all.len(),
                count <= u32::MAX,
                part_first_line <= count,
                already + 6 * total_len(all) + 6 <= u32::MAX,
                goal == parse_from(all, 0, old(self)@),
                old(self)@.well_formed() ==> self@.well_formed(),
                self@.tick_stream.len() <= already + 6 * total_len(all.take(part_first_line as int)),
                goal == parse_from(all, part_first_line as int, self@),
            decreases count - part_first_line,
        {
            let first = lines.get_line(part_first_line);
            let last = lines.get_line(part_first_line + 5);
            if line_is_valid(first) && line_is_valid(last) {
                proof {
                    lemma_total_len_grows(all, part_first_line as int, part_first_line + 6);
                    lemma_total_len_grows(all, part_first_line + 6, all.len() as int);
                    assert(all.take(all.len() as int) =~= all);
                }
                self.offsets.push((part_first_line as u32, self.tick_stream.len() as u32));
                let bodies = match self.read_heads(lines, part_first_line) {
                    Ok(bodies) => bodies,
                    Err(e) => {
                        return Err(e);
                    },
                };
                match self.read_columns(bodies, part_first_line) {
                    Ok(_) => {},
                    Err(e) => {
                        return Err(e);
                    },
                }
                proof {
                    if self@.partly_formed() && self@.offsets.len() > 0 {
                        lemma_close_measure_covers(self@);
                    }
                }
                self.new_measure();
                part_first_line = part_first_line + 6;
            } else {
                proof {
                    lemma_total_len_grows(all, part_first_line as int, part_first_line + 1);
                }
                part_first_line = part_first_line + 1;
            }
        }
        proof {
            lemma_total_len_grows(all, part_first_line as int, all.len() as int);
            assert(all.take(all.len() as int) =~= all);
        }
        Ok(())
    }

    /// Parses `lines`. Gives the parse result, and with it the error that
    /// stopped the parser, if one did.
    pub fn parse<L: ParseLines>(lines: &L) -> (r: Result<ParserResult, (BackendError, ParserResult)>)
        requires
            lines.lines_wf(),
            input_fits(lines.spec_lines(), 0),
        ensures
            match r {
                Ok(parsed) => spec_parse(lines.spec_lines()) == (parsed@, None::<BackendErrorView>)
                    && parsed@.well_formed() && parsed@.tick_stream.len() + 6 <= u32::MAX,
                Err((e, parsed)) => spec_parse(lines.spec_lines()) == (parsed@, Some(e@)),
            },
    {
        let mut parser = Self::new();
        match parser.parse_inner(lines) {
            Ok(_) => Ok(parser.into_result()),
            Err(y) => Err((y, parser.into_result())),
        }
    }
}

impl Parser {
    /// The line and the column of the atom at stream index `tick_location`.
    pub fn source_location_from_stream(&self, tick_location: u32) -> (loc: (u32, u32))
        requires
            self@.offsets.len() > 0,
            self@.offsets[0].1 <= tick_location,
            6 * (tick_location as int / 6) <= self@.tick_stream.len(),
            offsets_sorted(self@.offsets),
            measures_chained(self@.measures),
        ensures
            loc == spec_location(self@, tick_location),
    {
        source_location_from_stream(&self.as_ref(), tick_location)
    }
}

/// Tests whether the lines are few and short enough for the parser: whether
/// line numbers and stream indices will fit in a `u32`.
pub fn fits<L: ParseLines>(lines: &L) -> (r: bool)
    requires
        lines.lines_wf(),
    ensures
        r == input_fits(lines.spec_lines(), 0),
{
    let ghost all = lines.spec_lines();
    let count = lines.line_count();
    if count > u32::MAX as usize {
        return false;
    }
    let limit: usize = ((u32::MAX - 6) / 6) as usize;
    let mut total: usize = 0;
    let mut i: usize = 0;
    assert(all.take(0) =~= Seq::<Seq<u8>>::empty());
    while i < count
        invariant
            lines.lines_wf(),
            all == lines.spec_lines(),
            count == all.len(),
            i <= count,
            limit == (u32::MAX - 6) / 6,
            total == total_len(all.take(i as int)),
            total <= limit,
        decreases count - i,
    {
        let len = lines.get_line(i).len();
        proof {
            lemma_total_len_grows(all, i as int, i + 1);
            lemma_total_len_grows(all, i + 1, all.len() as int);
            assert(all.take(all.len() as int) =~= all);
            assert(all.take(i + 1).drop_last() =~= all.take(i as int));
        }
        if len > limit - total {
            return false;
        }
        total = total + len;
        i = i + 1;
    }
    assert(all.take(all.len() as int) =~= all);
    true
}

} // verus!

//! The fixup driver: parses, mends what it can mend, and parses again.
use vstd::prelude::*;
use crate::backend::errors::backend_error::{BackendError, BackendErrorView};
use crate::backend::errors::backend_error_kind::BackendErrorKind;
use crate::backend::errors::diagnostic::{Diagnostic, DiagnosticSeverity};
use crate::backend::errors::diagnostic_kind::DiagnosticKind;
use crate::backend::errors::error_location::ErrorLocation;
use crate::parser::model::{
    input_fits, is_space, lemma_trailing_spaces_is, spec_parse, total_len, trailing_spaces,
};
use crate::parser::parser::{byte_is_space, dump_tracks, fits, Parser};
use crate::parser::tab_element::TabElement3;
use vstd::slice::slice_to_vec;
use vstd::string::StringSliceAdditionalSpecFns;
use core::ops::RangeInclusive;
use crate::parser::{BAR, DASH};
use crate::ParseLines;

verus! {

/// The backend that mends a score until it parses.
pub struct FixupBackend();

/// What the fixup backend writes in place of the mended score.
#[derive(Clone, Copy, Debug, PartialEq, Eq, Structural)]
pub enum FixupDumpOptions {
    TickStream,
    PrettyTracks,
}

#[derive(Clone, Copy, Debug)]
pub struct FixupBackendSettings {
    pub dump: Option<FixupDumpOptions>,
}

/// The locations of the last five errors, oldest first, and how many were
/// recorded in all.
pub struct LocationTracker {
    pub data: [ErrorLocation; 5],
    pub push_cnt: u32,
}

impl LocationTracker {
    /// Five locations were recorded at least, and the last five are one and
    /// the same.
    pub open spec fn stuck(&self) -> bool {
        self.push_cnt > 4 && self.data@[0] == self.data@[1] && self.data@[1] == self.data@[2]
            && self.data@[2] == self.data@[3] && self.data@[3] == self.data@[4]
    }

    /// The tracker after `l` was recorded: the oldest location leaves, `l`
    /// comes last, and the count goes up as far as a `u32` counts.
    pub open spec fn added(&self, l: ErrorLocation) -> LocationTracker {
        LocationTracker {
            data: [self.data@[1], self.data@[2], self.data@[3], self.data@[4], l],
            push_cnt: if self.push_cnt == u32::MAX {
                u32::MAX
            } else {
                (self.push_cnt + 1) as u32
            },
        }
    }

    pub fn new() -> (t: Self)
        ensures
            t == fresh_tracker(),
            !t.stuck(),
    {
        Self {
            data: [
                ErrorLocation::NoLocation,
                ErrorLocation::NoLocation,
                ErrorLocation::NoLocation,
                ErrorLocation::NoLocation,
                ErrorLocation::NoLocation,
            ],
            push_cnt: 0,
        }
    }

    /// Records the location `l` as the latest.
    pub fn add(&mut self, l: ErrorLocation)
        ensures
            *final(self) == old(self).added(l),
    {
        let shifted = [self.data[1], self.data[2], self.data[3], self.data[4], l];
        self.data = shifted;
        if self.push_cnt < u32::MAX {
            self.push_cnt = self.push_cnt + 1;
        }
    }

    /// Tests whether the last five locations recorded are one and the same.
    pub fn is_same(&self) -> (same: bool)
        ensures
            same == self.stuck(),
    {
        self.push_cnt > 4 && self.data[0] == self.data[1] && self.data[1] == self.data[2]
            && self.data[2] == self.data[3] && self.data[3] == self.data[4]
    }
}

/// A tracker that has recorded the same location five times in a row is
/// stuck, whatever it held before.
pub proof fn lemma_five_identical_locations_stick(t: LocationTracker, l: ErrorLocation)
    ensures
        t.added(l).added(l).added(l).added(l).added(l).stuck(),
{
    let t5 = t.added(l).added(l).added(l).added(l).added(l);
    assert(t5.data@ =~= seq![l, l, l, l, l]);
}

/// What the driver works on: its copy of the lines, the locations of the
/// last errors, and the diagnostics of what it has mended.
pub struct FixupState {
    pub lines: Seq<Seq<u8>>,
    pub tracker: LocationTracker,
    pub diagnostics: Seq<Diagnostic>,
}

/// How one round of the driver ends.
pub enum RoundEnd {
    /// The text parses: the driver is done.
    Healed,
    /// The driver stops with this error.
    Failed(BackendErrorView),
    /// Something was mended: the driver goes on.
    Again,
}

/// `line` without the ASCII whitespace at its end, and a barline after it.
pub open spec fn with_barline(line: Seq<u8>) -> Seq<u8> {
    line.take(line.len() - trailing_spaces(line)).push(BAR)
}

/// `lines` with a barline added to line `l`, where there is such a line.
pub open spec fn barline_added(lines: Seq<Seq<u8>>, l: int) -> Seq<Seq<u8>> {
    if 0 <= l < lines.len() {
        lines.update(l, with_barline(lines[l]))
    } else {
        lines
    }
}

/// `lines` with a rest written over the byte at column `c` of line `l`,
/// where there is such a byte.
pub open spec fn dashed(lines: Seq<Seq<u8>>, l: int, c: int) -> Seq<Seq<u8>> {
    if 0 <= l < lines.len() && 0 <= c < lines[l].len() {
        lines.update(l, lines[l].update(c, DASH))
    } else {
        lines
    }
}

/// The error with which the driver gives up at `location`.
pub open spec fn gave_up(location: ErrorLocation) -> BackendErrorView {
    BackendErrorView {
        main_location: location,
        first_line: match location.spec_line_idx() {
            Some(l) => l,
            None => 0,
        },
        last_line: match location.spec_line_idx() {
            Some(l) => l,
            None => 0,
        },
        kind: BackendErrorKind::FixupFailed,
    }
}

/// What the driver does about a parse error: the mended lines and the kind
/// of the diagnostic, for the three kinds of error that it can mend. A
/// missing closing barline is added, an invalid character is overwritten
/// with a rest, and two atoms under a wide tick are overwritten with two rests.
pub open spec fn mended(lines: Seq<Seq<u8>>, err: BackendErrorView) -> Option<
    (Seq<Seq<u8>>, DiagnosticKind),
> {
    let line = err.main_location.spec_line_idx();
    let column = err.main_location.spec_char_idx();
    match err.kind {
        BackendErrorKind::NoClosingBarline => Some(
            (
                match line {
                    Some(l) => barline_added(lines, l as int),
                    None => lines,
                },
                DiagnosticKind::FormatAddedBarline,
            ),
        ),
        BackendErrorKind::Parse3InvalidCharacter(_) => Some(
            (
                match (line, column) {
                    (Some(l), Some(c)) => dashed(lines, l as int, c as int),
                    _ => lines,
                },
                DiagnosticKind::FormatReplacedInvalid,
            ),
        ),
        BackendErrorKind::MultiBothSlotsFilled => Some(
            (
                match (line, column) {
                    (Some(l), Some(c)) => dashed(dashed(lines, l as int, c as int), l as int, c + 1),
                    _ => lines,
                },
                DiagnosticKind::FormatReplacedInvalid,
            ),
        ),
        _ => None,
    }
}

/// One round of the driver, on a text that the parser takes. A text that
/// parses is healed. Else the location of the error is recorded, and the
/// driver gives up there with `FixupFailed` when the last five locations
/// recorded are one and the same. Else it stops with the error of the
/// parser as it is: where `last` says that this is the last round it may
/// take, where the error is not one that it mends, and where the mended
/// text has grown beyond what the parser takes. Else it goes on with the
/// mended text and one more diagnostic. Gives the state after the round,
/// and how the round ended.
pub open spec fn fixup_round(st: FixupState, last: bool) -> (FixupState, RoundEnd) {
    match spec_parse(st.lines).1 {
        None => (st, RoundEnd::Healed),
        Some(err) => {
            let recorded = FixupState { tracker: st.tracker.added(err.main_location), ..st };
            if recorded.tracker.stuck() {
                (recorded, RoundEnd::Failed(gave_up(err.main_location)))
            } else if last {
                (recorded, RoundEnd::Failed(err))
            } else {
                match mended(st.lines, err) {
                    None => (recorded, RoundEnd::Failed(err)),
                    Some((lines, kind)) => (
                        FixupState {
                            lines,
                            diagnostics: st.diagnostics.push(
                                Diagnostic {
                                    location: err.main_location,
                                    kind,
                                    severity: DiagnosticSeverity::Info,
                                },
                            ),
                            ..recorded
                        },
                        if input_fits(lines, 0) {
                            RoundEnd::Again
                        } else {
                            RoundEnd::Failed(err)
                        },
                    ),
                }
            }
        },
    }
}

/// What the driver ends with after at most `rounds` rounds from `st`: the
/// state it stops in, with the lines as it has mended them and the
/// diagnostics, and the error with which it stopped, if it did.
pub open spec fn fixup_rounds(st: FixupState, rounds: nat) -> (FixupState, Option<BackendErrorView>)
    decreases rounds,
{
    let round = fixup_round(st, rounds <= 1);
    match round.1 {
        RoundEnd::Healed => (round.0, None),
        RoundEnd::Failed(e) => (round.0, Some(e)),
        RoundEnd::Again => if rounds <= 1 {
            (round.0, None)
        } else {
            fixup_rounds(round.0, (rounds - 1) as nat)
        },
    }
}

/// Fixup progress: when the parser reports an error at the location that
/// the four rounds before have recorded, the driver takes no further
/// round: it gives up at that location, with the lines and the diagnostics
/// as they are, however many rounds it had left.
pub proof fn lemma_fifth_identical_location_stops(
    st: FixupState,
    before: LocationTracker,
    rounds: nat,
)
    requires
        spec_parse(st.lines).1 is Some,
        st.tracker == before.added(spec_parse(st.lines).1->0.main_location).added(
            spec_parse(st.lines).1->0.main_location,
        ).added(spec_parse(st.lines).1->0.main_location).added(
            spec_parse(st.lines).1->0.main_location,
        ),
    ensures
        fixup_rounds(st, rounds).1 == Some(gave_up(spec_parse(st.lines).1->0.main_location)),
        fixup_rounds(st, rounds).0.lines == st.lines,
        fixup_rounds(st, rounds).0.diagnostics == st.diagnostics,
{
    lemma_five_identical_locations_stick(before, spec_parse(st.lines).1->0.main_location);
}

/// Fixup progress, the other way round: the driver gives up with
/// `FixupFailed` only when the locations of the last five errors of the
/// parser, which are what its tracker records, are one and the same. Out
/// of rounds, or with a text grown too large, it stops with the error of
/// the parser instead.
pub proof fn lemma_gives_up_only_when_stuck(st: FixupState, rounds: nat)
    ensures
        fixup_rounds(st, rounds).1 is Some && fixup_rounds(st, rounds).1->0.kind is FixupFailed
            ==> fixup_rounds(st, rounds).0.tracker.stuck(),
    decreases rounds,
{
    let round = fixup_round(st, rounds <= 1);
    crate::parser::laws::lemma_parse_error_kinds(st.lines);
    if round.1 is Again && rounds > 1 {
        lemma_gives_up_only_when_stuck(round.0, (rounds - 1) as nat);
    }
}

/// The number of rounds that the driver may take on `lines`: five for
/// every line and every byte of the text, as far as a `usize` counts.
pub open spec fn round_budget(lines: Seq<Seq<u8>>) -> nat {
    let rounds = 5 * (lines.len() + total_len(lines) + 1);
    if rounds > usize::MAX {
        usize::MAX as nat
    } else {
        rounds
    }
}

/// `lines` joined with line feeds between them.
pub open spec fn joined(lines: Seq<Seq<u8>>, n: int) -> Seq<u8>
    decreases n,
{
    if n <= 0 {
        Seq::empty()
    } else if n == 1 {
        lines[0]
    } else {
        joined(lines, n - 1).push(10u8) + lines[n - 1]
    }
}

/// What the fixup driver hands back.
pub struct FixupOutcome {
    /// The lines as the driver has mended them.
    pub lines: Vec<Vec<u8>>,
    /// One diagnostic for everything that was mended.
    pub diagnostics: Vec<Diagnostic>,
    /// The error with which the driver gave up, if it did.
    pub err: Option<BackendError>,
}

/// Writes a rest over the byte at column `c` of line `l`, where there is
/// such a byte.
fn put_dash(lines: &mut Vec<Vec<u8>>, l: usize, c: usize)
    ensures
        final(lines).spec_lines() == dashed(old(lines).spec_lines(), l as int, c as int),
{
    if l < lines.len() {
        if c < lines[l].len() {
            let line = &mut lines[l];
            line[c] = DASH;
            assert(lines.spec_lines() =~= dashed(old(lines).spec_lines(), l as int, c as int));
            return;
        }
    }
    assert(lines.spec_lines() =~= old(lines).spec_lines());
}

/// Takes the whitespace off the end of line `l` and adds a barline, where
/// there is such a line.
fn add_barline(lines: &mut Vec<Vec<u8>>, l: usize)
    ensures
        final(lines).spec_lines() == barline_added(old(lines).spec_lines(), l as int),
{
    if l < lines.len() {
        let ghost given = lines[l as int]@;
        let mut end: usize = lines[l].len();
        while end > 0 && byte_is_space(lines[l][end - 1])
            invariant
                l < lines.len(),
                lines@ == old(lines)@,
                given == lines[l as int]@,
                end <= given.len(),
                forall|j: int| end <= j < given.len() ==> is_space(#[trigger] given[j]),
            decreases end,
        {
            end = end - 1;
        }
        proof {
            lemma_trailing_spaces_is(given, (given.len() - end) as nat);
        }
        let line = &mut lines[l];
        line.truncate(end);
        line.push(BAR);
        assert(lines.spec_lines() =~= barline_added(old(lines).spec_lines(), l as int));
    } else {
        assert(lines.spec_lines() =~= old(lines).spec_lines());
    }
}

/// The tracker before anything is recorded.
pub open spec fn fresh_tracker() -> LocationTracker {
    LocationTracker {
        data: [
            ErrorLocation::NoLocation,
            ErrorLocation::NoLocation,
            ErrorLocation::NoLocation,
            ErrorLocation::NoLocation,
            ErrorLocation::NoLocation,
        ],
        push_cnt: 0,
    }
}

/// The state in which the driver starts on `lines`.
pub open spec fn fixup_start(lines: Seq<Seq<u8>>) -> FixupState {
    FixupState { lines, tracker: fresh_tracker(), diagnostics: Seq::empty() }
}

/// The number of rounds that the driver may take on `lines`.
fn rounds_for(lines: &Vec<Vec<u8>>) -> (rounds: usize)
    ensures
        rounds == round_budget(lines.spec_lines()),
{
    let ghost all = lines.spec_lines();
    let mut total: usize = 0;
    let mut i: usize = 0;
    assert(all.take(0) =~= Seq::<Seq<u8>>::empty());
    while i < lines.len()
        invariant
            i <= lines.len(),
            all == lines.spec_lines(),
            total == if total_len(all.take(i as int)) > usize::MAX {
                usize::MAX as nat
            } else {
                total_len(all.take(i as int))
            },
        decreases lines.len() - i,
    {
        let len = lines[i].len();
        proof {
            assert(all.take(i + 1).drop_last() =~= all.take(i as int));
            assert(all.take(i + 1).last() == lines[i as int]@);
        }
        total = if len > usize::MAX - total {
            usize::MAX
        } else {
            total + len
        };
        i = i + 1;
    }
    assert(all.take(all.len() as int) =~= all);
    let rounds: u128 = 5 * (lines.len() as u128 + total as u128 + 1);
    if rounds > usize::MAX as u128 {
        usize::MAX
    } else {
        rounds as usize
    }
}

/// The error with which the driver gives up at `location`.
fn give_up(location: ErrorLocation) -> (e: BackendError)
    ensures
        e@ == gave_up(location),
{
    let line = match location.get_line_idx() {
        Some(l) => l,
        None => 0,
    };
    BackendError::fixup_failed(location, RangeInclusive::new(line, line))
}

impl FixupBackend {
    /// Parses `input` and mends what it can mend, until the text parses or
    /// cannot be mended: see `fixup_round`. Hands back the lines as they
    /// were mended, with the diagnostics and the error it stopped with.
    pub fn fixup(input: Vec<Vec<u8>>) -> (outcome: FixupOutcome)
        requires
            input_fits(input.spec_lines(), 0),
        ensures
            outcome.lines.spec_lines() == fixup_rounds(
                fixup_start(input.spec_lines()),
                round_budget(input.spec_lines()),
            ).0.lines,
            outcome.diagnostics@ == fixup_rounds(
                fixup_start(input.spec_lines()),
                round_budget(input.spec_lines()),
            ).0.diagnostics,
            match outcome.err {
                Some(e) => fixup_rounds(
                    fixup_start(input.spec_lines()),
                    round_budget(input.spec_lines()),
                ).1 == Some(e@),
                None => fixup_rounds(
                    fixup_start(input.spec_lines()),
                    round_budget(input.spec_lines()),
                ).1 is None,
            },
            outcome.err is Some && outcome.err->0@.kind is FixupFailed ==> fixup_rounds(
                fixup_start(input.spec_lines()),
                round_budget(input.spec_lines()),
            ).0.tracker.stuck(),
    {
        proof {
            lemma_gives_up_only_when_stuck(
                fixup_start(input.spec_lines()),
                round_budget(input.spec_lines()),
            );
        }
        let ghost goal = fixup_rounds(
            fixup_start(input.spec_lines()),
            round_budget(input.spec_lines()),
        );
        let mut rounds = rounds_for(&input);
        let mut lines = input;
        let mut diagnostics: Vec<Diagnostic> = Vec::new();
        let mut tracker = LocationTracker::new();
        loop
            invariant
                goal == fixup_rounds(
                    fixup_start(input.spec_lines()),
                    round_budget(input.spec_lines()),
                ),
                goal == fixup_rounds(
                    FixupState { lines: lines.spec_lines(), tracker, diagnostics: diagnostics@ },
                    rounds as nat,
                ),
                input_fits(lines.spec_lines(), 0),
                goal.1 is Some && goal.1->0.kind is FixupFailed ==> goal.0.tracker.stuck(),
            decreases rounds,
        {
            let err = match Parser::parse(&lines) {
                Ok(_) => {
                    return FixupOutcome { lines, diagnostics, err: None };
                },
                Err((err, _)) => err,
            };
            let ghost before = FixupState {
                lines: lines.spec_lines(),
                tracker,
                diagnostics: diagnostics@,
            };
            let location = err.main_location;
            tracker.add(location);
            if tracker.is_same() {
                return FixupOutcome { lines, diagnostics, err: Some(give_up(location)) };
            }
            if rounds <= 1 {
                return FixupOutcome { lines, diagnostics, err: Some(err) };
            }
            let kind = match err.kind {
                BackendErrorKind::NoClosingBarline => {
                    match location.get_line_idx() {
                        Some(l) => add_barline(&mut lines, l),
                        None => {},
                    }
                    DiagnosticKind::FormatAddedBarline
                },
                BackendErrorKind::Parse3InvalidCharacter(_) => {
                    match (location.get_line_idx(), location.get_char_idx()) {
                        (Some(l), Some(c)) => put_dash(&mut lines, l, c),
                        _ => {},
                    }
                    DiagnosticKind::FormatReplacedInvalid
                },
                BackendErrorKind::MultiBothSlotsFilled => {
                    match (location.get_line_idx(), location.get_char_idx()) {
                        (Some(l), Some(c)) => {
                            put_dash(&mut lines, l, c);
                            if c < usize::MAX {
                                put_dash(&mut lines, l, c + 1);
                            } else {
                                assert(l < lines.len() ==> lines[l as int]@.len() == lines[l as int].len());
                            }
                        },
                        _ => {},
                    }
                    DiagnosticKind::FormatReplacedInvalid
                },
                _ => {
                    return FixupOutcome { lines, diagnostics, err: Some(err) };
                },
            };
            diagnostics.push(Diagnostic::info(location, kind));
            assert(mended(before.lines, err@) == Some((lines.spec_lines(), kind)));
            if !fits(&lines) {
                return FixupOutcome { lines, diagnostics, err: Some(err) };
            }
            rounds = rounds - 1;
        }
    }
}

/// What the fixup backend hands back: the bytes to write, the diagnostics
/// and the error.
pub struct FixupOutput {
    pub text: Vec<u8>,
    pub diagnostics: Vec<Diagnostic>,
    pub err: Option<BackendError>,
}

/// The debug text of the tick stream, as the `Debug` impl of its atoms
/// prints it. Nothing is claimed of the text.
#[verifier::external_body]
fn debug_text(stream: &Vec<TabElement3>) -> (text: String) {
    format!("{:?}", stream)
}

/// A copy of the lines that can be mended.
pub fn copy_lines<L: ParseLines>(lines: &L) -> (copy: Vec<Vec<u8>>)
    requires
        lines.lines_wf(),
    ensures
        copy.spec_lines() == lines.spec_lines(),
{
    let count = lines.line_count();
    let mut copy: Vec<Vec<u8>> = Vec::new();
    let mut i: usize = 0;
    while i < count
        invariant
            lines.lines_wf(),
            count == lines.spec_lines().len(),
            i <= count,
            copy.len() == i,
            forall|j: int| 0 <= j < i ==> (#[trigger] copy[j])@ == lines.spec_lines()[j],
        decreases count - i,
    {
        copy.push(slice_to_vec(lines.get_line(i)));
        i = i + 1;
    }
    assert(copy.spec_lines() =~= lines.spec_lines());
    copy
}

/// The lines joined with line feeds between them.
pub fn join_lines(lines: &Vec<Vec<u8>>) -> (text: Vec<u8>)
    ensures
        text@ == joined(lines.spec_lines(), lines.len() as int),
{
    let ghost all = lines.spec_lines();
    let mut text: Vec<u8> = Vec::new();
    let mut i: usize = 0;
    while i < lines.len()
        invariant
            i <= lines.len(),
            all == lines.spec_lines(),
            text@ == joined(all, i as int),
        decreases lines.len() - i,
    {
        if i > 0 {
            text.push(10u8);
        }
        let ghost start = text@;
        let line = &lines[i];
        let mut k: usize = 0;
        while k < line.len()
            invariant
                k <= line.len(),
                text@ == start + line@.take(k as int),
            decreases line.len() - k,
        {
            text.push(line[k]);
            assert(text@ =~= start + line@.take(k + 1));
            k = k + 1;
        }
        assert(line@.take(line.len() as int) =~= line@);
        assert(all[i as int] == line@);
        assert(text@ =~= joined(all, i + 1));
        i = i + 1;
    }
    text
}

impl FixupBackend {
    /// Mends `parser_input` and hands back the mended text, or, where the
    /// settings ask for a dump, parses it and hands back the tick stream as
    /// text.
    pub fn process<L: ParseLines>(parser_input: &L, settings: FixupBackendSettings) -> (out: FixupOutput)
        requires
            parser_input.lines_wf(),
            input_fits(parser_input.spec_lines(), 0),
        ensures
            settings.dump is None ==> {
                let end = fixup_rounds(
                    fixup_start(parser_input.spec_lines()),
                    round_budget(parser_input.spec_lines()),
                );
                &&& out.diagnostics@ == end.0.diagnostics
                &&& match out.err {
                    Some(e) => end.1 == Some(e@) && out.text@.len() == 0,
                    None => end.1 is None && out.text@ == joined(
                        end.0.lines,
                        end.0.lines.len() as int,
                    ),
                }
            },
            settings.dump is None && out.err is Some && out.err->0@.kind is FixupFailed
                ==> fixup_rounds(
                fixup_start(parser_input.spec_lines()),
                round_budget(parser_input.spec_lines()),
            ).0.tracker.stuck(),
            settings.dump is Some ==> out.diagnostics@.len() == 0 && match out.err {
                Some(e) => spec_parse(parser_input.spec_lines()).1 == Some(e@),
                None => spec_parse(parser_input.spec_lines()).1 is None,
            },
            settings.dump == Some(FixupDumpOptions::PrettyTracks) ==> out.text@
                == vstd::utf8::encode_utf8(
                crate::parser::model::tracks_text(
                    spec_parse(parser_input.spec_lines()).0.tick_stream,
                    6,
                ).push('\n'),
            ),
    {
        match settings.dump {
            Some(dump) => {
                let (parsed, err) = match Parser::parse(parser_input) {
                    Ok(parsed) => (parsed, None),
                    Err((e, parsed)) => (parsed, Some(e)),
                };
                let mut text = match dump {
                    FixupDumpOptions::TickStream => debug_text(&parsed.tick_stream),
                    FixupDumpOptions::PrettyTracks => dump_tracks(&parsed.as_ref()),
                };
                text.push('\n');
                FixupOutput {
                    text: slice_to_vec(text.as_str().as_bytes()),
                    diagnostics: Vec::new(),
                    err,
                }
            },
            None => {
                let outcome = Self::fixup(copy_lines(parser_input));
                let text = match outcome.err {
                    Some(_) => Vec::new(),
                    None => join_lines(&outcome.lines),
                };
                FixupOutput { text, diagnostics: outcome.diagnostics, err: outcome.err }
            },
        }
    }
}

} // verus!

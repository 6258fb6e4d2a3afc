//! The mathematical model of the tab format: what a line, a part and a tick
//! are, and what the parser makes of them.
use vstd::prelude::*;
use crate::parser::{is_name_byte, BAR, DASH};
use crate::parser::tab_element::{spec_tab_element, TabElement3, TabElementError};
use crate::backend::errors::backend_error::BackendErrorView;
use crate::backend::errors::backend_error_kind::BackendErrorKind;

verus! {

/// `b` is ASCII whitespace: space, tab, line feed, form feed or carriage return.
pub open spec fn is_space(b: u8) -> bool {
    b == 32 || b == 9 || b == 10 || b == 12 || b == 13
}

/// Number of whitespace bytes at the start of `s`.
pub open spec fn leading_spaces(s: Seq<u8>) -> nat
    decreases s.len(),
{
    if s.len() > 0 && is_space(s[0]) {
        1 + leading_spaces(s.skip(1))
    } else {
        0
    }
}

/// Number of whitespace bytes at the end of `s`.
pub open spec fn trailing_spaces(s: Seq<u8>) -> nat
    decreases s.len(),
{
    if s.len() > 0 && is_space(s.last()) {
        1 + trailing_spaces(s.drop_last())
    } else {
        0
    }
}

/// `s` without the ASCII whitespace at its start and at its end.
pub open spec fn trim_ascii(s: Seq<u8>) -> Seq<u8> {
    if leading_spaces(s) >= s.len() {
        Seq::empty()
    } else {
        s.subrange(leading_spaces(s) as int, s.len() - trailing_spaces(s))
    }
}

/// `n` is the number of leading whitespace bytes when the first `n` bytes are
/// whitespace and the next one, if any, is not.
pub proof fn lemma_leading_spaces_is(s: Seq<u8>, n: nat)
    requires
        n <= s.len(),
        forall|j: int| 0 <= j < n ==> is_space(#[trigger] s[j]),
        n == s.len() || !is_space(s[n as int]),
    ensures
        leading_spaces(s) == n,
    decreases n,
{
    if n > 0 {
        let t = s.skip(1);
        assert forall|j: int| 0 <= j < n - 1 implies is_space(#[trigger] t[j]) by {
            assert(t[j] == s[j + 1]);
        }
        lemma_leading_spaces_is(t, (n - 1) as nat);
    }
}

/// `n` is the number of trailing whitespace bytes when the last `n` bytes are
/// whitespace and the one before them, if any, is not.
pub proof fn lemma_trailing_spaces_is(s: Seq<u8>, n: nat)
    requires
        n <= s.len(),
        forall|j: int| s.len() - n <= j < s.len() ==> is_space(#[trigger] s[j]),
        n == s.len() || !is_space(s[s.len() - n - 1]),
    ensures
        trailing_spaces(s) == n,
    decreases n,
{
    if n > 0 {
        let t = s.drop_last();
        assert forall|j: int| t.len() - (n - 1) <= j < t.len() implies is_space(
            #[trigger] t[j],
        ) by {
            assert(t[j] == s[j]);
        }
        lemma_trailing_spaces_is(t, (n - 1) as nat);
    }
}

/// A line is a tab line when, trimmed, it starts with a string name and a
/// barline and ends with a barline.
pub open spec fn line_is_tab(line: Seq<u8>) -> bool {
    let t = trim_ascii(line);
    t.len() >= 2 && is_name_byte(t[0]) && t[1] == BAR && t.last() == BAR
}

/// The trimmed line starts with a string name.
pub open spec fn name_ok(t: Seq<u8>) -> bool {
    t.len() >= 1 && is_name_byte(t[0])
}

/// The trimmed line starts with a string name and the opening barline.
pub open spec fn head_ok(t: Seq<u8>) -> bool {
    name_ok(t) && t.len() >= 2 && t[1] == BAR
}

/// The trimmed line has its name, its opening barline and, after them, a
/// closing barline.
pub open spec fn closed(t: Seq<u8>) -> bool {
    head_ok(t) && t.len() >= 3 && t.last() == BAR
}

/// What lies between the opening and the closing barline of a trimmed line.
pub open spec fn body_of(t: Seq<u8>) -> Seq<u8> {
    t.subrange(2, t.len() - 1)
}

/// The first index in `from..to` at which `p` holds, or `to` where there is none.
pub open spec fn first_where(p: spec_fn(int) -> bool, from: int, to: int) -> int
    decreases to - from,
{
    if from >= to {
        to
    } else if p(from) {
        from
    } else {
        first_where(p, from + 1, to)
    }
}

/// `first_where` is `r` when `p` fails everywhere before `r` and holds at `r`,
/// or `r` is the end.
pub proof fn lemma_first_where_is(p: spec_fn(int) -> bool, from: int, to: int, r: int)
    requires
        from <= r <= to,
        forall|j: int| from <= j < r ==> !#[trigger] p(j),
        r == to || p(r),
    ensures
        first_where(p, from, to) == r,
    decreases r - from,
{
    if from < r {
        lemma_first_where_is(p, from + 1, to, r);
    }
}

/// What `first_where` finds: `p` fails before it and holds at it, unless it is the end.
pub proof fn lemma_first_where(p: spec_fn(int) -> bool, from: int, to: int)
    requires
        from <= to,
    ensures
        from <= first_where(p, from, to) <= to,
        forall|j: int| from <= j < first_where(p, from, to) ==> !#[trigger] p(j),
        first_where(p, from, to) < to ==> p(first_where(p, from, to)),
    decreases to - from,
{
    if from < to && !p(from) {
        lemma_first_where(p, from + 1, to);
    }
}

/// Why a tick could not be read. `string` is the string, from 0 at the top,
/// on which the reading stopped.
#[derive(Debug, PartialEq, Eq, Clone, Copy, Structural)]
pub enum TickFailure {
    /// The codec refused what stands at the start of the string (`second` is
    /// false) or what follows a filler rest under a wide tick (`second` is
    /// true). `byte` is the byte it refused, if the string had one left.
    Rejected { string: usize, second: bool, why: Option<TabElementError>, byte: Option<u8> },
    /// Under a wide tick a filler rest is followed by an atom that is wide
    /// itself. `other` is the first string that is wide at this tick.
    BothSlotsMultichar { string: usize, other: usize },
    /// Under a wide tick the string holds two atoms, none of them a filler.
    BothSlotsFilled { string: usize },
}

impl TickFailure {
    /// The strings that the failure names are among the six.
    pub open spec fn in_range(&self) -> bool {
        match self {
            TickFailure::Rejected { string, .. } => *string < 6,
            TickFailure::BothSlotsMultichar { string, other } => *string < 6 && *other < 6,
            TickFailure::BothSlotsFilled { string } => *string < 6,
        }
    }
}

/// A tick that was read: its six atoms, what is left of the six strings, and
/// whether some atom took more than one column.
pub struct TickRead {
    pub atoms: Seq<TabElement3>,
    pub bodies: Seq<Seq<u8>>,
    pub wide: bool,
}

/// The codec refuses the start of `body`.
pub open spec fn atom_fails(body: Seq<u8>) -> bool {
    spec_tab_element(body) is Err
}

/// The atom at the start of `body`.
pub open spec fn atom_of(body: Seq<u8>) -> TabElement3 {
    spec_tab_element(body)->Ok_0.0
}

/// The number of bytes that the atom at the start of `body` takes.
pub open spec fn width_of(body: Seq<u8>) -> nat {
    spec_tab_element(body)->Ok_0.1
}

/// The first byte of `body`, if it has one.
pub open spec fn first_byte(body: Seq<u8>) -> Option<u8> {
    if body.len() > 0 {
        Some(body[0])
    } else {
        None
    }
}

/// The first of the six strings whose atom takes more than one column, or 6.
pub open spec fn first_wide(bodies: Seq<Seq<u8>>) -> int {
    first_where(|s: int| width_of(bodies[s]) > 1, 0, 6)
}

/// What becomes of one string when some atom of the tick is wide.
pub enum Resync {
    /// The string gives `atom` to the tick and moves on by `used` bytes.
    Keep { atom: TabElement3, used: nat },
    /// The codec refused what follows the filler rest.
    Rejected { why: Option<TabElementError> },
    /// What follows the filler rest is wide itself.
    BothMulti,
    /// Two atoms under a wide tick, none of them a filler.
    BothFilled,
}

/// Resynchronises one string of a wide tick. A wide atom stays. A rest is a
/// filler: the atom after it is the string's atom at this tick. Any other
/// atom stays, and a `-` must follow it as the filler.
pub open spec fn resync_one(body: Seq<u8>) -> Resync {
    let atom = atom_of(body);
    let rest = body.skip(1);
    if width_of(body) > 1 {
        Resync::Keep { atom, used: width_of(body) }
    } else if atom == TabElement3::Rest {
        match spec_tab_element(rest) {
            Err(why) => Resync::Rejected { why },
            Ok((next, width)) => if width > 1 {
                Resync::BothMulti
            } else {
                Resync::Keep { atom: next, used: 2 }
            },
        }
    } else if rest.len() > 0 && rest[0] == DASH {
        Resync::Keep { atom, used: 2 }
    } else {
        Resync::BothFilled
    }
}

/// Reads one tick from the six strings `bodies`. Every string gives one atom.
/// Where one of them is wide, the others are resynchronised, from the top
/// string down; the first string that fails decides the failure.
pub open spec fn spec_tick(bodies: Seq<Seq<u8>>) -> Result<TickRead, TickFailure> {
    let failed = first_where(|s: int| atom_fails(bodies[s]), 0, 6);
    let stuck = first_where(|s: int| !(resync_one(bodies[s]) is Keep), 0, 6);
    if failed < 6 {
        Err(
            TickFailure::Rejected {
                string: failed as usize,
                second: false,
                why: spec_tab_element(bodies[failed])->Err_0,
                byte: first_byte(bodies[failed]),
            },
        )
    } else if first_wide(bodies) >= 6 {
        Ok(
            TickRead {
                atoms: Seq::new(6, |s: int| atom_of(bodies[s])),
                bodies: Seq::new(6, |s: int| bodies[s].skip(1)),
                wide: false,
            },
        )
    } else if stuck < 6 {
        Err(
            match resync_one(bodies[stuck]) {
                Resync::Rejected { why } => TickFailure::Rejected {
                    string: stuck as usize,
                    second: true,
                    why,
                    byte: first_byte(bodies[stuck].skip(1)),
                },
                Resync::BothMulti => TickFailure::BothSlotsMultichar {
                    string: stuck as usize,
                    other: first_wide(bodies) as usize,
                },
                _ => TickFailure::BothSlotsFilled { string: stuck as usize },
            },
        )
    } else {
        Ok(
            TickRead {
                atoms: Seq::new(6, |s: int| resync_one(bodies[s])->Keep_atom),
                bodies: Seq::new(6, |s: int| bodies[s].skip(resync_one(bodies[s])->Keep_used as int)),
                wide: true,
            },
        )
    }
}

/// The byte sequences that the slices in `bodies` hold.
pub open spec fn views_of(bodies: Seq<&[u8]>) -> Seq<Seq<u8>> {
    Seq::new(bodies.len(), |s: int| bodies[s]@)
}

/// What a parse has produced: the interleaved tick stream, the measures as
/// pairs of first and last stream index, one base note per part line, and for
/// every part the line it starts on and the stream index of its first atom.
pub struct ParseView {
    pub tick_stream: Seq<TabElement3>,
    pub measures: Seq<(u32, u32)>,
    pub base_notes: Seq<char>,
    pub offsets: Seq<(u32, u32)>,
}

impl ParseView {
    /// The state before anything is parsed.
    pub open spec fn empty() -> ParseView {
        ParseView {
            tick_stream: Seq::empty(),
            measures: Seq::empty(),
            base_notes: Seq::empty(),
            offsets: Seq::empty(),
        }
    }

    /// The stream index at which the part that was begun last starts.
    pub open spec fn part_start(&self) -> u32 {
        if self.offsets.len() == 0 {
            0
        } else {
            self.offsets.last().1
        }
    }
}

/// The largest rendered width among `atoms`, 0 where there is none.
pub open spec fn max_width(atoms: Seq<TabElement3>) -> nat
    decreases atoms.len(),
{
    if atoms.len() == 0 {
        0
    } else {
        let rest = max_width(atoms.drop_last());
        if atoms.last().spec_repr_len() > rest {
            atoms.last().spec_repr_len()
        } else {
            rest
        }
    }
}

/// The number of source columns that tick `t` of `stream` takes: the largest
/// rendered width among its six atoms.
pub open spec fn tick_width(stream: Seq<TabElement3>, t: int) -> nat {
    max_width(stream.subrange(6 * t, 6 * t + 6))
}

/// The number of source columns that the ticks `from..to` of `stream` take.
pub open spec fn widths_sum(stream: Seq<TabElement3>, from: int, to: int) -> nat
    decreases to - from,
{
    if from >= to {
        0
    } else {
        widths_sum(stream, from, to - 1) + tick_width(stream, to - 1)
    }
}

/// The stream index that follows a measure ending at `end`. The last index
/// of an empty measure at the start of the stream is written `u32::MAX`.
pub open spec fn index_after(end: u32) -> u32 {
    if end == u32::MAX {
        0
    } else {
        (end + 1) as u32
    }
}

/// The measure that closes now: from the end of the last measure to the end
/// of a stream of `stream_len` atoms.
pub open spec fn closing_measure(measures: Seq<(u32, u32)>, stream_len: nat) -> (u32, u32) {
    (
        if measures.len() == 0 {
            0
        } else {
            index_after(measures.last().1)
        },
        if stream_len == 0 {
            u32::MAX
        } else {
            (stream_len - 1) as u32
        },
    )
}

/// `v` with the measure that closes now added.
pub open spec fn close_measure(v: ParseView) -> ParseView {
    ParseView {
        measures: v.measures.push(closing_measure(v.measures, v.tick_stream.len())),
        ..v
    }
}

/// The number of measures at the end of `measures` that start at or after
/// stream index `part_start`.
pub open spec fn measures_since(measures: Seq<(u32, u32)>, part_start: u32) -> nat
    decreases measures.len(),
{
    if measures.len() == 0 || measures.last().0 < part_start {
        0
    } else {
        1 + measures_since(measures.drop_last(), part_start)
    }
}

/// The column, counted from 0 in the trimmed line, at which the next tick of
/// the current part starts: the string name, the opening barline, one column
/// for every barline passed in this part, and the width of every tick read
/// in it.
pub open spec fn column_while_parsing(v: ParseView) -> nat {
    2 + measures_since(v.measures, v.part_start()) + widths_sum(
        v.tick_stream,
        v.part_start() as int / 6,
        v.tick_stream.len() as int / 6,
    )
}

/// `n` as a `u32`, or `u32::MAX` where it is above that.
pub open spec fn clamp_u32(n: int) -> u32 {
    if n > u32::MAX {
        u32::MAX
    } else if n < 0 {
        0
    } else {
        n as u32
    }
}

/// The character shown for a byte that the codec refused: the byte itself,
/// or NUL where the string had ended.
pub open spec fn refused_char(byte: Option<u8>) -> char {
    match byte {
        Some(b) => b as char,
        None => 0u8 as char,
    }
}

/// The error for a tick that could not be read, in the part that starts on
/// line `first_line`, where the tick starts at column `column`. A byte that
/// the codec refused is reported where it stands: at the start of the tick,
/// or one column on where it follows a filler rest. Two wide atoms are
/// reported at the first of them, with the line of the second to show. Two
/// atoms without a filler are reported at the second of them.
pub open spec fn failure_error(f: TickFailure, first_line: int, column: int) -> BackendErrorView {
    match f {
        TickFailure::Rejected { string, second, why, byte } => BackendErrorView::at(
            if why is Some {
                BackendErrorKind::FretTooLarge
            } else {
                BackendErrorKind::Parse3InvalidCharacter(refused_char(byte))
            },
            (first_line + string) as u32,
            clamp_u32(
                if second {
                    column + 1
                } else {
                    column
                },
            ),
        ),
        TickFailure::BothSlotsMultichar { string, other } => BackendErrorView::both_slots_multichar(
            (first_line + other) as u32,
            clamp_u32(column),
            (first_line + string) as u32,
        ),
        TickFailure::BothSlotsFilled { string } => BackendErrorView::at(
            BackendErrorKind::MultiBothSlotsFilled,
            (first_line + string) as u32,
            clamp_u32(column + 1),
        ),
    }
}

/// The state of the column loop: what is left of the six strings, the ticks
/// read in this part, the estimated number of ticks in it, and what has been
/// parsed so far.
pub struct ColumnState {
    pub bodies: Seq<Seq<u8>>,
    pub tick: int,
    pub budget: int,
    pub parsed: ParseView,
}

/// The six strings after a barline: each of them one byte shorter, as far as
/// it has a byte left.
pub open spec fn strip_bar(bodies: Seq<Seq<u8>>) -> Seq<Seq<u8>> {
    Seq::new(
        6,
        |s: int|
            if bodies[s].len() > 0 {
                bodies[s].skip(1)
            } else {
                bodies[s]
            },
    )
}

/// The state after the barline that stands at the start of the top string:
/// the measure is closed, and every string and the budget are one column
/// shorter.
pub open spec fn after_bar(st: ColumnState) -> ColumnState {
    ColumnState {
        bodies: strip_bar(st.bodies),
        budget: st.budget - 1,
        parsed: close_measure(st.parsed),
        ..st
    }
}

/// The state after the tick `read`: its atoms are in the stream, the
/// strings have moved past it, and a wide tick has taken one more column
/// from the budget.
pub open spec fn after_tick(st: ColumnState, read: TickRead) -> ColumnState {
    ColumnState {
        bodies: read.bodies,
        tick: st.tick + 1,
        budget: if read.wide {
            st.budget - 1
        } else {
            st.budget
        },
        parsed: ParseView { tick_stream: st.parsed.tick_stream + read.atoms, ..st.parsed },
    }
}

/// Runs the column loop from `st` to the end of the part: a barline on the
/// top string closes the measure and takes one column from every string and
/// from the budget; anything else is read as a tick, and a wide tick takes
/// one more column from the budget. Gives what has been parsed, and the error
/// of the first tick that could not be read.
pub open spec fn column_loop(st: ColumnState, first_line: int) -> (ParseView, Option<BackendErrorView>)
    decreases st.budget - st.tick + 1,
{
    if st.tick >= st.budget {
        (st.parsed, None)
    } else if first_byte(st.bodies[0]) == Some(BAR) {
        column_loop(after_bar(st), first_line)
    } else {
        match spec_tick(st.bodies) {
            Ok(read) => column_loop(after_tick(st, read), first_line),
            Err(f) => (
                st.parsed,
                Some(failure_error(f, first_line, column_while_parsing(st.parsed) as int)),
            ),
        }
    }
}

/// Reads the heads of the part lines `i..6` of the part that starts on line
/// `p`: each gives its base note, and must have the opening and the closing
/// barline. Gives the base notes, `notes` and the new ones, and the error of
/// the first line that is not so.
pub open spec fn prelude(lines: Seq<Seq<u8>>, p: int, i: int, notes: Seq<char>) -> (
    Seq<char>,
    Option<BackendErrorView>,
)
    decreases 6 - i,
{
    let t = trim_ascii(lines[p + i]);
    if i >= 6 {
        (notes, None)
    } else if !name_ok(t) {
        (notes, Some(BackendErrorView::on_line(BackendErrorKind::InvalidStringName, (p + i) as usize)))
    } else if !head_ok(t) {
        (
            notes.push(t[0] as char),
            Some(BackendErrorView::on_line(BackendErrorKind::InvalidStringName, (p + i) as usize)),
        )
    } else if !closed(t) {
        (
            notes.push(t[0] as char),
            Some(BackendErrorView::on_line(BackendErrorKind::NoClosingBarline, (p + i) as usize)),
        )
    } else {
        prelude(lines, p, i + 1, notes.push(t[0] as char))
    }
}

/// The six strings of the part that starts on line `p`, between their barlines.
pub open spec fn part_bodies(lines: Seq<Seq<u8>>, p: int) -> Seq<Seq<u8>> {
    Seq::new(6, |s: int| body_of(trim_ascii(lines[p + s])))
}

/// Parses the part that starts on line `p`, after `v`: records where it
/// starts, reads the six heads, runs the column loop and closes the last
/// measure.
pub open spec fn parse_part(lines: Seq<Seq<u8>>, p: int, v: ParseView) -> (
    ParseView,
    Option<BackendErrorView>,
) {
    let begun = ParseView {
        offsets: v.offsets.push((p as u32, v.tick_stream.len() as u32)),
        ..v
    };
    let heads = prelude(lines, p, 0, begun.base_notes);
    let named = ParseView { base_notes: heads.0, ..begun };
    let bodies = part_bodies(lines, p);
    let columns = column_loop(
        ColumnState { bodies, tick: 0, budget: bodies[0].len() as int, parsed: named },
        p,
    );
    if heads.1 is Some {
        (named, heads.1)
    } else if columns.1 is Some {
        columns
    } else {
        (close_measure(columns.0), None)
    }
}

/// Line `p` and the line five below it are tab lines: a part starts here.
pub open spec fn is_part_start(lines: Seq<Seq<u8>>, p: int) -> bool {
    0 <= p && p + 5 < lines.len() && line_is_tab(lines[p]) && line_is_tab(lines[p + 5])
}

/// Parses the lines from `from` on, after `v`: skips lines until a part
/// starts, parses the part and goes on six lines below, until fewer than six
/// lines are left or a part fails.
pub open spec fn parse_from(lines: Seq<Seq<u8>>, from: int, v: ParseView) -> (
    ParseView,
    Option<BackendErrorView>,
)
    decreases lines.len() - from,
{
    if from < 0 || from + 5 >= lines.len() {
        (v, None)
    } else if !is_part_start(lines, from) {
        parse_from(lines, from + 1, v)
    } else {
        let part = parse_part(lines, from, v);
        if part.1 is Some {
            part
        } else {
            parse_from(lines, from + 6, part.0)
        }
    }
}

/// What the parser makes of `lines`: the parse result, and the error that
/// stopped it, if one did.
pub open spec fn spec_parse(lines: Seq<Seq<u8>>) -> (ParseView, Option<BackendErrorView>) {
    parse_from(lines, 0, ParseView::empty())
}

/// The number of bytes in `lines`, line ends not counted.
pub open spec fn total_len(lines: Seq<Seq<u8>>) -> nat
    decreases lines.len(),
{
    if lines.len() == 0 {
        0
    } else {
        total_len(lines.drop_last()) + lines.last().len()
    }
}

/// The input is small enough for line numbers and stream indices to fit in
/// a `u32`, when `already` atoms are in the stream: one tick fits after all
/// that the lines can hold.
pub open spec fn input_fits(lines: Seq<Seq<u8>>, already: nat) -> bool {
    lines.len() <= u32::MAX && already + 6 * total_len(lines) + 6 <= u32::MAX
}

/// The first `a` lines hold no more bytes than the first `b`, for `a <= b`.
pub proof fn lemma_total_len_grows(lines: Seq<Seq<u8>>, a: int, b: int)
    requires
        0 <= a <= b <= lines.len(),
    ensures
        total_len(lines.take(a)) <= total_len(lines.take(b)),
        a < b ==> total_len(lines.take(a)) + lines[a].len() <= total_len(lines.take(b)),
    decreases b - a,
{
    if a < b {
        assert(lines.take(b).drop_last() =~= lines.take(b - 1));
        assert(lines.take(b).last() == lines[b - 1]);
        lemma_total_len_grows(lines, a, b - 1);
    }
}

/// The part that `section_of` finds starts at or before `k`, when the first
/// part does.
pub proof fn lemma_section_starts_before(offsets: Seq<(u32, u32)>, k: u32, n: int)
    requires
        0 < n <= offsets.len(),
        offsets[0].1 <= k,
    ensures
        0 <= section_of(offsets, k, n) < n,
        offsets[section_of(offsets, k, n)].1 <= k,
    decreases n,
{
    if n > 1 && offsets[n - 1].1 > k {
        lemma_section_starts_before(offsets, k, n - 1);
    }
}

/// The part that holds stream index `k`: the last of the first `n` parts
/// that starts at or before `k`, or the first part where none does.
pub open spec fn section_of(offsets: Seq<(u32, u32)>, k: u32, n: int) -> int
    decreases n,
{
    if n <= 1 {
        0
    } else if offsets[n - 1].1 <= k {
        n - 1
    } else {
        section_of(offsets, k, n - 1)
    }
}

/// The number of measures among the first `n` that start at or after stream
/// index `part_start` and end before stream index `tick_start`: the barlines
/// that stand in the part before the tick.
pub open spec fn bars_before(measures: Seq<(u32, u32)>, part_start: u32, tick_start: int, n: int) -> nat
    decreases n,
{
    if n <= 0 {
        0
    } else {
        bars_before(measures, part_start, tick_start, n - 1) + if measures[n - 1].0 >= part_start
            && index_after(measures[n - 1].1) <= tick_start {
            1nat
        } else {
            0nat
        }
    }
}

/// The line and the column, counted from 0 in the trimmed line, of the atom
/// at stream index `k`. The line is the first line of the part that holds
/// `k`, plus the string. The column is 2, for the string name and the
/// opening barline, plus one for every barline that stands in the part
/// before the tick, plus the width of every tick of the part before it.
/// What does not fit in a `u32` is given as `u32::MAX`.
pub open spec fn spec_location(v: ParseView, k: u32) -> (u32, u32) {
    let part = v.offsets[section_of(v.offsets, k, v.offsets.len() as int)];
    (
        clamp_u32(part.0 + (k - part.1) % 6),
        clamp_u32(
            (2 + bars_before(v.measures, part.1, 6 * (k as int / 6), v.measures.len() as int)
                + widths_sum(v.tick_stream, part.1 as int / 6, k as int / 6)) as int,
        ),
    )
}

/// The text of one atom, as it stands in the source.
pub open spec fn atom_text(atom: TabElement3) -> Seq<char> {
    match atom {
        TabElement3::Fret(x) => crate::text::decimal_text(x as nat),
        TabElement3::Rest => seq!['-'],
        TabElement3::DeadNote => seq!['x'],
        TabElement3::Slide => seq!['/'],
        TabElement3::Bend => seq!['b'],
        TabElement3::HammerOn => seq!['h'],
        TabElement3::Pull => seq!['p'],
        TabElement3::Release => seq!['r'],
        TabElement3::Vibrato => seq!['~'],
    }
}

/// `n` spaces.
pub open spec fn spaces(n: nat) -> Seq<char> {
    Seq::new(n, |i: int| ' ')
}

/// `text`, followed by spaces up to the width `width`.
pub open spec fn padded(text: Seq<char>, width: nat) -> Seq<char> {
    if text.len() >= width {
        text
    } else {
        text + spaces((width - text.len()) as nat)
    }
}

/// The first `ticks` ticks of string `s`, each atom padded to the width of
/// its tick.
pub open spec fn track_text(stream: Seq<TabElement3>, s: int, ticks: int) -> Seq<char>
    decreases ticks,
{
    if ticks <= 0 {
        Seq::empty()
    } else {
        track_text(stream, s, ticks - 1) + padded(
            atom_text(stream[6 * (ticks - 1) + s]),
            tick_width(stream, ticks - 1),
        )
    }
}

/// The first `strings` strings of the stream, one line each.
pub open spec fn tracks_text(stream: Seq<TabElement3>, strings: int) -> Seq<char>
    decreases strings,
{
    if strings <= 0 {
        Seq::empty()
    } else {
        tracks_text(stream, strings - 1) + track_text(
            stream,
            strings - 1,
            stream.len() as int / 6,
        ) + seq!['\n']
    }
}

/// The stream index at which the measures end: 0 where there is none.
pub open spec fn chain_end(measures: Seq<(u32, u32)>) -> int {
    if measures.len() == 0 {
        0
    } else {
        index_after(measures.last().1) as int
    }
}

/// The measures follow each other without gap or overlap from stream index
/// 0, and each of them covers a whole number of ticks.
pub open spec fn measures_chained(measures: Seq<(u32, u32)>) -> bool {
    &&& measures.len() > 0 ==> measures[0].0 == 0
    &&& forall|i: int, j: int|
        0 <= i && j == i + 1 && j < measures.len() ==> (#[trigger] measures[j]).0 == index_after(
            (#[trigger] measures[i]).1,
        )
    &&& forall|i: int|
        0 <= i < measures.len() ==> (#[trigger] measures[i]).0 <= index_after(measures[i].1) && (
        index_after(measures[i].1) - measures[i].0) % 6 == 0
}

/// The parts stand in the order of the stream: no part starts before the
/// part before it.
pub open spec fn offsets_sorted(offsets: Seq<(u32, u32)>) -> bool {
    forall|i: int, j: int|
        0 <= i <= j < offsets.len() ==> (#[trigger] offsets[i]).1 <= (#[trigger] offsets[j]).1
}

impl ParseView {
    /// The shape that holds while a part is being read: the stream is made
    /// of whole ticks, the measures closed so far follow each other from the
    /// start of the stream and end inside it, the first part starts at the
    /// start of the stream, and the parts stand in the order of the stream.
    pub open spec fn partly_formed(&self) -> bool {
        &&& self.tick_stream.len() % 6 == 0
        &&& self.tick_stream.len() <= u32::MAX
        &&& measures_chained(self.measures)
        &&& chain_end(self.measures) <= self.tick_stream.len()
        &&& self.offsets.len() == 0 ==> self.tick_stream.len() == 0 && self.measures.len() == 0
        &&& self.offsets.len() > 0 ==> self.offsets[0].1 == 0 && self.offsets.last().1
            <= self.tick_stream.len()
        &&& offsets_sorted(self.offsets)
    }

    /// The shape of a finished parse: the stream is made of whole ticks, the
    /// measures cover it from its first index to its last without gap or
    /// overlap, each of them a whole number of ticks, and there are six base
    /// notes for every part.
    pub open spec fn well_formed(&self) -> bool {
        &&& self.partly_formed()
        &&& chain_end(self.measures) == self.tick_stream.len()
        &&& self.base_notes.len() == 6 * self.offsets.len()
    }
}

} // verus!

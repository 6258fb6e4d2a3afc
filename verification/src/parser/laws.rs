//! What holds of every parse: the shape of its result, and the
//! resynchronisation of the six strings at every tick.
use vstd::prelude::*;
use crate::backend::errors::backend_error_kind::BackendErrorKind;
use crate::parser::model::{
    after_bar, after_tick, atom_fails, atom_of, chain_end, close_measure, closed, column_loop,
    column_while_parsing, first_byte, first_wide, index_after, is_part_start, lemma_first_where,
    max_width, measures_chained, parse_from, parse_part, part_bodies, prelude, resync_one,
    section_of, bars_before, spec_parse, spec_tick, trim_ascii, width_of, widths_sum,
    ColumnState, ParseView,
};
use crate::parser::tab_element::{spec_tab_element, TabElement3};
use crate::parser::{decimal_value, is_digit, lemma_digit_run_bytes, BAR};

verus! {

/// Measures that follow each other from the start, each a whole number of
/// ticks, end at a whole tick.
pub proof fn lemma_chain_whole_ticks(measures: Seq<(u32, u32)>, n: int)
    requires
        measures_chained(measures),
        0 <= n <= measures.len(),
    ensures
        chain_end(measures.take(n)) % 6 == 0,
    decreases n,
{
    if n > 0 {
        lemma_chain_whole_ticks(measures, n - 1);
        assert(measures.take(n).last() == measures[n - 1]);
        if n > 1 {
            assert(measures.take(n - 1).last() == measures[n - 2]);
            assert(measures[n - 1].0 == index_after(measures[n - 2].1));
        }
    }
}

/// Closing the measure of a stream of whole ticks makes the measures cover it.
pub proof fn lemma_close_measure_covers(v: ParseView)
    requires
        v.partly_formed(),
        v.offsets.len() > 0,
    ensures
        close_measure(v).partly_formed(),
        chain_end(close_measure(v).measures) == v.tick_stream.len(),
{
    let closed = close_measure(v).measures;
    let n = v.measures.len() as int;
    lemma_chain_whole_ticks(v.measures, n);
    assert(v.measures.take(n) =~= v.measures);
    assert forall|i: int, j: int| 0 <= i && j == i + 1 && j < closed.len() implies (
    #[trigger] closed[j]).0 == index_after((#[trigger] closed[i]).1) by {
        assert(closed[i] == v.measures[i]);
        if j < n {
            assert(closed[j] == v.measures[j]);
        }
    }
    assert forall|i: int| 0 <= i < closed.len() implies (#[trigger] closed[i]).0 <= index_after(
        closed[i].1,
    ) && (index_after(closed[i].1) - closed[i].0) % 6 == 0 by {
        if i < n {
            assert(closed[i] == v.measures[i]);
        }
    }
    if n > 0 {
        assert(closed[0] == v.measures[0]);
    }
}

/// An atom that the codec read from one byte is one column wide.
pub proof fn lemma_one_byte_atom_is_narrow(body: Seq<u8>)
    requires
        spec_tab_element(body) is Ok,
        width_of(body) == 1,
    ensures
        atom_of(body).spec_repr_len() == 1,
{
    if is_digit(body[0]) {
        assert(body.take(1).drop_last() =~= Seq::<u8>::empty());
        assert(decimal_value(body.take(1)) == body[0] - 48) by {
            reveal_with_fuel(crate::parser::decimal_value, 2);
        }
    }
}

/// An atom that the codec read takes at least one byte and no more than there are.
pub proof fn lemma_atom_width_bounds(body: Seq<u8>)
    requires
        spec_tab_element(body) is Ok,
    ensures
        1 <= width_of(body) <= body.len(),
{
    lemma_digit_run_bytes(body);
}

/// Every atom of `bodies` that takes more than one byte is a fret written in
/// exactly its two digits.
pub open spec fn wide_atoms_are_two_digits(bodies: Seq<Seq<u8>>) -> bool {
    forall|s: int|
        0 <= s < 6 && width_of(#[trigger] bodies[s]) > 1 ==> width_of(bodies[s]) == 2 && atom_of(
            bodies[s],
        ).spec_repr_len() == 2
}

/// Column resynchronisation: a tick that is read moves every one of the six
/// strings on by the same number of source columns, and that number is the
/// width of the tick, the largest rendered width among its six atoms. This
/// holds where every atom of the tick that takes more than one byte is a
/// fret written in exactly its two digits; a fret of three digits and a fret
/// written with a leading zero are left out.
pub proof fn lemma_tick_advances_by_its_width(bodies: Seq<Seq<u8>>, s: int)
    requires
        bodies.len() == 6,
        0 <= s < 6,
        spec_tick(bodies) is Ok,
        wide_atoms_are_two_digits(bodies),
    ensures
        spec_tick(bodies)->Ok_0.bodies[s].len() + max_width(spec_tick(bodies)->Ok_0.atoms)
            == bodies[s].len(),
{
    let read = spec_tick(bodies)->Ok_0;
    let fails = |s: int| atom_fails(bodies[s]);
    let is_wide = |s: int| width_of(bodies[s]) > 1;
    let stuck = |s: int| !(resync_one(bodies[s]) is Keep);
    lemma_first_where(fails, 0, 6);
    lemma_first_where(is_wide, 0, 6);
    lemma_first_where(stuck, 0, 6);
    assert forall|j: int| 0 <= j < 6 implies spec_tab_element(#[trigger] bodies[j]) is Ok by {
        assert(!fails(j));
    }
    let w: nat = if read.wide {
        2
    } else {
        1
    };
    assert forall|j: int| 0 <= j < 6 implies (#[trigger] read.atoms[j]).spec_repr_len() <= w
        && read.bodies[j].len() + w == bodies[j].len() by {
        lemma_atom_width_bounds(bodies[j]);
        if read.wide {
            assert(!stuck(j));
            if width_of(bodies[j]) == 1 {
                lemma_one_byte_atom_is_narrow(bodies[j]);
                if atom_of(bodies[j]) == TabElement3::Rest {
                    lemma_atom_width_bounds(bodies[j].skip(1));
                    lemma_one_byte_atom_is_narrow(bodies[j].skip(1));
                }
            }
        } else {
            assert(!is_wide(j));
            lemma_one_byte_atom_is_narrow(bodies[j]);
        }
    }
    let widest = if read.wide {
        first_wide(bodies)
    } else {
        0
    };
    assert(read.atoms[widest].spec_repr_len() == w) by {
        lemma_atom_width_bounds(bodies[widest]);
        if read.wide {
            assert(is_wide(widest));
            assert(!stuck(widest));
        } else {
            assert(!is_wide(widest));
            lemma_one_byte_atom_is_narrow(bodies[widest]);
        }
    }
    lemma_max_width_is(read.atoms, w, widest);
    assert(read.atoms[s].spec_repr_len() <= w);
}

/// The largest width among `atoms` is `w` when no atom is wider than `w` and
/// the atom at `at` is `w` wide.
pub proof fn lemma_max_width_is(atoms: Seq<TabElement3>, w: nat, at: int)
    requires
        0 <= at < atoms.len(),
        atoms[at].spec_repr_len() == w,
        forall|j: int| 0 <= j < atoms.len() ==> (#[trigger] atoms[j]).spec_repr_len() <= w,
    ensures
        max_width(atoms) == w,
    decreases atoms.len(),
{
    let shorter = atoms.drop_last();
    if at < atoms.len() - 1 {
        assert(shorter[at] == atoms[at]);
        assert forall|j: int| 0 <= j < shorter.len() implies (#[trigger] shorter[j]).spec_repr_len()
            <= w by {
            assert(shorter[j] == atoms[j]);
        }
        lemma_max_width_is(shorter, w, at);
    } else {
        lemma_max_width_at_most(shorter, w);
    }
}

/// The largest width among `atoms` is at most `w` when no atom is wider.
pub proof fn lemma_max_width_at_most(atoms: Seq<TabElement3>, w: nat)
    requires
        forall|j: int| 0 <= j < atoms.len() ==> (#[trigger] atoms[j]).spec_repr_len() <= w,
    ensures
        max_width(atoms) <= w,
    decreases atoms.len(),
{
    if atoms.len() > 0 {
        let shorter = atoms.drop_last();
        assert forall|j: int| 0 <= j < shorter.len() implies (#[trigger] shorter[j]).spec_repr_len()
            <= w by {
            assert(shorter[j] == atoms[j]);
        }
        lemma_max_width_at_most(shorter, w);
    }
}

/// The columns of some ticks of a stream do not change when atoms are
/// added after them.
pub proof fn lemma_widths_sum_prefix(
    stream: Seq<TabElement3>,
    more: Seq<TabElement3>,
    from: int,
    to: int,
)
    requires
        0 <= from,
        6 * to <= stream.len(),
    ensures
        widths_sum(stream + more, from, to) == widths_sum(stream, from, to),
    decreases to - from,
{
    if from < to {
        lemma_widths_sum_prefix(stream, more, from, to - 1);
        assert((stream + more).subrange(6 * (to - 1), 6 * (to - 1) + 6) =~= stream.subrange(
            6 * (to - 1),
            6 * (to - 1) + 6,
        ));
    }
}

/// A tick moves the column of the locator on by its width.
pub proof fn lemma_tick_moves_column(v: ParseView, atoms: Seq<TabElement3>)
    requires
        v.tick_stream.len() % 6 == 0,
        atoms.len() == 6,
        v.part_start() <= v.tick_stream.len(),
    ensures
        column_while_parsing(ParseView { tick_stream: v.tick_stream + atoms, ..v })
            == column_while_parsing(v) + max_width(atoms),
{
    let stream = v.tick_stream;
    let longer = stream + atoms;
    let n = stream.len() as int / 6;
    let from = v.part_start() as int / 6;
    assert(longer.len() as int / 6 == n + 1);
    lemma_widths_sum_prefix(stream, atoms, from, n);
    assert(longer.subrange(6 * n, 6 * n + 6) =~= atoms);
}

/// A barline moves the column of the locator on by one.
pub proof fn lemma_bar_moves_column(v: ParseView)
    requires
        chain_end(v.measures) >= v.part_start(),
    ensures
        column_while_parsing(close_measure(v)) == column_while_parsing(v) + 1,
{
    let closed = close_measure(v).measures;
    assert(closed.drop_last() =~= v.measures);
}

/// Column resynchronisation, as the locator counts: on its way through a
/// part the column that the locator gives for the next tick moves on by
/// exactly as many bytes as every string moves on in the source. So the
/// column of the next tick is the source offset of its first byte on every
/// string, as long as it was so before. This holds at a barline that every
/// string has, and at a tick that is read and whose wide atoms are frets
/// written in exactly their two digits.
pub proof fn lemma_column_follows_the_source(st: ColumnState, s: int)
    requires
        st.bodies.len() == 6,
        0 <= s < 6,
        st.parsed.tick_stream.len() % 6 == 0,
        st.parsed.part_start() <= st.parsed.tick_stream.len(),
        chain_end(st.parsed.measures) >= st.parsed.part_start(),
        first_byte(st.bodies[0]) == Some(BAR) ==> st.bodies[s].len() > 0,
        first_byte(st.bodies[0]) != Some(BAR) ==> spec_tick(st.bodies) is Ok
            && wide_atoms_are_two_digits(st.bodies),
    ensures
        first_byte(st.bodies[0]) == Some(BAR) ==> column_while_parsing(after_bar(st).parsed)
            - column_while_parsing(st.parsed) == st.bodies[s].len() - after_bar(st).bodies[s].len(),
        first_byte(st.bodies[0]) != Some(BAR) ==> column_while_parsing(
            after_tick(st, spec_tick(st.bodies)->Ok_0).parsed,
        ) - column_while_parsing(st.parsed) == st.bodies[s].len() - after_tick(
            st,
            spec_tick(st.bodies)->Ok_0,
        ).bodies[s].len(),
{
    if first_byte(st.bodies[0]) == Some(BAR) {
        lemma_bar_moves_column(st.parsed);
    } else {
        let read = spec_tick(st.bodies)->Ok_0;
        lemma_tick_advances_by_its_width(st.bodies, s);
        lemma_tick_moves_column(st.parsed, read.atoms);
    }
}

/// The kind is one of the six that the parser reports.
pub open spec fn is_parse_kind(kind: BackendErrorKind) -> bool {
    kind is InvalidStringName || kind is NoClosingBarline || kind is Parse3InvalidCharacter
        || kind is FretTooLarge || kind is BothSlotsMultiChar || kind is MultiBothSlotsFilled
}

/// The heads of a part fail with an error of the parser.
pub proof fn lemma_prelude_kinds(lines: Seq<Seq<u8>>, p: int, i: int, notes: Seq<char>)
    ensures
        prelude(lines, p, i, notes).1 is Some ==> is_parse_kind(prelude(lines, p, i, notes).1->0.kind),
    decreases 6 - i,
{
    let t = trim_ascii(lines[p + i]);
    if i < 6 && closed(t) {
        lemma_prelude_kinds(lines, p, i + 1, notes.push(t[0] as char));
    }
}

/// The column loop fails with an error of the parser.
pub proof fn lemma_column_loop_kinds(st: ColumnState, first_line: int)
    ensures
        column_loop(st, first_line).1 is Some ==> is_parse_kind(
            column_loop(st, first_line).1->0.kind,
        ),
    decreases st.budget - st.tick + 1,
{
    if st.tick < st.budget {
        if first_byte(st.bodies[0]) == Some(BAR) {
            lemma_column_loop_kinds(after_bar(st), first_line);
        } else if spec_tick(st.bodies) is Ok {
            lemma_column_loop_kinds(after_tick(st, spec_tick(st.bodies)->Ok_0), first_line);
        }
    }
}

/// The parser fails with one of its six kinds of error, whatever it is given.
pub proof fn lemma_parse_from_kinds(lines: Seq<Seq<u8>>, from: int, v: ParseView)
    ensures
        parse_from(lines, from, v).1 is Some ==> is_parse_kind(parse_from(lines, from, v).1->0.kind),
    decreases lines.len() - from,
{
    if !(from < 0 || from + 5 >= lines.len()) {
        if !is_part_start(lines, from) {
            lemma_parse_from_kinds(lines, from + 1, v);
        } else {
            let begun = ParseView {
                offsets: v.offsets.push((from as u32, v.tick_stream.len() as u32)),
                ..v
            };
            let heads = prelude(lines, from, 0, begun.base_notes);
            let named = ParseView { base_notes: heads.0, ..begun };
            let bodies = part_bodies(lines, from);
            lemma_prelude_kinds(lines, from, 0, begun.base_notes);
            lemma_column_loop_kinds(
                ColumnState { bodies, tick: 0, budget: bodies[0].len() as int, parsed: named },
                from,
            );
            let part = parse_part(lines, from, v);
            if part.1 is None {
                lemma_parse_from_kinds(lines, from + 6, part.0);
            }
        }
    }
}

/// The parser fails with one of its six kinds of error: never with the
/// kinds of the generator or of the fixup driver.
pub proof fn lemma_parse_error_kinds(lines: Seq<Seq<u8>>)
    ensures
        spec_parse(lines).1 is Some ==> is_parse_kind(spec_parse(lines).1->0.kind),
{
    lemma_parse_from_kinds(lines, 0, ParseView::empty());
}

/// Along a chain the measures start and end in rising order.
pub proof fn lemma_chain_rises(measures: Seq<(u32, u32)>, i: int, j: int)
    requires
        measures_chained(measures),
        0 <= i <= j < measures.len(),
    ensures
        measures[i].0 <= measures[j].0,
        index_after(measures[i].1) <= index_after(measures[j].1),
    decreases j - i,
{
    if i < j {
        lemma_chain_rises(measures, i, j - 1);
        assert(measures[j].0 == index_after(measures[j - 1].1));
    }
}

/// The part that holds `k` is part `j` when part `j` starts at or before
/// `k` and every later part after `k`.
pub proof fn lemma_section_is(offsets: Seq<(u32, u32)>, k: u32, n: int, j: int)
    requires
        0 <= j < n <= offsets.len(),
        offsets[j].1 <= k,
        forall|i: int| j < i < n ==> (#[trigger] offsets[i]).1 > k,
    ensures
        section_of(offsets, k, n) == j,
    decreases n,
{
    if n > 1 && j < n - 1 {
        lemma_section_is(offsets, k, n - 1, j);
    }
}

/// The barlines before a tick are the measures from `a` up to `b`, when
/// the measures that start in the part are those from `a` on and the
/// measures that end before the tick are those before `b`.
pub proof fn lemma_bars_between(
    measures: Seq<(u32, u32)>,
    part_start: u32,
    tick_start: int,
    a: int,
    b: int,
    n: int,
)
    requires
        0 <= n <= measures.len(),
        forall|i: int|
            0 <= i < measures.len() ==> ((#[trigger] measures[i]).0 >= part_start <==> i >= a),
        forall|i: int|
            0 <= i < measures.len() ==> (index_after((#[trigger] measures[i]).1) <= tick_start
                <==> i < b),
        0 <= a,
        0 <= b,
    ensures
        bars_before(measures, part_start, tick_start, n) == if (if b < n {
            b
        } else {
            n
        }) > a {
            (if b < n {
                b
            } else {
                n
            }) - a
        } else {
            0
        },
    decreases n,
{
    if n > 0 {
        lemma_bars_between(measures, part_start, tick_start, a, b, n - 1);
        let last = measures[n - 1];
    }
}

/// The column loop only adds whole ticks to the stream, and leaves the
/// base notes and the parts as they are.
pub proof fn lemma_column_loop_grows(st: ColumnState, first_line: int)
    ensures
        column_loop(st, first_line).0.tick_stream.len() >= st.parsed.tick_stream.len(),
        (column_loop(st, first_line).0.tick_stream.len() - st.parsed.tick_stream.len()) % 6 == 0,
        column_loop(st, first_line).0.offsets == st.parsed.offsets,
        column_loop(st, first_line).0.base_notes == st.parsed.base_notes,
    decreases st.budget - st.tick + 1,
{
    if st.tick < st.budget {
        if first_byte(st.bodies[0]) == Some(BAR) {
            lemma_column_loop_grows(after_bar(st), first_line);
        } else if spec_tick(st.bodies) is Ok {
            lemma_column_loop_grows(after_tick(st, spec_tick(st.bodies)->Ok_0), first_line);
        }
    }
}

/// The column loop keeps the shape of what has been parsed, as long as the
/// stream it ends with is no longer than a `u32` counts.
pub proof fn lemma_column_loop_shape(st: ColumnState, first_line: int)
    requires
        st.parsed.partly_formed(),
        st.parsed.offsets.len() > 0,
        column_loop(st, first_line).0.tick_stream.len() <= u32::MAX,
    ensures
        column_loop(st, first_line).0.partly_formed(),
    decreases st.budget - st.tick + 1,
{
    if st.tick < st.budget {
        if first_byte(st.bodies[0]) == Some(BAR) {
            lemma_close_measure_covers(st.parsed);
            lemma_column_loop_shape(after_bar(st), first_line);
        } else if spec_tick(st.bodies) is Ok {
            let next = after_tick(st, spec_tick(st.bodies)->Ok_0);
            lemma_column_loop_grows(next, first_line);
            lemma_column_loop_shape(next, first_line);
        }
    }
}

/// Six heads that are read give six base notes.
pub proof fn lemma_prelude_notes(lines: Seq<Seq<u8>>, p: int, i: int, notes: Seq<char>)
    requires
        0 <= i <= 6,
        prelude(lines, p, i, notes).1 is None,
    ensures
        prelude(lines, p, i, notes).0.len() == notes.len() + 6 - i,
    decreases 6 - i,
{
    let t = trim_ascii(lines[p + i]);
    if i < 6 {
        lemma_prelude_notes(lines, p, i + 1, notes.push(t[0] as char));
    }
}

/// The parser only adds whole ticks to the stream.
pub proof fn lemma_parse_from_grows(lines: Seq<Seq<u8>>, from: int, v: ParseView)
    ensures
        parse_from(lines, from, v).0.tick_stream.len() >= v.tick_stream.len(),
        (parse_from(lines, from, v).0.tick_stream.len() - v.tick_stream.len()) % 6 == 0,
    decreases lines.len() - from,
{
    if !(from < 0 || from + 5 >= lines.len()) {
        if !is_part_start(lines, from) {
            lemma_parse_from_grows(lines, from + 1, v);
        } else {
            let begun = ParseView {
                offsets: v.offsets.push((from as u32, v.tick_stream.len() as u32)),
                ..v
            };
            let heads = prelude(lines, from, 0, begun.base_notes);
            let named = ParseView { base_notes: heads.0, ..begun };
            let bodies = part_bodies(lines, from);
            lemma_column_loop_grows(
                ColumnState { bodies, tick: 0, budget: bodies[0].len() as int, parsed: named },
                from,
            );
            let part = parse_part(lines, from, v);
            if part.1 is None {
                lemma_parse_from_grows(lines, from + 6, part.0);
            }
        }
    }
}

/// Stream shape, the ticks: whatever the parser is given, and whether it
/// fails or not, the tick stream that it hands back is made of whole ticks.
pub proof fn lemma_stream_of_whole_ticks(lines: Seq<Seq<u8>>)
    ensures
        spec_parse(lines).0.tick_stream.len() % 6 == 0,
{
    lemma_parse_from_grows(lines, 0, ParseView::empty());
}

/// The parser keeps the shape of what has been parsed, as long as the
/// stream it ends with is no longer than a `u32` counts.
pub proof fn lemma_parse_from_shape(lines: Seq<Seq<u8>>, from: int, v: ParseView)
    requires
        v.well_formed(),
        parse_from(lines, from, v).1 is None,
        parse_from(lines, from, v).0.tick_stream.len() <= u32::MAX,
    ensures
        parse_from(lines, from, v).0.well_formed(),
    decreases lines.len() - from,
{
    if !(from < 0 || from + 5 >= lines.len()) {
        if !is_part_start(lines, from) {
            lemma_parse_from_shape(lines, from + 1, v);
        } else {
            let begun = ParseView {
                offsets: v.offsets.push((from as u32, v.tick_stream.len() as u32)),
                ..v
            };
            let heads = prelude(lines, from, 0, begun.base_notes);
            let named = ParseView { base_notes: heads.0, ..begun };
            let bodies = part_bodies(lines, from);
            let start = ColumnState {
                bodies,
                tick: 0,
                budget: bodies[0].len() as int,
                parsed: named,
            };
            let part = parse_part(lines, from, v);
            let columns = column_loop(start, from);
            lemma_parse_from_grows(lines, from + 6, part.0);
            lemma_column_loop_grows(start, from);
            lemma_prelude_notes(lines, from, 0, begun.base_notes);
            assert(begun.partly_formed()) by {
                assert forall|i: int, j: int| 0 <= i <= j < begun.offsets.len() implies (
                #[trigger] begun.offsets[i]).1 <= (#[trigger] begun.offsets[j]).1 by {
                    if j < v.offsets.len() {
                        assert(begun.offsets[i] == v.offsets[i]);
                        assert(begun.offsets[j] == v.offsets[j]);
                    } else if i < v.offsets.len() {
                        assert(begun.offsets[i] == v.offsets[i]);
                        assert(v.offsets[i].1 <= v.offsets.last().1);
                    }
                }
                if v.offsets.len() > 0 {
                    assert(begun.offsets[0] == v.offsets[0]);
                }
            }
            lemma_column_loop_shape(start, from);
            lemma_close_measure_covers(columns.0);
            lemma_parse_from_shape(lines, from + 6, part.0);
        }
    }
}

/// Stream shape: whatever text the parser takes without an error, the tick
/// stream is made of whole ticks, the measures cover it from its first
/// index to its last without gap or overlap, each of them a whole number
/// of ticks, and there are six base notes for every part. This holds of
/// every parse whose stream is no longer than the `u32` of a measure counts.
pub proof fn lemma_stream_shape(lines: Seq<Seq<u8>>)
    requires
        spec_parse(lines).1 is None,
        spec_parse(lines).0.tick_stream.len() <= u32::MAX,
    ensures
        spec_parse(lines).0.well_formed(),
{
    lemma_parse_from_shape(lines, 0, ParseView::empty());
}

/// The state in which the column loop stops: at the end of the part, or
/// before the tick that could not be read.
pub open spec fn column_end(st: ColumnState) -> ColumnState
    decreases st.budget - st.tick + 1,
{
    if st.tick >= st.budget {
        st
    } else if first_byte(st.bodies[0]) == Some(BAR) {
        column_end(after_bar(st))
    } else {
        match spec_tick(st.bodies) {
            Ok(read) => column_end(after_tick(st, read)),
            Err(_) => st,
        }
    }
}

/// The part is regular from `st` on: every barline of the top string
/// finds a byte on every string, every tick is read, and every wide atom
/// is a fret written in exactly its two digits.
pub open spec fn regular_from(st: ColumnState) -> bool
    decreases st.budget - st.tick + 1,
{
    if st.tick >= st.budget {
        true
    } else if first_byte(st.bodies[0]) == Some(BAR) {
        (forall|s: int| 0 <= s < 6 ==> (#[trigger] st.bodies[s]).len() > 0) && regular_from(
            after_bar(st),
        )
    } else {
        spec_tick(st.bodies) is Ok && wide_atoms_are_two_digits(st.bodies) && regular_from(
            after_tick(st, spec_tick(st.bodies)->Ok_0),
        )
    }
}

/// The column loop hands back what the state it stops in has parsed.
pub proof fn lemma_column_end_is(st: ColumnState, first_line: int)
    ensures
        column_end(st).parsed == column_loop(st, first_line).0,
    decreases st.budget - st.tick + 1,
{
    if st.tick < st.budget {
        if first_byte(st.bodies[0]) == Some(BAR) {
            lemma_column_end_is(after_bar(st), first_line);
        } else if spec_tick(st.bodies) is Ok {
            lemma_column_end_is(after_tick(st, spec_tick(st.bodies)->Ok_0), first_line);
        }
    }
}

/// Column resynchronisation, over a whole part: from any state of the
/// column loop to the end of a regular part, every string moves on in the
/// source by exactly as many bytes as the column of the locator moves on:
/// one for every barline and the width of every tick, the largest
/// rendered width among its six atoms. The top string is used up at the
/// end, so that the column the locator ends with is the place of its
/// closing barline. A string that is longer than the top string keeps what
/// it has too much.
pub proof fn lemma_part_columns(st: ColumnState, s: int)
    requires
        st.bodies.len() == 6,
        0 <= s < 6,
        st.parsed.partly_formed(),
        st.parsed.offsets.len() > 0,
        chain_end(st.parsed.measures) >= st.parsed.part_start(),
        st.budget - st.tick == st.bodies[0].len(),
        regular_from(st),
        column_end(st).parsed.tick_stream.len() <= u32::MAX,
    ensures
        column_while_parsing(column_end(st).parsed) - column_while_parsing(st.parsed)
            == st.bodies[s].len() - column_end(st).bodies[s].len(),
        column_end(st).bodies[0].len() == 0,
    decreases st.budget - st.tick + 1,
{
    if st.tick < st.budget {
        lemma_column_follows_the_source(st, s);
        lemma_column_follows_the_source(st, 0);
        if first_byte(st.bodies[0]) == Some(BAR) {
            let next = after_bar(st);
            lemma_close_measure_covers(st.parsed);
            lemma_part_columns(next, s);
        } else {
            let next = after_tick(st, spec_tick(st.bodies)->Ok_0);
            let read = spec_tick(st.bodies)->Ok_0;
            lemma_column_end_is(next, 0);
            lemma_column_loop_grows(next, 0);
            lemma_tick_advances_by_its_width(st.bodies, 0);
            lemma_first_where(|s: int| width_of(st.bodies[s]) > 1, 0, 6);
            lemma_tick_width_of_read(st.bodies);
            lemma_part_columns(next, s);
        }
    }
}

/// A tick that is read under the two-digit rule is two columns wide where
/// it is wide and one column wide where it is not.
pub proof fn lemma_tick_width_of_read(bodies: Seq<Seq<u8>>)
    requires
        bodies.len() == 6,
        spec_tick(bodies) is Ok,
        wide_atoms_are_two_digits(bodies),
    ensures
        max_width(spec_tick(bodies)->Ok_0.atoms) == if spec_tick(bodies)->Ok_0.wide {
            2nat
        } else {
            1nat
        },
        spec_tick(bodies)->Ok_0.atoms.len() == 6,
        spec_tick(bodies)->Ok_0.bodies.len() == 6,
{
    let read = spec_tick(bodies)->Ok_0;
    let is_wide = |s: int| width_of(bodies[s]) > 1;
    let fails = |s: int| atom_fails(bodies[s]);
    let stuck = |s: int| !(resync_one(bodies[s]) is Keep);
    lemma_first_where(fails, 0, 6);
    lemma_first_where(is_wide, 0, 6);
    lemma_first_where(stuck, 0, 6);
    lemma_tick_advances_by_its_width(bodies, 0);
    assert(!fails(0));
    lemma_atom_width_bounds(bodies[0]);
    if read.wide {
        assert(!stuck(0));
        if width_of(bodies[0]) == 1 && atom_of(bodies[0]) == TabElement3::Rest {
            lemma_atom_width_bounds(bodies[0].skip(1));
        }
    } else {
        assert(!is_wide(0));
    }
}

} // verus!

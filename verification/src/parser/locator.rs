//! The source locator: from a stream index back to line and column.
use vstd::prelude::*;
use crate::parser::laws::{lemma_bars_between, lemma_chain_rises, lemma_section_is};
use crate::parser::model::{
    bars_before, clamp_u32, column_while_parsing, index_after, lemma_section_starts_before,
    max_width, measures_chained, measures_since, offsets_sorted, section_of, spec_location,
    tick_width, widths_sum,
};
use crate::parser::parser::{after, measure_bounds, Measure, Parser, ParserRef};
use crate::parser::tab_element::TabElement3;

verus! {

/// The largest rendered width among the six atoms of tick `t`.
pub(crate) fn tick_width_at(stream: &[TabElement3], t: usize) -> (w: u32)
    requires
        6 * t + 6 <= stream@.len(),
    ensures
        w == tick_width(stream@, t as int),
        w <= 3,
{
    let ghost atoms = stream@.subrange(6 * t, 6 * t + 6);
    let len = stream.len();
    let mut w: u32 = 0;
    let mut s: usize = 0;
    assert(atoms.take(0) =~= Seq::<TabElement3>::empty());
    while s < 6
        invariant
            s <= 6,
            len == stream@.len(),
            6 * t + 6 <= stream@.len(),
            atoms == stream@.subrange(6 * t, 6 * t + 6),
            w == max_width(atoms.take(s as int)),
            w <= 3,
        decreases 6 - s,
    {
        let here = stream[6 * t + s].repr_len();
        proof {
            assert(atoms.take(s + 1).drop_last() =~= atoms.take(s as int));
            assert(atoms.take(s + 1).last() == stream@[6 * t + s]);
        }
        if here > w {
            w = here;
        }
        s = s + 1;
    }
    assert(atoms.take(6) =~= atoms);
    w
}

/// The number of source columns that the ticks `from..to` take.
fn widths_between(stream: &[TabElement3], from: usize, to: usize) -> (sum: usize)
    requires
        6 * to <= stream@.len(),
    ensures
        sum == widths_sum(stream@, from as int, to as int),
        sum <= 3 * to,
{
    let len = stream.len();
    let mut sum: usize = 0;
    if from >= to {
        return sum;
    }
    let mut t: usize = from;
    while t < to
        invariant
            len == stream@.len(),
            6 * to <= stream@.len(),
            from <= t <= to,
            sum == widths_sum(stream@, from as int, t as int),
            sum <= 3 * (t - from),
        decreases to - t,
    {
        let w = tick_width_at(stream, t);
        sum = sum + w as usize;
        t = t + 1;
    }
    sum
}

/// The number of measures at the end of `measures` that start at or after
/// `part_start`.
fn count_measures_since(measures: &[Measure], part_start: u32) -> (n: usize)
    ensures
        n == measures_since(measure_bounds(measures@), part_start),
{
    let ghost all = measure_bounds(measures@);
    let mut i: usize = measures.len();
    assert(all.take(i as int) =~= all);
    while i > 0 && *measures[i - 1].data_range.start() >= part_start
        invariant
            i <= measures.len(),
            all == measure_bounds(measures@),
            measures_since(all, part_start) == measures_since(all.take(i as int), part_start) + (
            measures.len() - i),
        decreases i,
    {
        proof {
            assert(all.take(i as int).drop_last() =~= all.take(i - 1));
            assert(all.take(i as int).last() == measures@[i - 1].bounds());
        }
        i = i - 1;
    }
    proof {
        if i > 0 {
            assert(all.take(i as int).last() == measures@[i - 1].bounds());
        }
    }
    measures.len() - i
}

/// The column, clamped to a `u32`, that lies `extra` after the column at
/// which the next tick of the current part starts.
pub(crate) fn column_now(r: &ParserRef, extra: u8) -> (column: u32)
    ensures
        column == clamp_u32(column_while_parsing(r@) + extra),
{
    let part_start: u32 = if r.offsets.len() == 0 {
        0
    } else {
        r.offsets[r.offsets.len() - 1].1
    };
    let bars = count_measures_since(r.measures, part_start);
    let ticks = widths_between(r.tick_stream, (part_start / 6) as usize, r.tick_stream.len() / 6);
    let column: u128 = 2 + bars as u128 + ticks as u128 + extra as u128;
    if column > u32::MAX as u128 {
        u32::MAX
    } else {
        column as u32
    }
}

/// The line and the column, counted from 0 in the trimmed line, at which the
/// next tick of the current part starts on the string `line_in_part`, for a
/// part that starts on line `part_first_line`. A column above `u32::MAX` is
/// given as `u32::MAX`.
pub fn source_location_while_parsing(r: &Parser, part_first_line: u32, line_in_part: u32) -> (loc: (
    u32,
    u32,
))
    requires
        part_first_line + line_in_part <= u32::MAX,
    ensures
        loc.0 == part_first_line + line_in_part,
        loc.1 == clamp_u32(column_while_parsing(r@) as int),
{
    (part_first_line + line_in_part, column_now(&r.as_ref(), 0))
}

/// The part that holds stream index `k`, found by bisection.
fn find_section(offsets: &[(u32, u32)], k: u32) -> (j: usize)
    requires
        offsets@.len() > 0,
        offsets@[0].1 <= k,
        offsets_sorted(offsets@),
    ensures
        j == section_of(offsets@, k, offsets@.len() as int),
        j < offsets@.len(),
{
    let mut lo: usize = 0;
    let mut hi: usize = offsets.len();
    while hi - lo > 1
        invariant
            lo < hi <= offsets@.len(),
            offsets_sorted(offsets@),
            offsets@[lo as int].1 <= k,
            hi < offsets@.len() ==> offsets@[hi as int].1 > k,
        decreases hi - lo,
    {
        let mid = lo + (hi - lo) / 2;
        if offsets[mid].1 <= k {
            lo = mid;
        } else {
            hi = mid;
        }
    }
    proof {
        assert forall|i: int| lo < i < offsets@.len() implies (#[trigger] offsets@[i]).1 > k by {
            let at_hi = offsets@[hi as int];
        }
        lemma_section_is(offsets@, k, offsets@.len() as int, lo as int);
    }
    lo
}

/// The first measure that starts at or after stream index `part_start`,
/// found by bisection; the number of measures where none does.
fn first_measure_from(measures: &[Measure], part_start: u32) -> (a: usize)
    requires
        measures_chained(measure_bounds(measures@)),
    ensures
        a <= measures@.len(),
        forall|i: int|
            0 <= i < measures@.len() ==> ((#[trigger] measure_bounds(measures@)[i]).0 >= part_start
                <==> i >= a),
{
    let ghost all = measure_bounds(measures@);
    let mut lo: usize = 0;
    let mut hi: usize = measures.len();
    while lo < hi
        invariant
            lo <= hi <= measures@.len(),
            all == measure_bounds(measures@),
            measures_chained(all),
            forall|i: int| 0 <= i < lo ==> (#[trigger] all[i]).0 < part_start,
            forall|i: int| hi <= i < all.len() ==> (#[trigger] all[i]).0 >= part_start,
        decreases hi - lo,
    {
        let mid = lo + (hi - lo) / 2;
        let start: u32 = *measures[mid].data_range.start();
        assert(all[mid as int].0 == start);
        if start >= part_start {
            proof {
                assert forall|i: int| mid <= i < all.len() implies (#[trigger] all[i]).0
                    >= part_start by {
                    lemma_chain_rises(all, mid as int, i);
                }
            }
            hi = mid;
        } else {
            proof {
                assert forall|i: int| 0 <= i < mid + 1 implies (#[trigger] all[i]).0
                    < part_start by {
                    lemma_chain_rises(all, i, mid as int);
                }
            }
            lo = mid + 1;
        }
    }
    lo
}

/// The first measure that ends at or after stream index `tick_start`,
/// found by bisection; the number of measures where none does.
fn first_measure_past(measures: &[Measure], tick_start: u32) -> (b: usize)
    requires
        measures_chained(measure_bounds(measures@)),
    ensures
        b <= measures@.len(),
        forall|i: int|
            0 <= i < measures@.len() ==> (index_after(
                (#[trigger] measure_bounds(measures@)[i]).1,
            ) <= tick_start <==> i < b),
{
    let ghost all = measure_bounds(measures@);
    let mut lo: usize = 0;
    let mut hi: usize = measures.len();
    while lo < hi
        invariant
            lo <= hi <= measures@.len(),
            all == measure_bounds(measures@),
            measures_chained(all),
            forall|i: int| 0 <= i < lo ==> index_after((#[trigger] all[i]).1) <= tick_start,
            forall|i: int| hi <= i < all.len() ==> index_after((#[trigger] all[i]).1) > tick_start,
        decreases hi - lo,
    {
        let mid = lo + (hi - lo) / 2;
        let end: u32 = after(*measures[mid].data_range.end());
        assert(index_after(all[mid as int].1) == end);
        if end > tick_start {
            proof {
                assert forall|i: int| mid <= i < all.len() implies index_after(
                    (#[trigger] all[i]).1,
                ) > tick_start by {
                    lemma_chain_rises(all, mid as int, i);
                }
            }
            hi = mid;
        } else {
            proof {
                assert forall|i: int| 0 <= i < mid + 1 implies index_after((#[trigger] all[i]).1)
                    <= tick_start by {
                    lemma_chain_rises(all, i, mid as int);
                }
            }
            lo = mid + 1;
        }
    }
    lo
}

/// The number of barlines that stand in the part before the tick.
fn count_bars_before(measures: &[Measure], part_start: u32, tick_start: u32) -> (n: usize)
    requires
        measures_chained(measure_bounds(measures@)),
    ensures
        n == bars_before(
            measure_bounds(measures@),
            part_start,
            tick_start as int,
            measures@.len() as int,
        ),
{
    let a = first_measure_from(measures, part_start);
    let b = first_measure_past(measures, tick_start);
    proof {
        lemma_bars_between(
            measure_bounds(measures@),
            part_start,
            tick_start as int,
            a as int,
            b as int,
            measures@.len() as int,
        );
    }
    if b > a {
        b - a
    } else {
        0
    }
}

/// The line and the column of the atom at stream index `tick_location`:
/// see `spec_location`.
pub fn source_location_from_stream(r: &ParserRef, tick_location: u32) -> (loc: (u32, u32))
    requires
        r@.offsets.len() > 0,
        r@.offsets[0].1 <= tick_location,
        6 * (tick_location as int / 6) <= r@.tick_stream.len(),
        offsets_sorted(r@.offsets),
        measures_chained(r@.measures),
    ensures
        loc == spec_location(r@, tick_location),
{
    let section = find_section(r.offsets, tick_location);
    let (first_line, part_start) = r.offsets[section];
    proof {
        lemma_section_starts_before(r@.offsets, tick_location, r@.offsets.len() as int);
    }
    let line_in_part: u32 = (tick_location - part_start) % 6;
    let line: u32 = if first_line > u32::MAX - line_in_part {
        u32::MAX
    } else {
        first_line + line_in_part
    };
    let bars = count_bars_before(r.measures, part_start, tick_location / 6 * 6);
    let ticks = widths_between(
        r.tick_stream,
        (part_start / 6) as usize,
        (tick_location / 6) as usize,
    );
    let column: u128 = 2 + bars as u128 + ticks as u128;
    (
        line,
        if column > u32::MAX as u128 {
            u32::MAX
        } else {
            column as u32
        },
    )
}

} // verus!

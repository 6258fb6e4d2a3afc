//! What the measure transforms keep, and what they do when applied again.
use vstd::prelude::*;
use crate::backend::muxml::settings::Settings;
use crate::backend::muxml::spans::optimised;
use crate::backend::muxml::transforms::{
    after_last_note, first_note, is_note, is_rest1, merged, merged_at, note_between_rests,
    rest_between_notes, rest_run, rest_total, rests_removed_from, trimmed, trimmed_off,
    without_rests_from, Direction,
};
use crate::backend::muxml::Muxml2TabElement;
use crate::parser::model::{lemma_first_where, lemma_first_where_is};

verus! {

/// `out` is `inp` with some rests merged or removed: the two are as long,
/// the notes are the same and stand where they stood, and a single rest of
/// `out` was a single rest of `inp`.
pub open spec fn thins(out: Seq<Muxml2TabElement>, inp: Seq<Muxml2TabElement>) -> bool {
    &&& out.len() == inp.len()
    &&& forall|j: int|
        0 <= j < out.len() ==> {
            &&& (#[trigger] out[j] is CopyTick || inp[j] is CopyTick) ==> out[j] == inp[j]
            &&& out[j] == Muxml2TabElement::Rest(1) ==> inp[j] == Muxml2TabElement::Rest(1)
        }
}

/// Thinning twice is thinning.
pub proof fn lemma_thins_twice(
    a: Seq<Muxml2TabElement>,
    b: Seq<Muxml2TabElement>,
    c: Seq<Muxml2TabElement>,
)
    requires
        thins(a, b),
        thins(b, c),
    ensures
        thins(a, c),
{
    assert forall|j: int| 0 <= j < a.len() implies {
        &&& (#[trigger] a[j] is CopyTick || c[j] is CopyTick) ==> a[j] == c[j]
        &&& a[j] == Muxml2TabElement::Rest(1) ==> c[j] == Muxml2TabElement::Rest(1)
    } by {
        let mid = b[j];
    }
}

/// Removing the rests between notes only thins the measure.
pub proof fn lemma_without_rests_thins(buf: Seq<Muxml2TabElement>, i: int)
    ensures
        thins(without_rests_from(buf, i), buf),
    decreases buf.len() - i,
{
    if i < 0 || i >= buf.len() {
    } else if rest_between_notes(buf, i) {
        let next = buf.update(i + 1, Muxml2TabElement::Invalid);
        lemma_without_rests_thins(next, i + 2);
        lemma_thins_twice(without_rests_from(next, i + 2), next, buf);
    } else if note_between_rests(buf, i) {
        let next = buf.update(i, Muxml2TabElement::Invalid).update(
            i + 2,
            Muxml2TabElement::Invalid,
        );
        lemma_without_rests_thins(next, i + 3);
        lemma_thins_twice(without_rests_from(next, i + 3), next, buf);
    } else {
        lemma_without_rests_thins(buf, i + 1);
    }
}

/// Merging the rests only thins the measure.
pub proof fn lemma_merged_thins(buf: Seq<Muxml2TabElement>)
    ensures
        thins(merged(buf), buf),
{
    assert forall|j: int| 0 <= j < buf.len() implies {
        &&& (#[trigger] merged(buf)[j] is CopyTick || buf[j] is CopyTick) ==> merged(buf)[j]
            == buf[j]
        &&& merged(buf)[j] == Muxml2TabElement::Rest(1) ==> buf[j] == Muxml2TabElement::Rest(1)
    } by {
        let out = merged_at(buf, j);
    }
}

/// Trimming only thins the measure.
pub proof fn lemma_trimmed_thins(buf: Seq<Muxml2TabElement>, direction: Direction)
    ensures
        thins(trimmed(buf, direction), buf),
{
    let out = trimmed(buf, direction);
    let found = |j: int| is_note(buf[j]);
    let found_back = |j: int| is_note(buf[buf.len() - 1 - j]);
    crate::parser::model::lemma_first_where(found, 0, buf.len() as int);
    crate::parser::model::lemma_first_where(found_back, 0, buf.len() as int);
    assert forall|j: int| 0 <= j < out.len() implies {
        &&& (#[trigger] out[j] is CopyTick || buf[j] is CopyTick) ==> out[j] == buf[j]
        &&& out[j] == Muxml2TabElement::Rest(1) ==> buf[j] == Muxml2TabElement::Rest(1)
    } by {
        if buf[j] is CopyTick {
            assert(found(j));
            assert(found_back(buf.len() - 1 - j));
        }
    }
}

/// The transforms only thin the measure: they keep every note where it
/// stands, and make no note and no single rest that was not there.
pub proof fn lemma_optimised_thins(buf: Seq<Muxml2TabElement>, content_len: u32, settings: Settings)
    ensures
        thins(optimised(buf, content_len, settings).0, buf),
{
    let thinned = if settings.remove_rest_between_notes {
        without_rests_from(buf, 0)
    } else {
        buf
    };
    lemma_without_rests_thins(buf, 0);
    lemma_merged_thins(thinned);
    let joined = merged(thinned);
    lemma_thins_twice(joined, thinned, buf);
    if settings.trim_measure {
        let front = trimmed(joined, Direction::Forward);
        lemma_trimmed_thins(joined, Direction::Forward);
        lemma_trimmed_thins(front, Direction::Backward);
        lemma_thins_twice(front, joined, buf);
        lemma_thins_twice(trimmed(front, Direction::Backward), front, buf);
    }
}

/// At `k` a single rest stands between two notes, or a note between two
/// single rests: something for the scan to remove.
pub open spec fn triple_at(buf: Seq<Muxml2TabElement>, k: int) -> bool {
    rest_between_notes(buf, k) || note_between_rests(buf, k)
}

/// No rest stands between two notes, and no note between two single rests.
pub open spec fn no_triples(buf: Seq<Muxml2TabElement>) -> bool {
    forall|k: int| !#[trigger] triple_at(buf, k)
}

/// No rest stands between two notes, and no note between two single rests,
/// before position `i`.
pub open spec fn no_triples_before(buf: Seq<Muxml2TabElement>, i: int) -> bool {
    forall|k: int| k < i ==> !#[trigger] triple_at(buf, k)
}

/// No two single rests stand side by side.
pub open spec fn no_rest_pairs(buf: Seq<Muxml2TabElement>) -> bool {
    forall|i: int, j: int|
        0 <= i && j == i + 1 && j < buf.len() ==> !(is_rest1(#[trigger] buf[i]) && is_rest1(
            #[trigger] buf[j],
        ))
}

/// The scan for rests between notes leaves none behind.
pub proof fn lemma_scan_clears(buf: Seq<Muxml2TabElement>, i: int)
    requires
        0 <= i,
        no_triples_before(buf, i),
    ensures
        no_triples(without_rests_from(buf, i)),
    decreases buf.len() - i,
{
    if i >= buf.len() {
        assert forall|k: int| !#[trigger] triple_at(buf, k) by {
            if k < i {
                assert(!triple_at(buf, k));
            }
        }
    } else if rest_between_notes(buf, i) {
        let next = buf.update(i + 1, Muxml2TabElement::Invalid);
        assert forall|k: int| k < i + 2 implies !#[trigger] triple_at(next, k) by {
            if k < i {
                assert(!triple_at(buf, k));
            }
        }
        lemma_scan_clears(next, i + 2);
    } else if note_between_rests(buf, i) {
        let next = buf.update(i, Muxml2TabElement::Invalid).update(
            i + 2,
            Muxml2TabElement::Invalid,
        );
        assert forall|k: int| k < i + 3 implies !#[trigger] triple_at(next, k) by {
            if k < i {
                assert(!triple_at(buf, k));
            }
        }
        lemma_scan_clears(next, i + 3);
    } else {
        assert forall|k: int| k < i + 1 implies !#[trigger] triple_at(buf, k) by {
            if k < i {
                assert(!triple_at(buf, k));
            }
        }
        lemma_scan_clears(buf, i + 1);
    }
}

/// Where nothing is to remove, the scan removes nothing.
pub proof fn lemma_scan_idle(buf: Seq<Muxml2TabElement>, i: int)
    requires
        no_triples(buf),
    ensures
        without_rests_from(buf, i) == buf,
        rests_removed_from(buf, i) == 0,
    decreases buf.len() - i,
{
    if 0 <= i < buf.len() {
        assert(!triple_at(buf, i));
        lemma_scan_idle(buf, i + 1);
    }
}

/// Thinning makes no rest between notes and no note between rests.
pub proof fn lemma_thins_keeps_no_triples(out: Seq<Muxml2TabElement>, inp: Seq<Muxml2TabElement>)
    requires
        thins(out, inp),
        no_triples(inp),
    ensures
        no_triples(out),
{
    assert forall|k: int| !#[trigger] triple_at(out, k) by {
        assert(!triple_at(inp, k));
        if 0 <= k && k + 2 < out.len() {
            let a = out[k];
            let b = out[k + 1];
            let c = out[k + 2];
        }
    }
}

/// Thinning makes no pair of single rests.
pub proof fn lemma_thins_keeps_no_pairs(out: Seq<Muxml2TabElement>, inp: Seq<Muxml2TabElement>)
    requires
        thins(out, inp),
        no_rest_pairs(inp),
    ensures
        no_rest_pairs(out),
{
    assert forall|i: int, j: int| 0 <= i && j == i + 1 && j < out.len() implies !(is_rest1(
        #[trigger] out[i],
    ) && is_rest1(#[trigger] out[j])) by {
        assert(!(is_rest1(inp[i]) && is_rest1(inp[j])));
    }
}

/// Merged rests leave no two single rests side by side.
pub proof fn lemma_merged_has_no_pairs(buf: Seq<Muxml2TabElement>)
    ensures
        no_rest_pairs(merged(buf)),
{
    let out = merged(buf);
    assert forall|i: int, j: int| 0 <= i && j == i + 1 && j < out.len() implies !(is_rest1(
        #[trigger] out[i],
    ) && is_rest1(#[trigger] out[j])) by {
        let a = merged_at(buf, i);
        let b = merged_at(buf, j);
        if is_rest1(out[i]) && is_rest1(out[j]) {
            lemma_merged_thins(buf);
            assert(is_rest1(buf[i]));
        }
    }
}

/// Where no two single rests stand side by side, merging changes nothing.
pub proof fn lemma_merge_idle(buf: Seq<Muxml2TabElement>)
    requires
        no_rest_pairs(buf),
    ensures
        merged(buf) == buf,
{
    assert forall|j: int| 0 <= j < buf.len() implies merged_at(buf, j) == buf[j] by {
        if is_rest1(buf[j]) {
            if j > 0 {
                assert(!(is_rest1(buf[j - 1]) && is_rest1(buf[j])));
            }
            if j + 1 < buf.len() {
                assert(!(is_rest1(buf[j]) && is_rest1(buf[j + 1])));
            }
            assert(rest_run(buf, j + 1) == 0);
            assert(rest_run(buf, j) == 1);
        }
    }
    assert(merged(buf) =~= buf);
}

/// Thinning leaves the first and the last note where they are.
pub proof fn lemma_thins_keeps_ends(out: Seq<Muxml2TabElement>, inp: Seq<Muxml2TabElement>)
    requires
        thins(out, inp),
    ensures
        first_note(out) == first_note(inp),
        after_last_note(out) == after_last_note(inp),
{
    let n = inp.len() as int;
    let f_in = |j: int| is_note(inp[j]);
    let f_out = |j: int| is_note(out[j]);
    let b_in = |j: int| is_note(inp[inp.len() - 1 - j]);
    let b_out = |j: int| is_note(out[out.len() - 1 - j]);
    lemma_first_where(f_in, 0, n);
    lemma_first_where(b_in, 0, n);
    let a = first_note(inp);
    let b = after_last_note(inp);
    assert forall|j: int| 0 <= j < a implies !#[trigger] f_out(j) by {
        assert(!f_in(j));
        let e = out[j];
    }
    if a < n {
        assert(f_in(a));
        let e = out[a];
        assert(f_out(a));
    }
    lemma_first_where_is(f_out, 0, n, a);
    assert forall|j: int| 0 <= j < b implies !#[trigger] b_out(j) by {
        assert(!b_in(j));
        let e = out[n - 1 - j];
    }
    if b < n {
        assert(b_in(b));
        let e = out[n - 1 - b];
        assert(b_out(b));
    }
    lemma_first_where_is(b_out, 0, n, b);
}

/// A stretch of elements that are all `Invalid` holds no rest.
pub proof fn lemma_no_rest_in_removed(buf: Seq<Muxml2TabElement>, from: int, to: int)
    requires
        0 <= from <= to <= buf.len(),
        forall|j: int| from <= j < to ==> #[trigger] buf[j] == Muxml2TabElement::Invalid,
    ensures
        rest_total(buf, from, to) == 0,
    decreases to - from,
{
    if from < to {
        lemma_no_rest_in_removed(buf, from, to - 1);
    }
}

/// Trimming a trimmed measure in the same direction changes nothing.
pub proof fn lemma_trim_idle(buf: Seq<Muxml2TabElement>, direction: Direction)
    requires
        match direction {
            Direction::Forward => forall|j: int|
                0 <= j < first_note(buf) ==> #[trigger] buf[j] == Muxml2TabElement::Invalid,
            Direction::Backward => forall|j: int|
                buf.len() - after_last_note(buf) <= j < buf.len() ==> #[trigger] buf[j]
                    == Muxml2TabElement::Invalid,
        },
    ensures
        trimmed(buf, direction) == buf,
        trimmed_off(buf, direction) == 0,
{
    let n = buf.len() as int;
    lemma_first_where(|j: int| is_note(buf[j]), 0, n);
    lemma_first_where(|j: int| is_note(buf[buf.len() - 1 - j]), 0, n);
    assert(trimmed(buf, direction) =~= buf);
    match direction {
        Direction::Forward => lemma_no_rest_in_removed(buf, 0, first_note(buf)),
        Direction::Backward => lemma_no_rest_in_removed(buf, n - after_last_note(buf), n),
    }
}

/// Optimisation idempotence: the transforms that the settings ask for give
/// a measure and a content length that the same transforms leave as they
/// are.
pub proof fn lemma_transforms_idempotent(
    buf: Seq<Muxml2TabElement>,
    content_len: u32,
    settings: Settings,
)
    ensures
        optimised(
            optimised(buf, content_len, settings).0,
            optimised(buf, content_len, settings).1,
            settings,
        ) == optimised(buf, content_len, settings),
{
    let once = optimised(buf, content_len, settings);
    let thinned = if settings.remove_rest_between_notes {
        without_rests_from(buf, 0)
    } else {
        buf
    };
    let joined = merged(thinned);
    lemma_without_rests_thins(buf, 0);
    lemma_merged_thins(thinned);
    lemma_merged_has_no_pairs(thinned);
    let front = trimmed(joined, Direction::Forward);
    let back = trimmed(front, Direction::Backward);
    lemma_trimmed_thins(joined, Direction::Forward);
    lemma_trimmed_thins(front, Direction::Backward);
    lemma_thins_twice(back, front, joined);
    assert(thins(once.0, joined));
    lemma_thins_keeps_no_pairs(once.0, joined);
    if settings.remove_rest_between_notes {
        lemma_scan_clears(buf, 0);
        lemma_thins_keeps_no_triples(joined, thinned);
        lemma_thins_keeps_no_triples(once.0, joined);
        lemma_scan_idle(once.0, 0);
    }
    lemma_merge_idle(once.0);
    if settings.trim_measure {
        lemma_thins_keeps_ends(front, joined);
        lemma_thins_keeps_ends(back, front);
        lemma_first_where(|j: int| is_note(front[j]), 0, front.len() as int);
        lemma_first_where(|j: int| is_note(front[front.len() - 1 - j]), 0, front.len() as int);
        lemma_trim_idle(back, Direction::Forward);
        lemma_trim_idle(back, Direction::Backward);
    }
}

} // verus!

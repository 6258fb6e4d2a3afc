//! The three transforms that simplify the summaries of a measure.
use vstd::prelude::*;
use crate::backend::muxml::Muxml2TabElement;
use crate::parser::model::{first_where, lemma_first_where_is};

verus! {

/// The direction in which a measure is trimmed.
#[derive(Debug, Clone, Copy, PartialEq, Eq, Structural)]
pub enum Direction {
    Forward,
    Backward,
}

/// `e` stands for a tick with a note.
pub open spec fn is_note(e: Muxml2TabElement) -> bool {
    e is CopyTick
}

/// Tests whether `e` stands for a tick with a note.
pub fn holds_note(e: Muxml2TabElement) -> (r: bool)
    ensures
        r == is_note(e),
{
    match e {
        Muxml2TabElement::CopyTick(_) => true,
        _ => false,
    }
}

/// `e` is a single tick of rest.
pub open spec fn is_rest1(e: Muxml2TabElement) -> bool {
    e == Muxml2TabElement::Rest(1)
}

/// A note, a single rest and a note stand at `i`, `i + 1` and `i + 2`.
pub open spec fn rest_between_notes(buf: Seq<Muxml2TabElement>, i: int) -> bool {
    0 <= i && i + 2 < buf.len() && is_note(buf[i]) && is_rest1(buf[i + 1]) && is_note(buf[i + 2])
}

/// A single rest, a note and a single rest stand at `i`, `i + 1` and `i + 2`.
pub open spec fn note_between_rests(buf: Seq<Muxml2TabElement>, i: int) -> bool {
    0 <= i && i + 2 < buf.len() && is_rest1(buf[i]) && is_note(buf[i + 1]) && is_rest1(buf[i + 2])
}

/// The measure after the scan that removes rests between notes, started at
/// `i`. A rest between two notes goes, and the scan goes on at the second
/// note; the two rests around a note go, and the scan goes on after them;
/// anything else is passed by.
pub open spec fn without_rests_from(buf: Seq<Muxml2TabElement>, i: int) -> Seq<Muxml2TabElement>
    decreases buf.len() - i,
{
    if i < 0 || i >= buf.len() {
        buf
    } else if rest_between_notes(buf, i) {
        without_rests_from(buf.update(i + 1, Muxml2TabElement::Invalid), i + 2)
    } else if note_between_rests(buf, i) {
        without_rests_from(
            buf.update(i, Muxml2TabElement::Invalid).update(i + 2, Muxml2TabElement::Invalid),
            i + 3,
        )
    } else {
        without_rests_from(buf, i + 1)
    }
}

/// The number of rests that the scan started at `i` removes.
pub open spec fn rests_removed_from(buf: Seq<Muxml2TabElement>, i: int) -> nat
    decreases buf.len() - i,
{
    if i < 0 || i >= buf.len() {
        0
    } else if rest_between_notes(buf, i) {
        1 + rests_removed_from(buf.update(i + 1, Muxml2TabElement::Invalid), i + 2)
    } else if note_between_rests(buf, i) {
        2 + rests_removed_from(
            buf.update(i, Muxml2TabElement::Invalid).update(i + 2, Muxml2TabElement::Invalid),
            i + 3,
        )
    } else {
        rests_removed_from(buf, i + 1)
    }
}

/// `len` less `by`, but not below zero.
pub open spec fn less(len: u32, by: nat) -> u32 {
    if by >= len {
        0
    } else {
        (len - by) as u32
    }
}

/// Removes the rests that stand between notes and takes them off the
/// content length.
pub fn remove_rest_between_notes(measure: &mut [Muxml2TabElement], content_len: &mut u32)
    ensures
        final(measure)@ == without_rests_from(old(measure)@, 0),
        *final(content_len) == less(*old(content_len), rests_removed_from(old(measure)@, 0)),
{
    let ghost removed: nat = 0;
    let mut i: usize = 0;
    while i < measure.len()
        invariant
            measure@.len() == old(measure)@.len(),
            without_rests_from(measure@, i as int) == without_rests_from(old(measure)@, 0),
            removed + rests_removed_from(measure@, i as int) == rests_removed_from(
                old(measure)@,
                0,
            ),
            *content_len == less(*old(content_len), removed),
        decreases measure.len() - i,
    {
        if measure.len() - i > 2 {
            let (a, b, c) = (measure[i], measure[i + 1], measure[i + 2]);
            match (a, b, c) {
                (
                    Muxml2TabElement::CopyTick(_),
                    Muxml2TabElement::Rest(1),
                    Muxml2TabElement::CopyTick(_),
                ) => {
                    measure[i + 1] = Muxml2TabElement::Invalid;
                    i = i + 2;
                    *content_len = content_len.saturating_sub(1);
                    proof {
                        removed = removed + 1;
                    }
                },
                (
                    Muxml2TabElement::Rest(1),
                    Muxml2TabElement::CopyTick(_),
                    Muxml2TabElement::Rest(1),
                ) => {
                    measure[i] = Muxml2TabElement::Invalid;
                    measure[i + 2] = Muxml2TabElement::Invalid;
                    i = i + 3;
                    *content_len = content_len.saturating_sub(2);
                    proof {
                        removed = removed + 2;
                    }
                },
                _ => {
                    i = i + 1;
                },
            }
        } else {
            i = i + 1;
        }
    }
}

/// The number of single rests in a row that start at `j`.
pub open spec fn rest_run(buf: Seq<Muxml2TabElement>, j: int) -> nat
    decreases buf.len() - j,
{
    if 0 <= j < buf.len() && is_rest1(buf[j]) {
        1 + rest_run(buf, j + 1)
    } else {
        0
    }
}

/// What stands at `j` once the rests are merged: the first single rest of a
/// run becomes one rest as long as the run, the others become `Invalid`,
/// and anything else stays.
pub open spec fn merged_at(buf: Seq<Muxml2TabElement>, j: int) -> Muxml2TabElement {
    if !is_rest1(buf[j]) {
        buf[j]
    } else if j > 0 && is_rest1(buf[j - 1]) {
        Muxml2TabElement::Invalid
    } else {
        Muxml2TabElement::Rest(rest_run(buf, j) as u32)
    }
}

/// The measure with every run of single rests merged into one rest.
pub open spec fn merged(buf: Seq<Muxml2TabElement>) -> Seq<Muxml2TabElement> {
    Seq::new(buf.len(), |j: int| merged_at(buf, j))
}

/// A run of single rests that starts at `j` is `n` long when the `n`
/// elements from `j` are single rests and the next one, if any, is not.
pub proof fn lemma_rest_run_is(buf: Seq<Muxml2TabElement>, j: int, n: nat)
    requires
        0 <= j,
        j + n <= buf.len(),
        forall|k: int| j <= k < j + n ==> is_rest1(#[trigger] buf[k]),
        j + n == buf.len() || !is_rest1(buf[j + n]),
    ensures
        rest_run(buf, j) == n,
    decreases n,
{
    if n > 0 {
        lemma_rest_run_is(buf, j + 1, (n - 1) as nat);
    }
}

/// Merges every run of single rests into one rest at the first position of
/// the run; the other positions of the run become `Invalid`.
pub fn merge_rests_in_measure(measure: &mut [Muxml2TabElement])
    requires
        old(measure)@.len() <= u32::MAX,
    ensures
        final(measure)@ == merged(old(measure)@),
{
    let ghost given = measure@;
    let len = measure.len();
    let mut i: usize = 0;
    while i < len
        invariant
            i <= len,
            len == given.len(),
            len <= u32::MAX,
            given == old(measure)@,
            measure@.len() == len,
            forall|j: int| 0 <= j < i ==> #[trigger] measure@[j] == merged_at(given, j),
            forall|j: int| i <= j < len ==> #[trigger] measure@[j] == given[j],
            0 < i < len ==> !(is_rest1(given[i - 1]) && is_rest1(given[i as int])),
        decreases len - i,
    {
        let here = measure[i];
        match here {
            Muxml2TabElement::Rest(1) => {
                let mut k: usize = i + 1;
                while k < len && measure[k] == Muxml2TabElement::Rest(1)
                    invariant
                        i < k <= len,
                        len == given.len(),
                        measure@.len() == len,
                        forall|j: int| 0 <= j < i ==> #[trigger] measure@[j] == merged_at(given, j),
                        forall|j: int| i < j < k ==> #[trigger] measure@[j] == merged_at(given, j),
                        forall|j: int| k <= j < len ==> #[trigger] measure@[j] == given[j],
                        measure@[i as int] == given[i as int],
                        forall|j: int| i <= j < k ==> is_rest1(#[trigger] given[j]),
                    decreases len - k,
                {
                    measure[k] = Muxml2TabElement::Invalid;
                    k = k + 1;
                }
                proof {
                    lemma_rest_run_is(given, i as int, (k - i) as nat);
                }
                measure[i] = Muxml2TabElement::Rest((k - i) as u32);
                i = k;
            },
            _ => {
                i = i + 1;
            },
        }
    }
    assert(measure@ =~= merged(given));
}

/// The index of the first note of the measure, or its length where it has none.
pub open spec fn first_note(buf: Seq<Muxml2TabElement>) -> int {
    first_where(|j: int| is_note(buf[j]), 0, buf.len() as int)
}

/// The number of elements after the last note of the measure: its length
/// where it has no note.
pub open spec fn after_last_note(buf: Seq<Muxml2TabElement>) -> int {
    first_where(
        |j: int| is_note(buf[buf.len() - 1 - j]),
        0,
        buf.len() as int,
    )
}

/// The ticks of rest that the elements `from..to` of the measure stand for.
pub open spec fn rest_total(buf: Seq<Muxml2TabElement>, from: int, to: int) -> nat
    decreases to - from,
{
    if from >= to {
        0
    } else {
        rest_total(buf, from, to - 1) + match buf[to - 1] {
            Muxml2TabElement::Rest(k) => k as nat,
            _ => 0,
        }
    }
}

/// The measure trimmed in one direction: everything before its first note,
/// or after its last note, becomes `Invalid`.
pub open spec fn trimmed(buf: Seq<Muxml2TabElement>, direction: Direction) -> Seq<Muxml2TabElement> {
    Seq::new(
        buf.len(),
        |j: int|
            if match direction {
                Direction::Forward => j < first_note(buf),
                Direction::Backward => j >= buf.len() - after_last_note(buf),
            } {
                Muxml2TabElement::Invalid
            } else {
                buf[j]
            },
    )
}

/// The ticks of rest that trimming the measure in one direction takes away.
pub open spec fn trimmed_off(buf: Seq<Muxml2TabElement>, direction: Direction) -> nat {
    match direction {
        Direction::Forward => rest_total(buf, 0, first_note(buf)),
        Direction::Backward => rest_total(
            buf,
            buf.len() - after_last_note(buf),
            buf.len() as int,
        ),
    }
}

/// The rests of `from..to` are those of `from + 1..to` and the element at `from`.
pub proof fn lemma_rest_total_front(buf: Seq<Muxml2TabElement>, from: int, to: int)
    requires
        0 <= from < to <= buf.len(),
    ensures
        rest_total(buf, from, to) == rest_total(buf, from + 1, to) + match buf[from] {
            Muxml2TabElement::Rest(k) => k as nat,
            _ => 0,
        },
    decreases to - from,
{
    if from + 1 < to {
        lemma_rest_total_front(buf, from, to - 1);
        assert(rest_total(buf, from + 1, to) == rest_total(buf, from + 1, to - 1) + match buf[to
            - 1] {
            Muxml2TabElement::Rest(k) => k as nat,
            _ => 0,
        });
    } else {
        assert(rest_total(buf, from, to - 1) == 0);
        assert(rest_total(buf, from + 1, to) == 0);
    }
}

/// Trims the measure in one direction: walking from the start, or from the
/// end, every element before the first note met becomes `Invalid`, and the
/// rests among them are taken off the content length.
pub fn trim_measure(measure: &mut [Muxml2TabElement], content_len: &mut u32, direction: Direction)
    ensures
        final(measure)@ == trimmed(old(measure)@, direction),
        *final(content_len) == less(*old(content_len), trimmed_off(old(measure)@, direction)),
{
    let ghost given = measure@;
    let len = measure.len();
    match direction {
        Direction::Forward => {
            let ghost found = |j: int| is_note(given[j]);
            let mut i: usize = 0;
            while i < len && !holds_note(measure[i])
                invariant
                    i <= len,
                    len == given.len(),
                    measure@.len() == len,
                    given == old(measure)@,
                    found == |j: int| is_note(given[j]),
                    forall|j: int| 0 <= j < i ==> !#[trigger] found(j),
                    forall|j: int| 0 <= j < i ==> #[trigger] measure@[j] == Muxml2TabElement::Invalid,
                    forall|j: int| i <= j < len ==> #[trigger] measure@[j] == given[j],
                    *content_len == less(*old(content_len), rest_total(given, 0, i as int)),
                decreases len - i,
            {
                match measure[i] {
                    Muxml2TabElement::Rest(k) => {
                        *content_len = content_len.saturating_sub(k);
                    },
                    _ => {},
                }
                measure[i] = Muxml2TabElement::Invalid;
                i = i + 1;
            }
            proof {
                lemma_first_where_is(found, 0, len as int, i as int);
                assert(measure@ =~= trimmed(given, direction));
            }
        },
        Direction::Backward => {
            let ghost found = |j: int| is_note(given[given.len() - 1 - j]);
            let mut i: usize = len;
            while i > 0 && !holds_note(measure[i - 1])
                invariant
                    i <= len,
                    len == given.len(),
                    measure@.len() == len,
                    given == old(measure)@,
                    found == |j: int| is_note(given[given.len() - 1 - j]),
                    forall|j: int| 0 <= j < len - i ==> !#[trigger] found(j),
                    forall|j: int| i <= j < len ==> #[trigger] measure@[j] == Muxml2TabElement::Invalid,
                    forall|j: int| 0 <= j < i ==> #[trigger] measure@[j] == given[j],
                    *content_len == less(*old(content_len), rest_total(given, i as int, len as int)),
                decreases i,
            {
                match measure[i - 1] {
                    Muxml2TabElement::Rest(k) => {
                        *content_len = content_len.saturating_sub(k);
                    },
                    _ => {},
                }
                proof {
                    lemma_rest_total_front(given, i - 1, len as int);
                    assert forall|j: int| 0 <= j < len - (i - 1) implies !#[trigger] found(j) by {
                        if j == len - i {
                            assert(given[given.len() - 1 - j] == measure@[i - 1]);
                        }
                    }
                }
                measure[i - 1] = Muxml2TabElement::Invalid;
                i = i - 1;
            }
            proof {
                if i > 0 {
                    assert(found(len - i));
                }
                lemma_first_where_is(found, 0, len as int, len - i);
                assert(measure@ =~= trimmed(given, direction));
            }
        },
    }
}

} // verus!

//! Reading one tick: six atoms, and the resynchronisation under a wide one.
use vstd::prelude::*;
use vstd::slice::slice_subrange;
use crate::parser::model::{
    atom_fails, atom_of, first_byte, first_wide, first_where, lemma_first_where,
    lemma_first_where_is, resync_one, spec_tick, views_of, width_of, Resync, TickFailure,
    TickRead,
};
use crate::parser::tab_element::{spec_tab_element, tab_element3, TabElement3};
use crate::parser::DASH;

verus! {

/// The first byte of `s`, if it has one.
fn peek(s: &[u8]) -> (b: Option<u8>)
    ensures
        b == first_byte(s@),
{
    if s.len() > 0 {
        Some(s[0])
    } else {
        None
    }
}

/// Reads the first atom of each of the six strings, without moving them.
/// Gives the atoms and what follows each of them, or the first string on
/// which the codec failed.
fn read_first_atoms<'a>(bodies: &Vec<&'a [u8]>) -> (r: Result<
    (Vec<TabElement3>, Vec<&'a [u8]>, Option<usize>),
    TickFailure,
>)
    requires
        bodies.len() == 6,
    ensures
        match r {
            Ok((atoms, rests, wide)) => {
                &&& first_where(|s: int| atom_fails(views_of(bodies@)[s]), 0, 6) == 6
                &&& atoms.len() == 6
                &&& rests.len() == 6
                &&& forall|s: int|
                    0 <= s < 6 ==> {
                        &&& spec_tab_element(#[trigger] bodies[s]@) is Ok
                        &&& atoms[s] == atom_of(bodies[s]@)
                        &&& rests[s]@ == bodies[s]@.skip(width_of(bodies[s]@) as int)
                        &&& 1 <= width_of(bodies[s]@) <= bodies[s]@.len()
                    }
                &&& match wide {
                    Some(w) => first_wide(views_of(bodies@)) == w && w < 6,
                    None => first_wide(views_of(bodies@)) == 6,
                }
            },
            Err(failure) => {
                &&& first_where(|s: int| atom_fails(views_of(bodies@)[s]), 0, 6) < 6
                &&& spec_tick(views_of(bodies@)) == Err::<TickRead, _>(failure)
                &&& failure.in_range()
            },
        },
{
    let ghost views = views_of(bodies@);
    let ghost fails = |s: int| atom_fails(views[s]);
    let ghost is_wide = |s: int| width_of(views[s]) > 1;
    let mut atoms: Vec<TabElement3> = Vec::new();
    let mut rests: Vec<&'a [u8]> = Vec::new();
    let mut wide: Option<usize> = None;
    let mut s: usize = 0;
    while s < 6
        invariant
            s <= 6,
            bodies.len() == 6,
            views == views_of(bodies@),
            fails == |s: int| atom_fails(views[s]),
            is_wide == |s: int| width_of(views[s]) > 1,
            atoms.len() == s,
            rests.len() == s,
            forall|j: int|
                0 <= j < s ==> {
                    &&& spec_tab_element(#[trigger] bodies[j]@) is Ok
                    &&& atoms[j] == atom_of(bodies[j]@)
                    &&& rests[j]@ == bodies[j]@.skip(width_of(bodies[j]@) as int)
                    &&& 1 <= width_of(bodies[j]@) <= bodies[j]@.len()
                },
            forall|j: int| 0 <= j < s ==> !#[trigger] fails(j),
            match wide {
                Some(w) => w < s && is_wide(w as int) && forall|j: int|
                    0 <= j < w ==> !#[trigger] is_wide(j),
                None => forall|j: int| 0 <= j < s ==> !#[trigger] is_wide(j),
            },
        decreases 6 - s,
    {
        let body: &'a [u8] = bodies[s];
        assert(views[s as int] == body@);
        match tab_element3(body) {
            Ok((rest, atom)) => {
                if wide.is_none() && body.len() - rest.len() > 1 {
                    wide = Some(s);
                }
                atoms.push(atom);
                rests.push(rest);
            },
            Err((_, why)) => {
                proof {
                    lemma_first_where_is(fails, 0, 6, s as int);
                }
                return Err(
                    TickFailure::Rejected { string: s, second: false, why, byte: peek(body) },
                );
            },
        }
        s = s + 1;
    }
    proof {
        lemma_first_where_is(fails, 0, 6, 6);
        match wide {
            Some(w) => lemma_first_where_is(is_wide, 0, 6, w as int),
            None => lemma_first_where_is(is_wide, 0, 6, 6),
        }
    }
    Ok((atoms, rests, wide))
}

/// Resynchronises one string of a wide tick: `atom` is its first atom, `body`
/// the string before the tick and `rest` what follows the first atom. Gives
/// the atom that the string has at this tick and what is left of the string.
fn resync_string<'a>(body: &'a [u8], atom: TabElement3, rest: &'a [u8]) -> (r: Result<
    (TabElement3, &'a [u8]),
    Resync,
>)
    requires
        spec_tab_element(body@) is Ok,
        atom == atom_of(body@),
        rest@ == body@.skip(width_of(body@) as int),
        1 <= width_of(body@) <= body@.len(),
    ensures
        match r {
            Ok((kept, left)) => resync_one(body@) == (Resync::Keep {
                atom: kept,
                used: (body@.len() - left@.len()) as nat,
            }) && left@ == body@.skip(body@.len() - left@.len()) && left@.len() < body@.len(),
            Err(failure) => resync_one(body@) == failure && !(failure is Keep),
        },
{
    if body.len() - rest.len() > 1 {
        return Ok((atom, rest));
    }
    match atom {
        TabElement3::Rest => match tab_element3(rest) {
            Err((_, why)) => Err(Resync::Rejected { why }),
            Ok((left, next)) => {
                if rest.len() - left.len() > 1 {
                    Err(Resync::BothMulti)
                } else {
                    assert(left@ =~= body@.skip(2));
                    Ok((next, left))
                }
            },
        },
        _ => {
            if rest.len() > 0 && rest[0] == DASH {
                let left = slice_subrange(rest, 1, rest.len());
                assert(left@ =~= body@.skip(2));
                Ok((atom, left))
            } else {
                Err(Resync::BothFilled)
            }
        },
    }
}

/// Reads one tick from the six strings and moves each of them past it. On
/// failure the strings stay where they were.
pub fn read_tick<'a>(bodies: &mut Vec<&'a [u8]>) -> (r: Result<(Vec<TabElement3>, bool), TickFailure>)
    requires
        old(bodies).len() == 6,
    ensures
        final(bodies).len() == 6,
        match r {
            Ok((atoms, wide)) => spec_tick(views_of(old(bodies)@)) == Ok::<_, TickFailure>(
                TickRead { atoms: atoms@, bodies: views_of(final(bodies)@), wide },
            ) && atoms.len() == 6 && forall|s: int|
                0 <= s < 6 ==> (#[trigger] final(bodies)[s])@.len() < old(bodies)[s]@.len(),
            Err(failure) => spec_tick(views_of(old(bodies)@)) == Err::<TickRead, _>(failure)
                && final(bodies)@ == old(bodies)@ && failure.in_range(),
        },
{
    let ghost views = views_of(bodies@);
    let (first, rests, wide) = match read_first_atoms(bodies) {
        Ok(read) => read,
        Err(failure) => {
            return Err(failure);
        },
    };
    let other = match wide {
        None => {
            proof {
                assert forall|s: int| 0 <= s < 6 implies (#[trigger] rests[s])@
                    == bodies[s]@.skip(1) by {
                    let is_wide = |s: int| width_of(views[s]) > 1;
                    lemma_first_where(is_wide, 0, 6);
                    assert(!is_wide(s));
                }
                assert(first@ =~= Seq::new(6, |s: int| atom_of(views[s])));
                assert(views_of(rests@) =~= Seq::new(6, |s: int| views[s].skip(1)));
            }
            *bodies = rests;
            return Ok((first, false));
        },
        Some(other) => other,
    };
    let ghost stuck = |s: int| !(resync_one(views[s]) is Keep);
    let mut atoms: Vec<TabElement3> = Vec::new();
    let mut lefts: Vec<&'a [u8]> = Vec::new();
    let mut s: usize = 0;
    while s < 6
        invariant
            s <= 6,
            bodies.len() == 6,
            first.len() == 6,
            rests.len() == 6,
            views == views_of(bodies@),
            bodies@ == old(bodies)@,
            stuck == |s: int| !(resync_one(views[s]) is Keep),
            first_where(|s: int| atom_fails(views[s]), 0, 6) == 6,
            first_wide(views) == other,
            other < 6,
            atoms.len() == s,
            lefts.len() == s,
            forall|j: int|
                0 <= j < 6 ==> {
                    &&& spec_tab_element(#[trigger] bodies[j]@) is Ok
                    &&& first[j] == atom_of(bodies[j]@)
                    &&& rests[j]@ == bodies[j]@.skip(width_of(bodies[j]@) as int)
                    &&& 1 <= width_of(bodies[j]@) <= bodies[j]@.len()
                },
            forall|j: int| 0 <= j < s ==> !#[trigger] stuck(j),
            forall|j: int|
                0 <= j < s ==> {
                    &&& resync_one(views[j]) == (Resync::Keep {
                        atom: #[trigger] atoms[j],
                        used: (views[j].len() - lefts[j]@.len()) as nat,
                    })
                    &&& lefts[j]@ == views[j].skip(views[j].len() - lefts[j]@.len())
                    &&& lefts[j]@.len() < views[j].len()
                },
        decreases 6 - s,
    {
        let body: &'a [u8] = bodies[s];
        assert(views[s as int] == body@);
        match resync_string(body, first[s], rests[s]) {
            Ok((kept, left)) => {
                atoms.push(kept);
                lefts.push(left);
            },
            Err(failure) => {
                let byte = peek(rests[s]);
                let tick_failure = match failure {
                    Resync::Rejected { why } => TickFailure::Rejected {
                        string: s,
                        second: true,
                        why,
                        byte,
                    },
                    Resync::BothMulti => TickFailure::BothSlotsMultichar { string: s, other },
                    _ => TickFailure::BothSlotsFilled { string: s },
                };
                proof {
                    assert(stuck(s as int));
                    lemma_first_where_is(stuck, 0, 6, s as int);
                    if failure is Rejected {
                        assert(width_of(body@) == 1);
                        assert(rests[s as int]@ == body@.skip(1));
                    }
                }
                return Err(tick_failure);
            },
        }
        s = s + 1;
    }
    proof {
        lemma_first_where_is(stuck, 0, 6, 6);
        let kept = Seq::new(6, |s: int| resync_one(views[s])->Keep_atom);
        let moved = Seq::new(
            6,
            |s: int| views[s].skip(resync_one(views[s])->Keep_used as int),
        );
        assert forall|j: int| 0 <= j < 6 implies atoms@[j] == kept[j] && views_of(lefts@)[j]
            == moved[j] && (#[trigger] lefts[j])@.len() < old(bodies)[j]@.len() by {
            let a = atoms[j];
            assert(views[j] == old(bodies)[j]@);
        }
        assert(atoms@ =~= kept);
        assert(views_of(lefts@) =~= moved);
    }
    *bodies = lefts;
    Ok((atoms, true))
}

} // verus!

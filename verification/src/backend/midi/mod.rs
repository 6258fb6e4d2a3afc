//! The MIDI events of a tick stream: one track for every string.
use vstd::prelude::*;
use crate::backend::muxml::fretboard::{base_note, string_base};
use crate::parser::parser::ParserResult;
use crate::parser::tab_element::TabElement3;

verus! {

/// The backend that writes a standard MIDI file.
pub struct MidiBackend();

/// Beats per minute.
pub const BPM: u32 = 80;

/// The length of a quarter note in microseconds.
pub const LENGTH_OF_QUARTER: u32 = 750000;

/// The length of an eighth note in MIDI ticks.
pub const LENGTH_OF_EIGHTH: u32 = 1;

/// The velocity of every note.
pub const VELOCITY: u8 = 100;

/// What a MIDI event does.
#[derive(Debug, Clone, Copy, PartialEq, Eq, Structural)]
pub enum MidiEventKind {
    NoteOn { key: u8, vel: u8 },
    NoteOff { key: u8, vel: u8 },
    EndOfTrack,
}

/// A MIDI event of channel 0, and the ticks that pass before it.
#[derive(Debug, Clone, Copy, PartialEq, Eq, Structural)]
pub struct MidiEvent {
    pub delta: u32,
    pub kind: MidiEventKind,
}

/// The MIDI key of the open string named `letter`: an octave above the
/// pitch that the fretboard gives it.
pub open spec fn midi_base(letter: char) -> Option<u8> {
    match string_base(letter) {
        Some(base) => Some((base + 12) as u8),
        None => None,
    }
}

/// The MIDI key of fret `fret` on a string whose open key is `base`, within
/// the 128 keys that MIDI has.
pub open spec fn midi_key(base: u8, fret: u8) -> u8 {
    ((base + fret) % 128) as u8
}

/// The MIDI key of the open string `t` of the first part, where the part
/// has that string and the fretboard knows its name.
pub open spec fn base_of(base_notes: Seq<char>, t: int) -> Option<u8> {
    if 0 <= t < base_notes.len() {
        midi_base(base_notes[t])
    } else {
        None
    }
}

/// The events of string `t` among the first `n` atoms of the stream, and
/// the ticks of rest that have passed since the last of them. A fret is a
/// note that starts after the rests before it and stops an eighth later; a
/// rest lets one tick pass; any other atom does nothing.
pub open spec fn track_events(stream: Seq<TabElement3>, base: Option<u8>, t: int, n: int) -> (
    Seq<MidiEvent>,
    nat,
)
    decreases n,
{
    if n <= 0 {
        (Seq::empty(), 0)
    } else {
        let before = track_events(stream, base, t, n - 1);
        if (n - 1) % 6 != t {
            before
        } else {
            match stream[n - 1] {
                TabElement3::Fret(fret) => (
                    before.0.push(
                        MidiEvent {
                            delta: before.1 as u32,
                            kind: MidiEventKind::NoteOn {
                                key: midi_key(base->0, fret),
                                vel: VELOCITY,
                            },
                        },
                    ).push(
                        MidiEvent {
                            delta: LENGTH_OF_EIGHTH,
                            kind: MidiEventKind::NoteOff {
                                key: midi_key(base->0, fret),
                                vel: VELOCITY,
                            },
                        },
                    ),
                    0,
                ),
                TabElement3::Rest => (before.0, before.1 + 1),
                _ => before,
            }
        }
    }
}

/// The track of string `t`: its events, and the end of the track.
pub open spec fn track_of(stream: Seq<TabElement3>, base_notes: Seq<char>, t: int) -> Seq<MidiEvent> {
    track_events(stream, base_of(base_notes, t), t, stream.len() as int).0.push(
        MidiEvent { delta: 0, kind: MidiEventKind::EndOfTrack },
    )
}

/// The tick stream can be played: it is no longer than a `u32` counts, and
/// every fret stands on a string of the first part whose name the
/// fretboard knows.
pub open spec fn playable(stream: Seq<TabElement3>, base_notes: Seq<char>) -> bool {
    stream.len() <= u32::MAX && forall|i: int|
        0 <= i < stream.len() && (#[trigger] stream[i]) is Fret ==> base_of(base_notes, i % 6) is Some
}

/// The rests that have passed on a track never outnumber the atoms seen.
pub proof fn lemma_carry_bounded(stream: Seq<TabElement3>, base: Option<u8>, t: int, n: int)
    requires
        0 <= n,
    ensures
        track_events(stream, base, t, n).1 <= n,
    decreases n,
{
    if n > 0 {
        lemma_carry_bounded(stream, base, t, n - 1);
    }
}

/// The six tracks of the tick stream, one for every string from the top
/// one down, each closed by an end of track. Nothing where the stream
/// cannot be played.
pub fn convert_to_midi(parsed: &ParserResult) -> (r: Option<Vec<Vec<MidiEvent>>>)
    ensures
        r is Some <==> playable(parsed@.tick_stream, parsed@.base_notes),
        r is Some ==> r->0@.len() == 6 && forall|t: int|
            0 <= t < 6 ==> (#[trigger] r->0@[t])@ == track_of(
                parsed@.tick_stream,
                parsed@.base_notes,
                t,
            ),
{
    let ghost stream = parsed@.tick_stream;
    let ghost notes = parsed@.base_notes;
    if parsed.tick_stream.len() > u32::MAX as usize {
        return None;
    }
    let mut bases: Vec<Option<u8>> = Vec::new();
    let mut tracks: Vec<Vec<MidiEvent>> = Vec::new();
    let mut carry: Vec<u32> = Vec::new();
    let mut t: usize = 0;
    while t < 6
        invariant
            t <= 6,
            notes == parsed@.base_notes,
            bases.len() == t,
            tracks.len() == t,
            carry.len() == t,
            forall|j: int| 0 <= j < t ==> base_of(notes, j) == #[trigger] bases[j],
            forall|j: int| 0 <= j < t ==> (#[trigger] tracks[j])@ == Seq::<MidiEvent>::empty(),
            forall|j: int| 0 <= j < t ==> #[trigger] carry[j] == 0,
        decreases 6 - t,
    {
        let base: Option<u8> = if t < parsed.base_notes.len() {
            match base_note(parsed.base_notes[t]) {
                Some(base) => Some(base + 12),
                None => None,
            }
        } else {
            None
        };
        bases.push(base);
        tracks.push(Vec::new());
        carry.push(0);
        t = t + 1;
    }
    let mut i: usize = 0;
    while i < parsed.tick_stream.len()
        invariant
            i <= stream.len(),
            stream == parsed@.tick_stream,
            notes == parsed@.base_notes,
            stream.len() <= u32::MAX,
            bases.len() == 6,
            tracks.len() == 6,
            carry.len() == 6,
            forall|j: int| 0 <= j < 6 ==> base_of(notes, j) == #[trigger] bases[j],
            forall|j: int|
                0 <= j < i && (#[trigger] stream[j]) is Fret ==> base_of(notes, j % 6) is Some,
            forall|j: int|
                0 <= j < 6 ==> (#[trigger] tracks[j])@ == track_events(
                    stream,
                    bases[j],
                    j,
                    i as int,
                ).0,
            forall|j: int|
                0 <= j < 6 ==> #[trigger] carry[j] == track_events(stream, bases[j], j, i as int).1,
        decreases stream.len() - i,
    {
        let track = i % 6;
        let ghost old_tracks = tracks@;
        let ghost old_carry = carry@;
        proof {
            lemma_carry_bounded(stream, bases[track as int], track as int, i as int);
        }
        match parsed.tick_stream[i] {
            TabElement3::Fret(fret) => {
                let base: u8 = match bases[track] {
                    Some(base) => base,
                    None => {
                        assert(stream[i as int] is Fret);
                        return None;
                    },
                };
                let key: u8 = ((base as u16 + fret as u16) % 128) as u8;
                let delta = carry[track];
                tracks[track].push(
                    MidiEvent { delta, kind: MidiEventKind::NoteOn { key, vel: VELOCITY } },
                );
                tracks[track].push(
                    MidiEvent {
                        delta: LENGTH_OF_EIGHTH,
                        kind: MidiEventKind::NoteOff { key, vel: VELOCITY },
                    },
                );
                carry[track] = 0;
            },
            TabElement3::Rest => {
                carry[track] = carry[track] + 1;
            },
            _ => {},
        }
        proof {
            assert forall|j: int| 0 <= j < 6 implies (#[trigger] tracks[j])@ == track_events(
                stream,
                bases[j],
                j,
                i + 1,
            ).0 && carry[j] == track_events(stream, bases[j], j, i + 1).1 by {
                if j != track {
                    assert(tracks[j] == old_tracks[j]);
                    assert(carry[j] == old_carry[j]);
                }
            }
        }
        i = i + 1;
    }
    let mut t: usize = 0;
    while t < 6
        invariant
            t <= 6,
            stream == parsed@.tick_stream,
            notes == parsed@.base_notes,
            bases.len() == 6,
            tracks.len() == 6,
            forall|j: int| 0 <= j < 6 ==> base_of(notes, j) == #[trigger] bases[j],
            forall|j: int| 0 <= j < t ==> (#[trigger] tracks[j])@ == track_of(stream, notes, j),
            forall|j: int|
                t <= j < 6 ==> (#[trigger] tracks[j])@ == track_events(
                    stream,
                    bases[j],
                    j,
                    stream.len() as int,
                ).0,
        decreases 6 - t,
    {
        let ghost old_tracks = tracks@;
        tracks[t].push(MidiEvent { delta: 0, kind: MidiEventKind::EndOfTrack });
        proof {
            assert forall|j: int| 0 <= j < 6 && j != t implies tracks[j] == old_tracks[j] by {}
            assert(base_of(notes, t as int) == bases[t as int]);
        }
        t = t + 1;
    }
    Some(tracks)
}

} // verus!

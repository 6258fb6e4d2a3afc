//! The fretboard: which pitch a fret on a string sounds.
use vstd::prelude::*;

verus! {

/// The name and the sharp of the `i`-th step of the chromatic scale from C.
pub open spec fn spec_step_name(i: int) -> (char, bool) {
    if i == 0 {
        ('C', false)
    } else if i == 1 {
        ('C', true)
    } else if i == 2 {
        ('D', false)
    } else if i == 3 {
        ('D', true)
    } else if i == 4 {
        ('E', false)
    } else if i == 5 {
        ('F', false)
    } else if i == 6 {
        ('F', true)
    } else if i == 7 {
        ('G', false)
    } else if i == 8 {
        ('G', true)
    } else if i == 9 {
        ('A', false)
    } else if i == 10 {
        ('A', true)
    } else {
        ('B', false)
    }
}

/// The place of a note name in the chromatic scale from C, if it is one of
/// the twelve that the scale is written with.
pub open spec fn chromatic_index(step: char, sharp: bool) -> Option<int> {
    if step == 'C' {
        Some(if sharp { 1int } else { 0int })
    } else if step == 'D' {
        Some(if sharp { 3int } else { 2int })
    } else if step == 'E' && !sharp {
        Some(4int)
    } else if step == 'F' {
        Some(if sharp { 6int } else { 5int })
    } else if step == 'G' {
        Some(if sharp { 8int } else { 7int })
    } else if step == 'A' {
        Some(if sharp { 10int } else { 9int })
    } else if step == 'B' && !sharp {
        Some(11int)
    } else {
        None
    }
}

/// The pitch of the open string named `letter`, in semitones above the C of
/// octave 0, for the seven names of the standard tuning.
pub open spec fn string_base(letter: char) -> Option<u8> {
    if letter == 'E' {
        Some(40u8)
    } else if letter == 'A' {
        Some(45u8)
    } else if letter == 'D' {
        Some(50u8)
    } else if letter == 'G' {
        Some(55u8)
    } else if letter == 'B' {
        Some(59u8)
    } else if letter == 'd' {
        Some(62u8)
    } else if letter == 'e' {
        Some(64u8)
    } else {
        None
    }
}

/// The step, the octave and the sharp of the pitch `pitch`.
pub open spec fn spec_step_octave_sharp(pitch: int) -> (char, u8, bool) {
    (spec_step_name(pitch % 12).0, (pitch / 12) as u8, spec_step_name(pitch % 12).1)
}

/// The note that fret `fret` sounds on the string named `letter`: the step,
/// the octave and the sharp of the pitch of the open string plus the fret.
pub open spec fn spec_note_of(letter: char, fret: u8) -> Option<(char, u8, bool)> {
    match string_base(letter) {
        Some(base) => Some(spec_step_octave_sharp(base + fret)),
        None => None,
    }
}

/// A note as a pitch in semitones above the C of octave 0.
#[derive(Debug, Clone, Copy, PartialEq, Eq, Structural)]
pub struct MuxmlNote2 {
    /// Numeric representation of the frequency.
    ///
    /// step=0 is an octave 0 C,
    /// step=1 is an octave 0 C#,
    /// step=2 is an octave 0 D,
    /// and so on.
    pub step: u16,
    pub dead: bool,
}

/// A note as it is written: step, octave and sharp.
#[derive(Debug, Clone, Copy, PartialEq, Eq, Structural)]
pub struct MuxmlNote {
    pub step: char,
    pub octave: u8,
    pub sharp: bool,
    pub dead: bool,
}

/// The name and the sharp of the `i`-th step of the chromatic scale.
fn step_name(i: u16) -> (r: (char, bool))
    requires
        i < 12,
    ensures
        r == spec_step_name(i as int),
{
    if i == 0 {
        ('C', false)
    } else if i == 1 {
        ('C', true)
    } else if i == 2 {
        ('D', false)
    } else if i == 3 {
        ('D', true)
    } else if i == 4 {
        ('E', false)
    } else if i == 5 {
        ('F', false)
    } else if i == 6 {
        ('F', true)
    } else if i == 7 {
        ('G', false)
    } else if i == 8 {
        ('G', true)
    } else if i == 9 {
        ('A', false)
    } else if i == 10 {
        ('A', true)
    } else {
        ('B', false)
    }
}

/// The pitch of the open string named `letter`.
pub fn base_note(letter: char) -> (r: Option<u8>)
    ensures
        r == string_base(letter),
{
    if letter == 'E' {
        Some(40)
    } else if letter == 'A' {
        Some(45)
    } else if letter == 'D' {
        Some(50)
    } else if letter == 'G' {
        Some(55)
    } else if letter == 'B' {
        Some(59)
    } else if letter == 'd' {
        Some(62)
    } else if letter == 'e' {
        Some(64)
    } else {
        None
    }
}

impl MuxmlNote2 {
    /// The step, the octave and the sharp that the pitch is written with.
    pub fn step_octave_sharp(&self) -> (r: (char, u8, bool))
        requires
            self.step / 12 <= u8::MAX,
        ensures
            r == spec_step_octave_sharp(self.step as int),
    {
        let name = step_name(self.step % 12);
        (name.0, (self.step / 12) as u8, name.1)
    }
}

/// The pitch that fret `fret` sounds on the string named `string`, for the
/// seven string names of the standard tuning; nothing for any other name.
pub fn get_fretboard_note2(string: char, fret: u8) -> (r: Option<MuxmlNote2>)
    ensures
        r == match string_base(string) {
            Some(base) => Some(MuxmlNote2 { step: (base + fret) as u16, dead: false }),
            None => None,
        },
{
    match base_note(string) {
        Some(base) => Some(MuxmlNote2 { step: base as u16 + fret as u16, dead: false }),
        None => None,
    }
}

/// The step, the octave and the sharp of the note that fret `fret` sounds on
/// the string named `string_letter`. There is a note for each of the string
/// names `e d B G D A E` and every fret, and none for any other name.
pub fn note_of(string_letter: char, fret: u8) -> (r: Option<(char, u8, bool)>)
    ensures
        r == spec_note_of(string_letter, fret),
        r is Some <==> (string_letter == 'e' || string_letter == 'd' || string_letter == 'B'
            || string_letter == 'G' || string_letter == 'D' || string_letter == 'A'
            || string_letter == 'E'),
{
    match get_fretboard_note2(string_letter, fret) {
        Some(note) => Some(note.step_octave_sharp()),
        None => None,
    }
}

/// The note written `step`, `sharp` in octave `octave`, as a pitch.
pub open spec fn written_pitch(step: char, sharp: bool, octave: u8) -> Option<int> {
    match chromatic_index(step, sharp) {
        Some(i) => Some(12 * octave + i),
        None => None,
    }
}

/// The note that the pitch `pitch` is written as.
pub open spec fn note_at(pitch: int, dead: bool) -> MuxmlNote {
    MuxmlNote {
        step: spec_step_name(pitch % 12).0,
        octave: (pitch / 12) as u8,
        sharp: spec_step_name(pitch % 12).1,
        dead,
    }
}

/// The natural note `step` in octave `octave`.
pub fn note(step: char, octave: u8) -> (n: MuxmlNote)
    ensures
        n == (MuxmlNote { step, octave, sharp: false, dead: false }),
{
    MuxmlNote { step, octave, sharp: false, dead: false }
}

/// The sharp note `step` in octave `octave`.
pub fn note_sharp(step: char, octave: u8) -> (n: MuxmlNote)
    ensures
        n == (MuxmlNote { step, octave, sharp: true, dead: false }),
{
    MuxmlNote { step, octave, sharp: true, dead: false }
}

impl MuxmlNote {
    /// The pitch of the note, if its name is one of the twelve of the scale.
    pub open spec fn pitch(&self) -> Option<int> {
        written_pitch(self.step, self.sharp, self.octave)
    }

    /// The note one semitone above this one. There is none where the name is
    /// not one of the twelve of the scale, or where the octave would pass 255.
    pub fn next_note(&self) -> (r: Option<MuxmlNote>)
        ensures
            r == match self.pitch() {
                Some(p) => if (p + 1) / 12 <= u8::MAX {
                    Some(note_at(p + 1, self.dead))
                } else {
                    None
                },
                None => None,
            },
    {
        let new = *self;
        new.next_note_consuming()
    }

    /// The note one semitone above this one. There is none where the name is
    /// not one of the twelve of the scale, or where the octave would pass 255.
    pub fn next_note_consuming(self) -> (r: Option<MuxmlNote>)
        ensures
            r == match self.pitch() {
                Some(p) => if (p + 1) / 12 <= u8::MAX {
                    Some(note_at(p + 1, self.dead))
                } else {
                    None
                },
                None => None,
            },
    {
        let index: u16 = if self.step == 'C' {
            if self.sharp { 1 } else { 0 }
        } else if self.step == 'D' {
            if self.sharp { 3 } else { 2 }
        } else if self.step == 'E' && !self.sharp {
            4
        } else if self.step == 'F' {
            if self.sharp { 6 } else { 5 }
        } else if self.step == 'G' {
            if self.sharp { 8 } else { 7 }
        } else if self.step == 'A' {
            if self.sharp { 10 } else { 9 }
        } else if self.step == 'B' && !self.sharp {
            11
        } else {
            return None;
        };
        if index == 11 {
            if self.octave == u8::MAX {
                return None;
            }
            Some(MuxmlNote { step: 'C', octave: self.octave + 1, sharp: false, dead: self.dead })
        } else {
            let name = step_name(index + 1);
            Some(MuxmlNote { step: name.0, octave: self.octave, sharp: name.1, dead: self.dead })
        }
    }
}

/// The note that fret `fret` sounds on the string named `string`, as it is
/// written. There is none for an unknown string name, nor where the octave
/// would pass 255.
pub fn get_fretboard_note(string: char, fret: u16) -> (r: Option<MuxmlNote>)
    ensures
        r == match string_base(string) {
            Some(base) => if (base + fret) / 12 <= u8::MAX {
                Some(note_at(base + fret, false))
            } else {
                None
            },
            None => None,
        },
{
    match base_note(string) {
        Some(base) => {
            let pitch: u32 = base as u32 + fret as u32;
            if pitch / 12 > u8::MAX as u32 {
                None
            } else {
                let name = step_name((pitch % 12) as u16);
                Some(
                    MuxmlNote {
                        step: name.0,
                        octave: (pitch / 12) as u8,
                        sharp: name.1,
                        dead: false,
                    },
                )
            }
        },
        None => None,
    }
}

/// A pitch that is written down and read back is the same pitch. So going
/// up the frets of a string goes up the scale one semitone at a time: the
/// next note of the note at `pitch` is the note at `pitch + 1`.
pub proof fn lemma_written_pitch_reads_back(pitch: int, dead: bool)
    requires
        0 <= pitch,
        pitch / 12 <= u8::MAX,
    ensures
        note_at(pitch, dead).pitch() == Some(pitch),
{
}

} // verus!

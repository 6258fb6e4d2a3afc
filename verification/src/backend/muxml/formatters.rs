//! The text of the MusicXML elements, and the writers that append it.
use vstd::prelude::*;
use vstd::string::StringExecFns;
use crate::backend::muxml::{NoteProperties, PropsView, Slide, Slur, Vibrato};
use crate::text::{decimal_text, format_decimal};

verus! {

/// What stands before the first measure of every document.
pub const MUXML_INCOMPLETE_DOC_PRELUDE: &'static str =
    "\n<?xml version=\"1.0\" encoding=\"UTF-8\"?>\n<!DOCTYPE score-partwise PUBLIC \"-//Recordare//DTD MusicXML 4.0 Partwise//EN\" \"http://www.musicxml.org/dtds/partwise.dtd\">\n<score-partwise version=\"4.0\">\n  <identification>\n    <encoding>\n      <software>scoreman</software>\n      <supports element=\"accidental\" type=\"yes\"/>\n      <supports element=\"beam\" type=\"yes\"/>\n      <supports element=\"print\" attribute=\"new-page\" type=\"no\"/>\n      <supports element=\"print\" attribute=\"new-system\" type=\"no\"/>\n      <supports element=\"stem\" type=\"yes\"/>\n    </encoding>\n  </identification>\n  <part-list>\n    <score-part id=\"P1\">\n      <part-name>Guitar1</part-name>\n    </score-part>\n  </part-list>\n  <part id=\"P1\">\n";

/// What stands after the last measure of every document.
pub const MUXML2_DOCUMENT_END: &'static str = "\n</part>\n</score-partwise>\n";

/// `text` where `on` holds, nothing where it does not.
pub open spec fn when(on: bool, text: Seq<char>) -> Seq<char> {
    if on {
        text
    } else {
        Seq::empty()
    }
}

/// The word for one end of a span.
pub open spec fn end_word(start: bool) -> Seq<char> {
    if start {
        "start"@
    } else {
        "stop"@
    }
}

/// The text of a rest of `duration` eighths, of the note type `kind`.
pub open spec fn rest_text(kind: Seq<char>, duration: u8) -> Seq<char> {
    "<note>\n<rest measure=\"no\"/>\n<duration>"@ + decimal_text(duration as nat)
        + "</duration>\n<voice>1</voice>\n<type>"@ + kind + "</type>\n</note>\n"@
}

/// The text of `x` eighths of rest: as many whole rests as fit, then a half,
/// a quarter and an eighth for what is left.
pub open spec fn rests_text(x: nat) -> Seq<char>
    decreases x,
{
    if x >= 8 {
        rest_text("whole"@, 8) + rests_text((x - 8) as nat)
    } else if x >= 4 {
        rest_text("half"@, 4) + rests_text((x - 4) as nat)
    } else if x >= 2 {
        rest_text("quarter"@, 2) + rests_text((x - 2) as nat)
    } else if x >= 1 {
        rest_text("eighth"@, 1)
    } else {
        Seq::empty()
    }
}

/// The text of one end of a slur.
pub open spec fn slur_text(slur: Slur) -> Seq<char> {
    "<slur type=\""@ + end_word(slur.start) + "\" number=\""@ + decimal_text(slur.number as nat)
        + "\"/>\n"@
}

/// The text of the first `n` slurs of `slurs`, in their order.
pub open spec fn slurs_text(slurs: Seq<Slur>, n: int) -> Seq<char>
    decreases n,
{
    if n <= 0 {
        Seq::empty()
    } else {
        slurs_text(slurs, n - 1) + slur_text(slurs[n - 1])
    }
}

/// The text of one end of a slide.
pub open spec fn slide_text(slide: Slide) -> Seq<char> {
    "<slide type=\""@ + end_word(slide.start) + "\" number=\""@ + decimal_text(
        slide.number as nat,
    ) + "\"/>\n"@
}

/// The text of one end of a vibrato.
pub open spec fn vibrato_text(vibrato: Vibrato) -> Seq<char> {
    "<ornaments>\n<wavy-line type=\""@ + end_word(vibrato == Vibrato::Start)
        + "\"/>\n</ornaments>\n"@
}

/// The text of the slide of a note, if it has one.
pub open spec fn slide_part(slide: Option<Slide>) -> Seq<char> {
    match slide {
        Some(slide) => slide_text(slide),
        None => Seq::empty(),
    }
}

/// The text of the vibrato of a note, if it has one.
pub open spec fn vibrato_part(vibrato: Option<Vibrato>) -> Seq<char> {
    match vibrato {
        Some(vibrato) => vibrato_text(vibrato),
        None => Seq::empty(),
    }
}

/// The notations of a note: its slurs in their order, then its slide, then
/// its vibrato. Nothing for a note without properties.
pub open spec fn notations_text(properties: Option<PropsView>) -> Seq<char> {
    match properties {
        None => Seq::empty(),
        Some(p) => "<notations>\n"@ + slurs_text(p.slurs, p.slurs.len() as int) + slide_part(
            p.slide,
        ) + vibrato_part(p.vibrato) + "</notations>\n"@,
    }
}

/// How a note opens: the chord mark, where it is not the first of its tick,
/// and the step.
pub open spec fn note_head_text(step: char, chord: bool) -> Seq<char> {
    "<note>\n"@ + when(chord, "<chord/>\n"@) + "<pitch><step>"@ + seq![step] + "</step>\n"@
}

/// The alteration, the octave, the duration and the type of an eighth note.
pub open spec fn pitch_text(octave: u8, sharp: bool) -> Seq<char> {
    when(sharp, "<alter>1</alter>\n"@) + "<octave>"@ + decimal_text(octave as nat)
        + "</octave>\n</pitch>\n<duration>1</duration>\n<type>eighth</type>\n"@
}

/// The accidental of a sharp note and the notehead of a dead note.
pub open spec fn marks_text(sharp: bool, dead: bool) -> Seq<char> {
    when(sharp, "<accidental>sharp</accidental>\n"@) + when(dead, "<notehead>x</notehead>\n"@)
}

/// The text of an eighth note.
pub open spec fn note_text(
    step: char,
    octave: u8,
    sharp: bool,
    chord: bool,
    dead: bool,
    properties: Option<PropsView>,
) -> Seq<char> {
    note_head_text(step, chord) + pitch_text(octave, sharp) + marks_text(sharp, dead)
        + notations_text(properties) + "</note>\n"@
}

/// The text that opens measure `number`, counted from 0, with its time
/// signature. The first measure also gets the key and the clef.
pub open spec fn measure_prelude_text(number: nat, note_count: nat, note_type: nat) -> Seq<char> {
    "<measure number=\""@ + decimal_text(number)
        + "\">\n<attributes>\n<divisions>2</divisions>\n"@ + when(
        number == 0,
        "<key><fifths>0</fifths></key>\n"@,
    ) + "<time><beats>"@ + decimal_text(note_count) + "</beats><beat-type>"@ + decimal_text(
        note_type,
    ) + "</beat-type></time>\n"@ + when(
        number == 0,
        "<clef><sign>G</sign><line>2</line></clef>\n"@,
    ) + "</attributes>\n"@
}

/// Appends a rest of `duration` eighths, of the note type `kind`.
pub fn write_muxml2_rest(buf: &mut String, kind: &str, duration: u8)
    ensures
        final(buf)@ == old(buf)@ + rest_text(kind@, duration),
{
    let digits = format_decimal(duration as u128);
    buf.append("<note>\n<rest measure=\"no\"/>\n<duration>");
    buf.append(digits.as_str());
    buf.append("</duration>\n<voice>1</voice>\n<type>");
    buf.append(kind);
    buf.append("</type>\n</note>\n");
    assert(buf@ =~= old(buf)@ + rest_text(kind@, duration));
}

/// Appends `x` eighths of rest.
pub fn write_rest(buf: &mut String, x: u32)
    ensures
        final(buf)@ == old(buf)@ + rests_text(x as nat),
{
    let mut x = x;
    let ghost total = rests_text(x as nat);
    assert(buf@ + total =~= old(buf)@ + total);
    while x != 0
        invariant
            buf@ + rests_text(x as nat) == old(buf)@ + total,
        decreases x,
    {
        let ghost before = buf@;
        let ghost rest = rests_text(x as nat);
        if x >= 8 {
            write_muxml2_rest(buf, "whole", 8);
            x = x - 8;
        } else if x >= 4 {
            write_muxml2_rest(buf, "half", 4);
            x = x - 4;
        } else if x >= 2 {
            write_muxml2_rest(buf, "quarter", 2);
            x = x - 2;
        } else {
            write_muxml2_rest(buf, "eighth", 1);
            x = x - 1;
        }
        assert(buf@ + rests_text(x as nat) =~= before + rest);
    }
    assert(buf@ + rests_text(0) =~= buf@);
}

/// Appends one end of a span: `open`, the word for the end, the number and
/// the closing of the element.
fn write_span_end(buf: &mut String, open: &str, start: bool, number: u32)
    ensures
        final(buf)@ == old(buf)@ + (open@ + end_word(start) + "\" number=\""@ + decimal_text(
            number as nat,
        ) + "\"/>\n"@),
{
    let digits = format_decimal(number as u128);
    buf.append(open);
    buf.append(
        if start {
            "start"
        } else {
            "stop"
        },
    );
    buf.append("\" number=\"");
    buf.append(digits.as_str());
    buf.append("\"/>\n");
    assert(buf@ =~= old(buf)@ + (open@ + end_word(start) + "\" number=\""@ + decimal_text(
        number as nat,
    ) + "\"/>\n"@));
}

/// Appends the slurs of a note, in their order.
fn write_slurs(buf: &mut String, slurs: &Vec<Slur>)
    ensures
        final(buf)@ == old(buf)@ + slurs_text(slurs@, slurs@.len() as int),
{
    let mut i: usize = 0;
    assert(buf@ + slurs_text(slurs@, 0) =~= buf@);
    while i < slurs.len()
        invariant
            i <= slurs@.len(),
            buf@ == old(buf)@ + slurs_text(slurs@, i as int),
        decreases slurs.len() - i,
    {
        let slur = slurs[i];
        write_span_end(buf, "<slur type=\"", slur.start, slur.number);
        assert(buf@ =~= old(buf)@ + slurs_text(slurs@, i + 1));
        i = i + 1;
    }
}

/// Appends the slide of a note, if it has one.
fn write_slide(buf: &mut String, slide: Option<Slide>)
    ensures
        final(buf)@ == old(buf)@ + slide_part(slide),
{
    match slide {
        Some(slide) => {
            write_span_end(buf, "<slide type=\"", slide.start, slide.number);
        },
        None => {
            assert(buf@ + Seq::<char>::empty() =~= buf@);
        },
    }
}

/// Appends the vibrato of a note, if it has one.
fn write_vibrato(buf: &mut String, vibrato: Option<Vibrato>)
    ensures
        final(buf)@ == old(buf)@ + vibrato_part(vibrato),
{
    match vibrato {
        Some(vibrato) => {
            buf.append("<ornaments>\n<wavy-line type=\"");
            buf.append(
                match vibrato {
                    Vibrato::Start => "start",
                    Vibrato::Stop => "stop",
                },
            );
            buf.append("\"/>\n</ornaments>\n");
            assert(buf@ =~= old(buf)@ + vibrato_text(vibrato));
        },
        None => {
            assert(buf@ + Seq::<char>::empty() =~= buf@);
        },
    }
}

/// Appends the notations of a note.
fn write_notations(buf: &mut String, properties: Option<&NoteProperties>)
    ensures
        final(buf)@ == old(buf)@ + notations_text(
            match properties {
                Some(p) => Some(p@),
                None => None,
            },
        ),
{
    match properties {
        None => {
            assert(buf@ + Seq::<char>::empty() =~= buf@);
        },
        Some(p) => {
            buf.append("<notations>\n");
            write_slurs(buf, &p.slurs);
            write_slide(buf, p.slide);
            write_vibrato(buf, p.vibrato);
            buf.append("</notations>\n");
            assert(buf@ =~= old(buf)@ + ("<notations>\n"@ + slurs_text(
                p.slurs@,
                p.slurs@.len() as int,
            ) + slide_part(p.slide) + vibrato_part(p.vibrato) + "</notations>\n"@));
        },
    }
}

/// Appends the opening of a note and its step.
fn write_note_head(buf: &mut String, step: char, chord: bool)
    ensures
        final(buf)@ == old(buf)@ + note_head_text(step, chord),
{
    buf.append("<note>\n");
    if chord {
        buf.append("<chord/>\n");
    }
    buf.append("<pitch><step>");
    buf.push(step);
    buf.append("</step>\n");
    assert(buf@ =~= old(buf)@ + note_head_text(step, chord));
}

/// Appends the alteration, the octave, the duration and the type of a note.
fn write_pitch(buf: &mut String, octave: u8, sharp: bool)
    ensures
        final(buf)@ == old(buf)@ + pitch_text(octave, sharp),
{
    let digits = format_decimal(octave as u128);
    if sharp {
        buf.append("<alter>1</alter>\n");
    }
    buf.append("<octave>");
    buf.append(digits.as_str());
    buf.append("</octave>\n</pitch>\n<duration>1</duration>\n<type>eighth</type>\n");
    assert(buf@ =~= old(buf)@ + pitch_text(octave, sharp));
}

/// Appends the accidental and the notehead of a note.
fn write_marks(buf: &mut String, sharp: bool, dead: bool)
    ensures
        final(buf)@ == old(buf)@ + marks_text(sharp, dead),
{
    if sharp {
        buf.append("<accidental>sharp</accidental>\n");
    }
    if dead {
        buf.append("<notehead>x</notehead>\n");
    }
    assert(buf@ =~= old(buf)@ + marks_text(sharp, dead));
}

/// Appends an eighth note.
pub fn write_muxml2_note(
    buf: &mut String,
    step: char,
    octave: u8,
    sharp: bool,
    chord: bool,
    dead: bool,
    properties: Option<&NoteProperties>,
)
    ensures
        final(buf)@ == old(buf)@ + note_text(
            step,
            octave,
            sharp,
            chord,
            dead,
            match properties {
                Some(p) => Some(p@),
                None => None,
            },
        ),
{
    let ghost props = match properties {
        Some(p) => Some(p@),
        None => None,
    };
    write_note_head(buf, step, chord);
    write_pitch(buf, octave, sharp);
    write_marks(buf, sharp, dead);
    write_notations(buf, properties);
    buf.append("</note>\n");
    assert(buf@ =~= old(buf)@ + (note_head_text(step, chord) + pitch_text(octave, sharp)
        + marks_text(sharp, dead) + notations_text(props) + "</note>\n"@));
}

/// Appends the opening of measure `number`, counted from 0, with its time
/// signature.
pub fn write_muxml2_measure_prelude(
    buf: &mut String,
    number: usize,
    note_count: usize,
    note_type: usize,
)
    ensures
        final(buf)@ == old(buf)@ + measure_prelude_text(
            number as nat,
            note_count as nat,
            note_type as nat,
        ),
{
    let first_measure = number == 0;
    let number_digits = format_decimal(number as u128);
    let count_digits = format_decimal(note_count as u128);
    let type_digits = format_decimal(note_type as u128);
    buf.append("<measure number=\"");
    buf.append(number_digits.as_str());
    buf.append("\">\n<attributes>\n<divisions>2</divisions>\n");
    if first_measure {
        buf.append("<key><fifths>0</fifths></key>\n");
    }
    buf.append("<time><beats>");
    buf.append(count_digits.as_str());
    buf.append("</beats><beat-type>");
    buf.append(type_digits.as_str());
    buf.append("</beat-type></time>\n");
    if first_measure {
        buf.append("<clef><sign>G</sign><line>2</line></clef>\n");
    }
    buf.append("</attributes>\n");
    assert(buf@ =~= old(buf)@ + measure_prelude_text(
        number as nat,
        note_count as nat,
        note_type as nat,
    ));
}

} // verus!

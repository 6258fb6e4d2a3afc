use scoreman::backend::errors::backend_error_kind::BackendErrorKind;
use scoreman::backend::errors::diagnostic::Diagnostic;
use scoreman::backend::errors::diagnostic_kind::DiagnosticKind;
use scoreman::backend::errors::error_location::ErrorLocation;
use scoreman::backend::muxml::formatters::{
    write_muxml2_measure_prelude, write_muxml2_note, write_muxml2_rest, write_rest,
    MUXML2_DOCUMENT_END, MUXML_INCOMPLETE_DOC_PRELUDE,
};
use scoreman::backend::muxml::fretboard::{
    get_fretboard_note, get_fretboard_note2, note, note_of, note_sharp, MuxmlNote, MuxmlNote2,
};
use scoreman::backend::muxml::settings::Settings;
use scoreman::backend::muxml::Muxml2TabElement::{CopyTick, Invalid, Rest};
use scoreman::backend::muxml::{
    merge_rests_in_measure, remove_rest_between_notes, trim_measure, Direction, MuxmlBackend,
    MuxmlGenerator, NoteProperties, Slide, Slur, Vibrato,
};
use scoreman::parser::parser::{Measure, Parser, ParserResult};
use scoreman::parser::tab_element::TabElement3;
use scoreman::BufLines;

const ALL_ON: Settings =
    Settings { remove_rest_between_notes: true, trim_measure: true, simplify_time_signature: true };
const ALL_OFF: Settings = Settings {
    remove_rest_between_notes: false,
    trim_measure: false,
    simplify_time_signature: false,
};

fn measure_open(number: usize, beats: usize, beat_type: usize) -> String {
    let first = number == 0;
    format!(
        "<measure number=\"{number}\">\n<attributes>\n<divisions>2</divisions>\n{}<time><beats>{beats}</beats><beat-type>{beat_type}</beat-type></time>\n{}</attributes>\n",
        if first { "<key><fifths>0</fifths></key>\n" } else { "" },
        if first { "<clef><sign>G</sign><line>2</line></clef>\n" } else { "" },
    )
}

fn plain_note(step: &str, sharp: bool, octave: u8, chord: bool, notations: &str) -> String {
    format!(
        "<note>\n{}<pitch><step>{step}</step>\n{}<octave>{octave}</octave>\n</pitch>\n<duration>1</duration>\n<type>eighth</type>\n{}{}</note>\n",
        if chord { "<chord/>\n" } else { "" },
        if sharp { "<alter>1</alter>\n" } else { "" },
        if sharp { "<accidental>sharp</accidental>\n" } else { "" },
        notations,
    )
}

fn rest_note(kind: &str, duration: u8) -> String {
    format!("<note>\n<rest measure=\"no\"/>\n<duration>{duration}</duration>\n<voice>1</voice>\n<type>{kind}</type>\n</note>\n")
}

fn document(measures: &str) -> String {
    format!("{MUXML_INCOMPLETE_DOC_PRELUDE}{measures}{MUXML2_DOCUMENT_END}")
}

fn process(input: &str, settings: Settings) -> String {
    let (doc, err, _) = MuxmlBackend::process(&BufLines::from_string(input.into()), settings);
    assert!(err.is_none());
    doc.unwrap()
}

#[test]
fn muxml2_tests_test_muxml2() {
    let i1 = r#"
e|--------------|
B|-----------0-1|
G|-------1-2----|
D|--0-2-4-------|
A|-3------------|
E|--------------|
    "#;
    let mut body = measure_open(0, 4, 4);
    for (step, sharp, octave) in [
        ("C", false, 4),
        ("D", false, 4),
        ("E", false, 4),
        ("F", true, 4),
        ("G", true, 4),
        ("A", false, 4),
        ("B", false, 4),
        ("C", false, 5),
    ] {
        body += &plain_note(step, sharp, octave, false, "");
    }
    body += "</measure>";
    assert_eq!(process(i1, ALL_ON), document(&body));
}

#[test]
fn muxml2_tests_test_muxml_bends() {
    let i1 = r#"
e|----|
B|----|
G|2b--|
D|----|
A|----|
E|----|
    "#;
    let body = measure_open(0, 1, 4)
        + &plain_note(
            "A",
            false,
            4,
            false,
            "<notations>\n<slur type=\"start\" number=\"1\"/>\n</notations>\n",
        )
        + &plain_note(
            "A",
            true,
            4,
            false,
            "<notations>\n<slur type=\"stop\" number=\"1\"/>\n</notations>\n",
        )
        + "</measure>";
    assert_eq!(process(i1, ALL_ON), document(&body));
}

#[test]
fn muxml2_tests_test_invalid_bends() {
    let example_score = r#"
e|--12-12|--12-12|--12-12-|
B|3------|3------|3----11-|
G|-6-3-3-|-6-3-3-|-6-3---b|
D|-------|-------|-----11-|
A|-------|-------|-----11-|
E|-----9-|-----9-|-----11-|

// This is a comment!

e|--12-12|--12-12|
B|3------|3------|
G|-6-3-3-|-6-3-3-|
D|-------|-------|
A|-------|-------|
E|-----9-|-----9-|"#;
    let res = MuxmlBackend::process(&BufLines::from_string(example_score.into()), ALL_ON);
    assert!(res.0.is_none());
    let e = res.1.unwrap();
    assert_eq!(e.main_location, ErrorLocation::LineAndChar(3, 25));
    assert!(matches!(e.kind, BackendErrorKind::BendOnInvalid));
}

#[test]
fn hanging_bend_gets_its_target_written() {
    let doc = process("e|--|\nB|--|\nG|2b|\nD|--|\nA|--|\nE|--|", ALL_OFF);
    let body = measure_open(0, 3, 8)
        + &plain_note(
            "A",
            false,
            4,
            false,
            "<notations>\n<slur type=\"start\" number=\"1\"/>\n</notations>\n",
        )
        + &rest_note("eighth", 1)
        + &plain_note(
            "A",
            true,
            4,
            false,
            "<notations>\n<slur type=\"stop\" number=\"1\"/>\n</notations>\n",
        )
        + "</measure>";
    assert_eq!(doc, document(&body));
    assert_eq!(doc.matches("<slur type=\"start\" number=\"1\"/>").count(), 1);
    assert_eq!(doc.matches("<slur type=\"stop\" number=\"1\"/>").count(), 1);
}

#[test]
fn generator_walks_the_measures_one_by_one() {
    let lines = BufLines::from_string("e|--|1-|\nB|--|--|\nG|2b|--|\nD|--|--|\nA|--|--|\nE|--|--|".into());
    let parsed = Parser::parse(&lines).unwrap();
    assert_eq!(parsed.tick_stream.len(), 24);
    let mut generator = MuxmlGenerator::init(parsed, ALL_OFF);
    assert!(generator.process_measure(0).is_ok());
    assert!(generator.process_measure(1).is_ok());
    let whole = process("e|--|1-|\nB|--|--|\nG|2b|--|\nD|--|--|\nA|--|--|\nE|--|--|", ALL_OFF);
    let (doc, err) = MuxmlGenerator::init(Parser::parse(&lines).unwrap(), ALL_OFF).gen();
    assert!(err.is_none());
    assert_eq!(doc.unwrap(), whole);
    assert!(whole.contains("<slur type=\"stop\" number=\"1\"/>"));
    assert_eq!(whole.matches("<measure number=").count(), 2);
}

#[test]
fn rests_between_notes_are_removed() {
    let doc = process(
        "e|-----|\nB|-----|\nG|1-2-3|\nD|-----|\nA|-----|\nE|-----|",
        Settings { remove_rest_between_notes: true, ..ALL_OFF },
    );
    let body = measure_open(0, 3, 8)
        + &plain_note("G", true, 4, false, "")
        + &plain_note("A", false, 4, false, "")
        + &plain_note("A", true, 4, false, "")
        + "</measure>";
    assert_eq!(doc, document(&body));
    assert_eq!(doc.matches("<note>").count(), 3);
    assert!(doc.contains("<beats>3</beats>"));
}

#[test]
fn chords_mark_all_notes_but_the_first() {
    let doc = process("e|0|\nB|1|\nG|x|\nD|-|\nA|-|\nE|3|", ALL_OFF);
    let body = measure_open(0, 1, 8)
        + &plain_note("E", false, 5, false, "")
        + &plain_note("C", false, 5, true, "")
        + "<note>\n<chord/>\n<pitch><step>G</step>\n<octave>4</octave>\n</pitch>\n<duration>1</duration>\n<type>eighth</type>\n<notehead>x</notehead>\n</note>\n"
        + &plain_note("G", false, 3, true, "")
        + "</measure>";
    assert_eq!(doc, document(&body));
}

#[test]
fn measures_are_numbered_and_only_the_first_has_the_clef() {
    let doc = process("e|--|--------|\nB|--|--------|\nG|-1|--------|\nD|--|--------|\nA|--|--------|\nE|--|--------|", ALL_OFF);
    let body = measure_open(0, 2, 8)
        + &rest_note("eighth", 1)
        + &plain_note("G", true, 4, false, "")
        + "</measure>"
        + &measure_open(1, 8, 8)
        + &rest_note("whole", 8)
        + "</measure>";
    assert_eq!(doc, document(&body));
}

#[test]
fn time_signature_is_simplified_when_even() {
    let even = process("e|1-2-|\nB|----|\nG|----|\nD|----|\nA|----|\nE|----|", Settings { simplify_time_signature: true, ..ALL_OFF });
    assert!(even.contains("<time><beats>2</beats><beat-type>4</beat-type></time>"));
    let odd = process("e|1-2|\nB|---|\nG|---|\nD|---|\nA|---|\nE|---|", Settings { simplify_time_signature: true, ..ALL_OFF });
    assert!(odd.contains("<time><beats>3</beats><beat-type>8</beat-type></time>"));
}

#[test]
fn an_empty_measure_is_one_whole_rest() {
    let doc = process("e|-||\nB|-||\nG|-||\nD|-||\nA|-||\nE|-||", ALL_ON);
    let body = measure_open(0, 0, 4)
        + "</measure>"
        + &measure_open(1, 4, 4)
        + &rest_note("whole", 8)
        + "</measure>";
    assert_eq!(doc, document(&body));
}

#[test]
fn a_text_without_a_part_gives_the_empty_document() {
    assert_eq!(process("nothing\n", ALL_ON), document(""));
}

#[test]
fn an_unknown_string_name_is_reported() {
    let res = MuxmlBackend::process(
        &BufLines::from_string("\ne|-|\nB|-|\nC|1|\nD|-|\nA|-|\nE|-|".into()),
        ALL_ON,
    );
    assert!(res.0.is_none());
    let e = res.1.unwrap();
    assert!(matches!(e.kind, BackendErrorKind::InvalidStringName));
    assert_eq!(e.main_location, ErrorLocation::LineOnly(3));
}

#[test]
fn slides_and_vibratos_are_attached() {
    let doc = process("e|3/5~7|\nB|-----|\nG|-----|\nD|-----|\nA|-----|\nE|-----|", ALL_OFF);
    assert_eq!(doc.matches("<slide type=\"start\" number=\"1\"/>").count(), 1);
    assert_eq!(doc.matches("<slide type=\"stop\" number=\"1\"/>").count(), 1);
    assert_eq!(doc.matches("<wavy-line type=\"start\"/>").count(), 1);
    assert_eq!(doc.matches("<wavy-line type=\"stop\"/>").count(), 1);
    let start = doc.find("<slide type=\"start\"").unwrap();
    let stop = doc.find("<slide type=\"stop\"").unwrap();
    assert!(start < stop);
}

#[test]
fn every_slur_start_has_its_stop() {
    let doc = process("e|3h5p3b4-|\nB|--------|\nG|5r4-----|\nD|--------|\nA|--------|\nE|--------|", ALL_OFF);
    for n in 1..=4 {
        let start = format!("<slur type=\"start\" number=\"{n}\"/>");
        let stop = format!("<slur type=\"stop\" number=\"{n}\"/>");
        assert_eq!(doc.matches(&start).count(), 1);
        assert_eq!(doc.matches(&stop).count(), 1);
        assert!(doc.find(&start).unwrap() < doc.find(&stop).unwrap());
    }
    assert!(!doc.contains("number=\"5\""));
}

#[test]
fn fretboard_knows_the_seven_strings() {
    for letter in ['e', 'd', 'B', 'G', 'D', 'A', 'E'] {
        for fret in 0..=24u8 {
            assert!(note_of(letter, fret).is_some());
        }
        assert!(note_of(letter, 255).is_some());
    }
    for letter in ['a', 'b', 'C', 'F', 'g', '1', '|', ' ', 'é'] {
        for fret in [0u8, 1, 12, 24, 255] {
            assert_eq!(note_of(letter, fret), None);
        }
    }
}

#[test]
fn fretboard_pitches_are_exact() {
    assert_eq!(note_of('E', 0), Some(('E', 3, false)));
    assert_eq!(note_of('A', 0), Some(('A', 3, false)));
    assert_eq!(note_of('D', 0), Some(('D', 4, false)));
    assert_eq!(note_of('G', 0), Some(('G', 4, false)));
    assert_eq!(note_of('B', 0), Some(('B', 4, false)));
    assert_eq!(note_of('d', 0), Some(('D', 5, false)));
    assert_eq!(note_of('e', 0), Some(('E', 5, false)));
    assert_eq!(note_of('E', 1), Some(('F', 3, false)));
    assert_eq!(note_of('E', 2), Some(('F', 3, true)));
    assert_eq!(note_of('B', 1), Some(('C', 5, false)));
    assert_eq!(note_of('e', 12), Some(('E', 6, false)));
    assert_eq!(note_of('e', 24), Some(('E', 7, false)));
    assert_eq!(note_of('e', 255), Some(('G', 26, false)));
    assert_eq!(get_fretboard_note2('G', 3), Some(MuxmlNote2 { step: 58, dead: false }));
    assert_eq!(MuxmlNote2 { step: 58, dead: false }.step_octave_sharp(), ('A', 4, true));
    assert_eq!(get_fretboard_note2('x', 3), None);
}

#[test]
fn next_note_goes_up_a_semitone() {
    assert_eq!(note('C', 4).next_note(), Some(note_sharp('C', 4)));
    assert_eq!(note_sharp('C', 4).next_note(), Some(note('D', 4)));
    assert_eq!(note('E', 4).next_note(), Some(note('F', 4)));
    assert_eq!(note('B', 4).next_note_consuming(), Some(note('C', 5)));
    assert_eq!(note('B', 255).next_note(), None);
    assert_eq!(note_sharp('E', 4).next_note(), None);
    assert_eq!(note('H', 4).next_note(), None);
    let dead = MuxmlNote { step: 'A', octave: 2, sharp: true, dead: true };
    assert_eq!(dead.next_note(), Some(MuxmlNote { step: 'B', octave: 2, sharp: false, dead: true }));
    let mut walked = get_fretboard_note('E', 0).unwrap();
    for fret in 1..=24u16 {
        walked = walked.next_note().unwrap();
        assert_eq!(Some(walked), get_fretboard_note('E', fret));
    }
    assert_eq!(get_fretboard_note('e', 5000), None);
    assert_eq!(get_fretboard_note('q', 0), None);
}

#[test]
fn rests_are_written_greedily() {
    let mut buf = String::new();
    write_rest(&mut buf, 15);
    assert_eq!(
        buf,
        rest_note("whole", 8) + &rest_note("half", 4) + &rest_note("quarter", 2) + &rest_note("eighth", 1)
    );
    let mut buf = String::new();
    write_rest(&mut buf, 16);
    assert_eq!(buf, rest_note("whole", 8) + &rest_note("whole", 8));
    let mut buf = String::from("x");
    write_rest(&mut buf, 0);
    assert_eq!(buf, "x");
    let mut buf = String::new();
    write_muxml2_rest(&mut buf, "half", 4);
    assert_eq!(buf, rest_note("half", 4));
}

#[test]
fn notes_are_written_with_their_notations() {
    let props = NoteProperties {
        slurs: vec![Slur::start(300), Slur::stop(7)],
        slide: Some(Slide::stop(12)),
        vibrato: Some(Vibrato::Start),
    };
    let mut buf = String::new();
    write_muxml2_note(&mut buf, 'F', 10, true, true, true, Some(&props));
    assert_eq!(
        buf,
        "<note>\n<chord/>\n<pitch><step>F</step>\n<alter>1</alter>\n<octave>10</octave>\n</pitch>\n<duration>1</duration>\n<type>eighth</type>\n<accidental>sharp</accidental>\n<notehead>x</notehead>\n<notations>\n<slur type=\"start\" number=\"300\"/>\n<slur type=\"stop\" number=\"7\"/>\n<slide type=\"stop\" number=\"12\"/>\n<ornaments>\n<wavy-line type=\"start\"/>\n</ornaments>\n</notations>\n</note>\n"
    );
    let mut buf = String::new();
    write_muxml2_note(&mut buf, 'C', 4, false, false, false, None);
    assert_eq!(buf, plain_note("C", false, 4, false, ""));
    let mut buf = String::new();
    write_muxml2_measure_prelude(&mut buf, 12, 7, 8);
    assert_eq!(buf, measure_open(12, 7, 8));
}

#[test]
fn remove_rest_between_notes_scans_triples() {
    let mut measure = vec![CopyTick(0), Rest(1), CopyTick(12), Rest(1), CopyTick(24)];
    let mut len = 5;
    remove_rest_between_notes(&mut measure, &mut len);
    assert_eq!(measure, vec![CopyTick(0), Invalid, CopyTick(12), Invalid, CopyTick(24)]);
    assert_eq!(len, 3);
    let mut measure = vec![Rest(1), CopyTick(6), Rest(1), CopyTick(18), Rest(1)];
    let mut len = 5;
    remove_rest_between_notes(&mut measure, &mut len);
    assert_eq!(measure, vec![Invalid, CopyTick(6), Invalid, CopyTick(18), Rest(1)]);
    assert_eq!(len, 3);
    let mut measure = vec![CopyTick(0), Rest(1), Rest(1), CopyTick(18)];
    let mut len = 1;
    remove_rest_between_notes(&mut measure, &mut len);
    assert_eq!(measure, vec![CopyTick(0), Rest(1), Rest(1), CopyTick(18)]);
    assert_eq!(len, 1);
}

#[test]
fn merge_joins_runs_of_rests() {
    let mut measure = vec![Rest(1), Rest(1), Rest(1), CopyTick(18), Rest(1), Invalid, Rest(1), Rest(1)];
    merge_rests_in_measure(&mut measure);
    assert_eq!(
        measure,
        vec![Rest(3), Invalid, Invalid, CopyTick(18), Rest(1), Invalid, Rest(2), Invalid]
    );
    let mut empty: Vec<scoreman::backend::muxml::Muxml2TabElement> = vec![];
    merge_rests_in_measure(&mut empty);
    assert!(empty.is_empty());
}

#[test]
fn trim_removes_the_rests_at_the_ends() {
    let mut measure = vec![Rest(2), Invalid, CopyTick(12), Rest(1), CopyTick(24), Rest(3), Invalid, Invalid];
    let mut len = 8;
    trim_measure(&mut measure, &mut len, Direction::Forward);
    assert_eq!(
        measure,
        vec![Invalid, Invalid, CopyTick(12), Rest(1), CopyTick(24), Rest(3), Invalid, Invalid]
    );
    assert_eq!(len, 6);
    trim_measure(&mut measure, &mut len, Direction::Backward);
    assert_eq!(
        measure,
        vec![Invalid, Invalid, CopyTick(12), Rest(1), CopyTick(24), Invalid, Invalid, Invalid]
    );
    assert_eq!(len, 3);
    let mut rests = vec![Rest(4), Invalid, Invalid, Invalid];
    let mut len = 2;
    trim_measure(&mut rests, &mut len, Direction::Forward);
    assert_eq!(rests, vec![Invalid; 4]);
    assert_eq!(len, 0);
    let mut empty: Vec<scoreman::backend::muxml::Muxml2TabElement> = vec![];
    trim_measure(&mut empty, &mut len, Direction::Backward);
    assert!(empty.is_empty());
}

#[test]
fn transforms_applied_twice_change_nothing_more() {
    let start = vec![Rest(1), Rest(1), CopyTick(12), Rest(1), CopyTick(24), Rest(1), Rest(1), CopyTick(42), Rest(1)];
    let mut once = start.clone();
    let mut len_once = 9;
    remove_rest_between_notes(&mut once, &mut len_once);
    merge_rests_in_measure(&mut once);
    trim_measure(&mut once, &mut len_once, Direction::Forward);
    trim_measure(&mut once, &mut len_once, Direction::Backward);
    assert_eq!(
        once,
        vec![Invalid, Invalid, CopyTick(12), Invalid, CopyTick(24), Rest(1), Invalid, CopyTick(42), Invalid]
    );
    assert_eq!(len_once, 4);
    let mut twice = once.clone();
    let mut len_twice = len_once;
    remove_rest_between_notes(&mut twice, &mut len_twice);
    merge_rests_in_measure(&mut twice);
    trim_measure(&mut twice, &mut len_twice, Direction::Forward);
    trim_measure(&mut twice, &mut len_twice, Direction::Backward);
    assert_eq!(twice, once);
    assert_eq!(len_twice, len_once);
}

#[test]
fn capacity_counts_twenty_bytes_for_every_atom() {
    let parsed = Parser::parse(&BufLines::from_string("e|-|\nB|-|\nG|-|\nD|-|\nA|-|\nE|-|".into())).unwrap();
    assert_eq!(
        MuxmlGenerator::estimate_capacity(&parsed),
        MUXML_INCOMPLETE_DOC_PRELUDE.len() + MUXML2_DOCUMENT_END.len() + 120
    );
}

#[test]
fn a_vibrato_in_the_first_tick_starts_on_the_first_atom() {
    let doc = process("e|~3|\nB|5-|\nG|--|\nD|--|\nA|--|\nE|--|", ALL_OFF);
    let body = measure_open(0, 2, 8)
        + &plain_note("E", false, 5, false, "")
        + &plain_note(
            "G",
            false,
            5,
            false,
            "<notations>\n<ornaments>\n<wavy-line type=\"stop\"/>\n</ornaments>\n</notations>\n",
        )
        + "</measure>";
    assert_eq!(doc, document(&body));
}

#[test]
fn a_slide_at_the_end_of_the_stream_gets_its_stop() {
    let mut tick_stream = vec![TabElement3::Rest; 12];
    tick_stream[0] = TabElement3::Fret(3);
    tick_stream[6] = TabElement3::Slide;
    let parsed = ParserResult {
        tick_stream,
        measures: vec![Measure::from(0..=11)],
        base_notes: vec!['e', 'B', 'G', 'D', 'A', 'E'],
        offsets: vec![(0, 0)],
    };
    let mut generator = MuxmlGenerator::init(parsed, ALL_OFF);
    assert!(generator.process_measure(0).is_ok());
    assert_eq!(generator.properties_at(0).unwrap().slide, Some(Slide::start(1)));
    assert_eq!(generator.properties_at(12).unwrap().slide, Some(Slide::stop(1)));
    assert!(generator.properties_at(6).is_none());
    let doc = process("e|3/|\nB|--|\nG|--|\nD|--|\nA|--|\nE|--|", ALL_OFF);
    assert_eq!(doc.matches("<slide type=\"start\" number=\"1\"/>").count(), 1);
    assert_eq!(doc.matches("<note>").count(), 2);
    let doc = process("e|3/|5-|\nB|--|--|\nG|--|--|\nD|--|--|\nA|--|--|\nE|--|--|", ALL_OFF);
    assert_eq!(doc.matches("<slide type=\"start\" number=\"1\"/>").count(), 1);
    assert_eq!(doc.matches("<slide type=\"stop\" number=\"1\"/>").count(), 1);
}

#[test]
fn a_bend_on_the_highest_fret_cannot_be_resolved() {
    let mut tick_stream = vec![TabElement3::Rest; 18];
    tick_stream[0] = TabElement3::Fret(255);
    tick_stream[6] = TabElement3::Bend;
    let parsed = ParserResult {
        tick_stream,
        measures: vec![Measure::from(0..=17)],
        base_notes: vec!['e', 'B', 'G', 'D', 'A', 'E'],
        offsets: vec![(0, 0)],
    };
    let (doc, err) = MuxmlGenerator::init(parsed, ALL_OFF).gen();
    assert!(doc.is_none());
    let e = err.unwrap();
    assert!(matches!(e.kind, BackendErrorKind::BendOnInvalid));
    assert_eq!(e.main_location, ErrorLocation::LineAndChar(0, 5));
}

#[test]
fn a_bend_onto_a_note_does_not_change_the_note() {
    let doc = process("e|3b5|\nB|---|\nG|---|\nD|---|\nA|---|\nE|---|", ALL_OFF);
    let body = measure_open(0, 3, 8)
        + &plain_note(
            "G",
            false,
            5,
            false,
            "<notations>\n<slur type=\"start\" number=\"1\"/>\n</notations>\n",
        )
        + &rest_note("eighth", 1)
        + &plain_note(
            "A",
            false,
            5,
            false,
            "<notations>\n<slur type=\"stop\" number=\"1\"/>\n</notations>\n",
        )
        + "</measure>";
    assert_eq!(doc, document(&body));
}

#[test]
fn marks_in_the_first_tick_are_warned_about() {
    let input = "\ne|~3|\nB|5-|\nG|--|\nD|b-|\nA|--|\nE|--|";
    let (doc, err, diagnostics) = MuxmlBackend::process(&BufLines::from_string(input.into()), ALL_OFF);
    assert!(doc.is_none());
    assert!(matches!(err.unwrap().kind, BackendErrorKind::BendOnInvalid));
    assert_eq!(
        diagnostics,
        vec![
            Diagnostic::warn(ErrorLocation::LineAndChar(1, 2), DiagnosticKind::SpanInFirstTick),
            Diagnostic::warn(ErrorLocation::LineAndChar(4, 2), DiagnosticKind::SpanInFirstTick),
        ]
    );
    assert_eq!(
        DiagnosticKind::SpanInFirstTick.message(),
        "Nothing comes before this mark, so it starts on the first atom of the stream."
    );
    let quiet = MuxmlBackend::process(
        &BufLines::from_string("e|3~|\nB|--|\nG|--|\nD|--|\nA|--|\nE|--|".into()),
        ALL_OFF,
    );
    assert!(quiet.2.is_empty());
    let failed = MuxmlBackend::process(&BufLines::from_string("e|~|\nB|-|\nG|-|\nD|-\nA|-|\nE|-|".into()), ALL_OFF);
    assert!(failed.1.is_some());
    assert!(failed.2.is_empty());
}

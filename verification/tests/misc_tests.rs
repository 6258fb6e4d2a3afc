use scoreman::backend::errors::backend_error::BackendError;
use scoreman::backend::errors::backend_error_kind::BackendErrorKind;
use scoreman::backend::errors::diagnostic::{Diagnostic, DiagnosticSeverity};
use scoreman::backend::errors::diagnostic_kind::DiagnosticKind;
use scoreman::backend::errors::error_location::ErrorLocation;
use scoreman::backend::errors::extend_error_range;
use scoreman::backend::midi::{convert_to_midi, MidiEvent, MidiEventKind};
use scoreman::backend::BackendSelector;
use scoreman::parser::parser::Parser;
use scoreman::{digit_cnt_usize, get_digit_cnt, ricontains, rlen, BufLines, ParseLines};

#[test]
fn buf_lines_splits_at_line_feeds() {
    let lines = BufLines::from_string(String::from("Hello\nBeautiful\nWorld"));
    assert_eq!(lines.line_ends, vec![5, 15, 21]);
    assert_eq!(lines.line_count(), 3);
    assert_eq!(lines.get_line(0), "Hello");
    assert_eq!(lines.get_line(0).len(), lines.line_len(0));
    assert_eq!(lines.get_line(1), "Beautiful");
    assert_eq!(lines.get_line(1).len(), lines.line_len(1));
    assert_eq!(lines.get_line(2), "World");
    assert_eq!(lines.line_byte_range(1), 6..15);
    assert_eq!(lines.line_byte_range_checked(0), Some(5..15));
    assert_eq!(lines.line_byte_range_checked(2), None);
    assert_eq!(lines.get_line_checked(0), Some("\nBeautiful"));
    assert_eq!(lines.get_line_checked(1), Some("\nWorld"));
    assert_eq!(lines.get_line_checked(2), None);
    assert_eq!(lines.iter(), vec!["Hello", "Beautiful", "World"]);
    assert_eq!(ParseLines::get_line(&lines, 1), b"Beautiful");
    assert_eq!(ParseLines::line_count(&lines), 3);
}

#[test]
fn buf_lines_keeps_wide_characters_whole() {
    let lines = BufLines::from_string(String::from("é\n\nü|\n"));
    assert_eq!(lines.line_count(), 4);
    assert_eq!(lines.get_line(0), "é");
    assert_eq!(lines.get_line(1), "");
    assert_eq!(lines.get_line(2), "ü|");
    assert_eq!(lines.get_line(3), "");
    let empty = BufLines::from_string(String::new());
    assert_eq!(empty.line_ends, vec![0]);
    assert_eq!(empty.get_line(0), "");
}

#[test]
fn vectors_of_lines_can_be_parsed() {
    let strings: Vec<String> =
        "e|1|\nB|-|\nG|-|\nD|-|\nA|-|\nE|-|".lines().map(|l| l.to_string()).collect();
    assert_eq!(ParseLines::line_count(&strings), 6);
    assert_eq!(ParseLines::get_line(&strings, 0), b"e|1|");
    let bytes: Vec<Vec<u8>> = strings.iter().map(|l| l.as_bytes().to_vec()).collect();
    let a = Parser::parse(&strings).unwrap();
    let b = Parser::parse(&bytes).unwrap();
    assert_eq!(a.tick_stream, b.tick_stream);
    assert_eq!(a.tick_stream.len(), 6);
}

#[test]
fn digits_are_counted() {
    assert_eq!(digit_cnt_usize(0), 1);
    assert_eq!(digit_cnt_usize(9), 1);
    assert_eq!(digit_cnt_usize(10), 2);
    assert_eq!(digit_cnt_usize(999), 3);
    assert_eq!(digit_cnt_usize(1000), 4);
    assert_eq!(digit_cnt_usize(usize::MAX), usize::MAX.to_string().len() as u32);
    assert_eq!(get_digit_cnt(12345), 5);
}

#[test]
fn ranges_are_measured() {
    assert_eq!(rlen(&(0..=17)), 18);
    assert_eq!(rlen(&(6..=11)), 6);
    assert_eq!(rlen(&(12..=11)), 0);
    assert_eq!(rlen(&(0..=u32::MAX)), 0);
    assert!(ricontains(&(3..=5), 3));
    assert!(ricontains(&(3..=5), 5));
    assert!(!ricontains(&(3..=5), 6));
    assert!(!ricontains(&(3..=5), 2));
}

#[test]
fn error_ranges_get_their_context() {
    assert_eq!(extend_error_range(&(5..=6), 100), 2..=9);
    assert_eq!(extend_error_range(&(1..=1), 100), 0..=4);
    assert_eq!(extend_error_range(&(98..=99), 100), 95..=99);
    assert_eq!(extend_error_range(&(0..=0), 1), 0..=0);
    assert_eq!(extend_error_range(&(0..=0), 0), 0..=0);
    assert_eq!(extend_error_range(&(3..=usize::MAX), 10), 0..=9);
}

#[test]
fn locations_explain_themselves() {
    let mut text = String::new();
    ErrorLocation::NoLocation.write_location_explainer(&mut text, "Where:");
    assert_eq!(text, "");
    ErrorLocation::LineOnly(4).write_location_explainer(&mut text, "Where:");
    assert_eq!(text, "Where: in line 5:\n");
    let mut text = String::new();
    ErrorLocation::LineAndMeasure(9, 99).write_location_explainer(&mut text, "Where:");
    assert_eq!(text, "Where: Measure 100 in line 10:\n");
    let mut text = String::from(">");
    ErrorLocation::LineAndChar(u32::MAX, 24).write_location_explainer(&mut text, "W");
    assert_eq!(text, ">W line 4294967296 char 25\n");
    assert_eq!(ErrorLocation::LineAndChar(3, 25).get_line_idx(), Some(3));
    assert_eq!(ErrorLocation::LineAndChar(3, 25).get_char_idx(), Some(25));
    assert_eq!(ErrorLocation::LineAndMeasure(7, 1).get_line_idx(), Some(7));
    assert_eq!(ErrorLocation::LineAndMeasure(7, 1).get_char_idx(), None);
    assert_eq!(ErrorLocation::LineOnly(2).get_line_idx(), Some(2));
    assert_eq!(ErrorLocation::NoLocation.get_line_idx(), None);
}

#[test]
fn errors_are_built_with_their_lines() {
    let e = BackendError::both_slots_multichar(7, 3, 2);
    assert_eq!(e.main_location, ErrorLocation::LineAndChar(7, 3));
    assert_eq!(e.relevant_lines, 2..=7);
    assert!(matches!(e.kind, BackendErrorKind::BothSlotsMultiChar));
    let e = BackendError::both_slots_multichar(2, 3, 7);
    assert_eq!(e.relevant_lines, 2..=7);
    let e = BackendError::empty_score_err();
    assert_eq!(e.main_location, ErrorLocation::NoLocation);
    assert_eq!(e.relevant_lines, 0..=0);
    let e = BackendError::parse3_invalid_character(4, 9, 'q');
    assert_eq!(e.main_location, ErrorLocation::LineAndChar(4, 9));
    assert!(matches!(e.kind, BackendErrorKind::Parse3InvalidCharacter('q')));
    let e = BackendError::fixup_failed(ErrorLocation::LineOnly(1), 1..=4);
    assert_eq!(e.relevant_lines, 1..=4);
    assert!(matches!(e.kind, BackendErrorKind::FixupFailed));
    let e = BackendError::from_io_error(std::io::Error::other("disk full"));
    assert!(matches!(e.kind, BackendErrorKind::IOError(_)));
    assert_eq!(e.kind.desc(), ("Cannot write to file".to_string(), "IO Error:\ndisk full".to_string()));
    let e = BackendError::from_fmt_error(std::fmt::Error);
    assert_eq!(e.kind.desc().0, "Cannot write to internal buffer");
    assert!(e.kind.desc().1.starts_with("Format error:\n"));
}

#[test]
fn kinds_describe_themselves() {
    assert_eq!(
        BackendErrorKind::Parse3InvalidCharacter('?').desc(),
        ("Invalid character".to_string(), "The character ? is not valid here.".to_string())
    );
    assert_eq!(BackendErrorKind::EmptyScore.desc(), ("Empty score".to_string(), String::new()));
    assert_eq!(
        BackendErrorKind::NoClosingBarline.desc(),
        (
            "No closing barline".to_string(),
            "Lines in a part must end with a barline, but this one doesn't".to_string()
        )
    );
    assert_eq!(
        BackendErrorKind::FixupFailed.desc().1,
        "Failed to fix the error at this location after 5 tries"
    );
    assert_eq!(BackendErrorKind::BendOnInvalid.desc().0, "Invalid bend");
    assert_eq!(BackendErrorKind::InvalidStringName.desc().0, "Invalid string name");
    assert_eq!(BackendErrorKind::BothSlotsMultiChar.desc().0, "Both slots are multichar");
    assert_eq!(BackendErrorKind::MultiBothSlotsFilled.desc().0, "Both slots are filled");
    assert!(BackendErrorKind::MultiBothSlotsFilled.desc().1.ends_with("same cardinality"));
    assert_eq!(BackendErrorKind::FretTooLarge.desc().0, "Fret too large");
}

#[test]
fn diagnostics_have_their_words() {
    let d = Diagnostic::info(ErrorLocation::LineOnly(1), DiagnosticKind::FormatAddedBarline);
    assert_eq!(d.severity, DiagnosticSeverity::Info);
    assert_eq!(d.severity.label(), "Info");
    assert_eq!(d.kind.message(), "There was no barline at the end of this line, so I added one.");
    let d = Diagnostic::warn(ErrorLocation::LineOnly(1), DiagnosticKind::EmptyLineInPart);
    assert_eq!(d.severity, DiagnosticSeverity::Warning);
    assert_eq!(d.severity.label(), "Warning");
    assert_eq!(d.kind.message(), "Empty line inside Part, are you sure this is intended?");
    assert_eq!(
        DiagnosticKind::CommentInPart.message(),
        "Comment inside Part, are you sure this is intended?"
    );
    assert_eq!(
        DiagnosticKind::FormatReplacedInvalid.message(),
        "This character is invalid, so I replaced it with a rest (`-`)."
    );
}

#[test]
fn backends_have_their_names() {
    assert_eq!(BackendSelector::Midi(()).name(), "midi");
    assert_eq!(
        BackendSelector::Fixup(scoreman::backend::fixup::FixupBackendSettings { dump: None }).name(),
        "fixup"
    );
}

#[test]
fn midi_tracks_carry_the_rests_forward() {
    let parsed = Parser::parse(&BufLines::from_string(
        "e|--3-x5|\nB|------|\nG|------|\nD|------|\nA|------|\nE|0-----|".into(),
    ))
    .unwrap();
    let tracks = convert_to_midi(&parsed).unwrap();
    assert_eq!(tracks.len(), 6);
    let on = |delta, key| MidiEvent { delta, kind: MidiEventKind::NoteOn { key, vel: 100 } };
    let off = |key| MidiEvent { delta: 1, kind: MidiEventKind::NoteOff { key, vel: 100 } };
    let end = MidiEvent { delta: 0, kind: MidiEventKind::EndOfTrack };
    assert_eq!(tracks[0], vec![on(2, 79), off(79), on(1, 81), off(81), end]);
    assert_eq!(tracks[1], vec![end]);
    assert_eq!(tracks[5], vec![on(0, 52), off(52), end]);
}

#[test]
fn midi_needs_known_strings_under_frets_only() {
    let parsed = Parser::parse(&BufLines::from_string(
        "e|-|\nB|-|\nG|-|\nD|-|\nA|-|\nZ|1|".into(),
    ))
    .unwrap();
    assert!(convert_to_midi(&parsed).is_none());
    let parsed = Parser::parse(&BufLines::from_string(
        "e|2|\nB|-|\nG|-|\nD|-|\nA|-|\nZ|x|".into(),
    ))
    .unwrap();
    let tracks = convert_to_midi(&parsed).unwrap();
    assert_eq!(tracks[0].len(), 3);
    assert_eq!(tracks[5].len(), 1);
    let nothing = Parser::parse(&BufLines::from_string("".into())).unwrap();
    let end = MidiEvent { delta: 0, kind: MidiEventKind::EndOfTrack };
    assert_eq!(convert_to_midi(&nothing), Some(vec![vec![end]; 6]));
}

#[test]
fn a_line_can_be_written_into() {
    let mut lines = BufLines::from_string(String::from("Hello\nBeautiful\nWorld"));
    lines.get_line_mut(1).make_ascii_uppercase();
    assert_eq!(lines.buf, "Hello\nBEAUTIFUL\nWorld");
    assert_eq!(lines.get_line(1), "BEAUTIFUL");
    assert_eq!(lines.get_line_mut(0), "Hello");
    assert_eq!(lines.line_ends, vec![5, 15, 21]);
}

use scoreman::backend::errors::backend_error_kind::BackendErrorKind;
use scoreman::backend::errors::diagnostic::DiagnosticSeverity;
use scoreman::backend::errors::diagnostic_kind::DiagnosticKind;
use scoreman::backend::errors::error_location::ErrorLocation;
use scoreman::backend::fixup::{
    copy_lines, join_lines, FixupBackend, FixupBackendSettings, FixupDumpOptions, LocationTracker,
};
use scoreman::parser::parser::Parser;
use scoreman::BufLines;

fn lines_of(text: &str) -> Vec<Vec<u8>> {
    text.lines().map(|l| l.as_bytes().to_vec()).collect()
}

fn text_of(lines: &[Vec<u8>]) -> Vec<String> {
    lines.iter().map(|l| String::from_utf8_lossy(l).to_string()).collect()
}

#[test]
fn fixup_heals_a_missing_barline_and_a_stray_character() {
    let outcome = FixupBackend::fixup(lines_of("e|---|\nB|---|\nG|---|\nD|---\nA|---|\nE|-?-|"));
    assert!(outcome.err.is_none());
    assert_eq!(outcome.diagnostics.len(), 2);
    assert_eq!(outcome.diagnostics[0].location, ErrorLocation::LineOnly(3));
    assert_eq!(outcome.diagnostics[0].kind, DiagnosticKind::FormatAddedBarline);
    assert_eq!(outcome.diagnostics[0].severity, DiagnosticSeverity::Info);
    assert_eq!(outcome.diagnostics[1].location, ErrorLocation::LineAndChar(5, 3));
    assert_eq!(outcome.diagnostics[1].kind, DiagnosticKind::FormatReplacedInvalid);
    assert_eq!(outcome.diagnostics[1].severity, DiagnosticSeverity::Info);
    assert_eq!(
        text_of(&outcome.lines),
        vec!["e|---|", "B|---|", "G|---|", "D|---|", "A|---|", "E|---|"]
    );
    assert!(Parser::parse(&outcome.lines).is_ok());
}

#[test]
fn fixup_leaves_a_good_text_alone() {
    let text = "// a song\ne|-1-|\nB|---|\nG|---|\nD|---|\nA|---|\nE|---|";
    let outcome = FixupBackend::fixup(lines_of(text));
    assert!(outcome.err.is_none());
    assert!(outcome.diagnostics.is_empty());
    assert_eq!(outcome.lines, lines_of(text));
}

#[test]
fn fixup_trims_the_line_before_it_adds_the_barline() {
    let outcome = FixupBackend::fixup(lines_of("e|-|\nB|-|\nG|- \t \nD|-|\nA|-|\nE|-|"));
    assert!(outcome.err.is_none());
    assert_eq!(text_of(&outcome.lines)[2], "G|-|");
    assert_eq!(outcome.diagnostics.len(), 1);
}

#[test]
fn fixup_overwrites_both_slots_under_a_wide_tick() {
    let outcome = FixupBackend::fixup(lines_of("e|10---|\nB|3x---|\nG|-----|\nD|-----|\nA|-----|\nE|-----|"));
    assert!(outcome.err.is_none());
    assert_eq!(outcome.diagnostics.len(), 1);
    assert_eq!(outcome.diagnostics[0].location, ErrorLocation::LineAndChar(1, 3));
    assert_eq!(outcome.diagnostics[0].kind, DiagnosticKind::FormatReplacedInvalid);
    assert_eq!(text_of(&outcome.lines)[1], "B|3----|");
}

#[test]
fn fixup_stops_at_an_error_it_cannot_mend() {
    let text = "e|---|\nB|---|\n?|---|\nD|---|\nA|---|\nE|---|";
    let outcome = FixupBackend::fixup(lines_of(text));
    let e = outcome.err.unwrap();
    assert!(matches!(e.kind, BackendErrorKind::InvalidStringName));
    assert_eq!(e.main_location, ErrorLocation::LineOnly(2));
    assert!(outcome.diagnostics.is_empty());
    assert_eq!(outcome.lines, lines_of(text));
    let outcome = FixupBackend::fixup(lines_of("e|300|\nB|---|\nG|---|\nD|---|\nA|---|\nE|---|"));
    assert!(matches!(outcome.err.unwrap().kind, BackendErrorKind::FretTooLarge));
}

#[test]
fn fixup_gives_up_when_the_location_stays() {
    // Leading spaces shift the column, so that the rest is written over a
    // byte that is a rest already and the same error comes back.
    let text = "  e|--?|\n  B|---|\n  G|---|\n  D|---|\n  A|---|\n  E|---|";
    let outcome = FixupBackend::fixup(lines_of(text));
    let e = outcome.err.unwrap();
    assert!(matches!(e.kind, BackendErrorKind::FixupFailed));
    assert_eq!(e.main_location, ErrorLocation::LineAndChar(0, 4));
    assert_eq!(e.relevant_lines, 0..=0);
    assert_eq!(outcome.diagnostics.len(), 4);
    assert_eq!(outcome.lines, lines_of(text));
}

#[test]
fn tracker_sticks_after_five_identical_locations() {
    let mut tracker = LocationTracker::new();
    assert!(!tracker.is_same());
    let here = ErrorLocation::LineAndChar(3, 4);
    for _ in 0..4 {
        tracker.add(here);
        assert!(!tracker.is_same());
    }
    tracker.add(here);
    assert!(tracker.is_same());
    assert_eq!(tracker.push_cnt, 5);
    tracker.add(ErrorLocation::LineOnly(3));
    assert!(!tracker.is_same());
    assert_eq!(tracker.data[3], here);
    assert_eq!(tracker.data[4], ErrorLocation::LineOnly(3));
    let mut fresh = LocationTracker::new();
    for _ in 0..4 {
        fresh.add(ErrorLocation::NoLocation);
    }
    assert!(!fresh.is_same());
}

#[test]
fn process_writes_the_healed_text() {
    let input = BufLines::from_string("e|-|\nB|-|\nG|-|\nD|-\nA|-|\nE|-|".into());
    let out = FixupBackend::process(&input, FixupBackendSettings { dump: None });
    assert!(out.err.is_none());
    assert_eq!(out.text, b"e|-|\nB|-|\nG|-|\nD|-|\nA|-|\nE|-|".to_vec());
    assert_eq!(out.diagnostics.len(), 1);
    let bad = BufLines::from_string("e|-|\nB|-|\n?|-|\nD|-|\nA|-|\nE|-|".into());
    let out = FixupBackend::process(&bad, FixupBackendSettings { dump: None });
    assert!(out.err.is_some());
    assert!(out.text.is_empty());
}

#[test]
fn process_dumps_the_tracks() {
    let input = BufLines::from_string("e|10-|\nB|-3-|\nG|---|\nD|---|\nA|---|\nE|---|".into());
    let out = FixupBackend::process(
        &input,
        FixupBackendSettings { dump: Some(FixupDumpOptions::PrettyTracks) },
    );
    assert!(out.err.is_none());
    assert_eq!(out.text, b"10-\n3 -\n- -\n- -\n- -\n- -\n\n".to_vec());
    let out = FixupBackend::process(
        &input,
        FixupBackendSettings { dump: Some(FixupDumpOptions::TickStream) },
    );
    assert!(out.err.is_none());
    assert_eq!(
        String::from_utf8(out.text).unwrap(),
        "[Fret(10), Fret(3), Rest, Rest, Rest, Rest, Rest, Rest, Rest, Rest, Rest, Rest]\n"
    );
}

#[test]
fn lines_are_copied_and_joined() {
    let input = BufLines::from_string("one\n\nthree\n".into());
    let copy = copy_lines(&input);
    assert_eq!(copy, vec![b"one".to_vec(), b"".to_vec(), b"three".to_vec(), b"".to_vec()]);
    assert_eq!(join_lines(&copy), b"one\n\nthree\n".to_vec());
    assert_eq!(join_lines(&vec![]), Vec::<u8>::new());
    assert_eq!(join_lines(&vec![b"x".to_vec()]), b"x".to_vec());
}

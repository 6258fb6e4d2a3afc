use scoreman::backend::errors::backend_error_kind::BackendErrorKind;
use scoreman::backend::errors::error_location::ErrorLocation;
use scoreman::parser::model::TickFailure;
use scoreman::parser::parser::{
    dump_source, dump_tracks, fits, line_is_valid, read_tick, source_location_from_stream, Parser,
    ParserResult,
};
use scoreman::parser::tab_element::TabElementError;
use scoreman::parser::parser3::parse3;
use scoreman::parser::tab_element::TabElement3::{Bend, Fret, Rest};
use scoreman::BufLines;

fn parse_ok(input: &str) -> ParserResult {
    let lines = BufLines::from_string(input.into());
    assert!(fits(&lines));
    Parser::parse(&lines).unwrap()
}

fn tracks(input: &str) -> String {
    dump_tracks(&parse_ok(input).as_ref())
}

const EXAMPLE_SCORE: &str = r#"
e|--12-12|--12-12|--12-12|
B|3------|3------|3----11|
G|-6-3-3-|-6-3-3-|-6-3-11|
D|-------|-------|-----11|
A|-------|-------|-----11|
E|-----9-|-----9-|-----11|

// This is a comment!

e|--12-12|--12-12|
B|3------|3------|
G|-6-3-3-|-6-3-3-|
D|-------|-------|
A|-------|-------|
E|-----9-|-----9-|
"#;

const EXAMPLE_TRACKS: &str = "--12-12--12-12--12-12--12-12--12-12\n\
3-- -- 3-- -- 3-- -113-- -- 3-- -- \n\
-63 -3 -63 -3 -63 -11-63 -3 -63 -3 \n\
--- -- --- -- --- -11--- -- --- -- \n\
--- -- --- -- --- -11--- -- --- -- \n\
--- -9 --- -9 --- -11--- -9 --- -9 \n";

#[test]
fn basic_chord_is_three_ticks() {
    let parsed = parse_ok("e|---|\nB|-3-|\nG|6-6|\nD|---|\nA|---|\nE|---|");
    assert_eq!(parsed.tick_stream.len(), 18);
    assert_eq!(parsed.measures.len(), 1);
    assert_eq!(parsed.measures[0].data_range, 0..=17);
    assert_eq!(&parsed.tick_stream[0..6], &[Rest, Rest, Fret(6), Rest, Rest, Rest]);
    assert_eq!(&parsed.tick_stream[6..12], &[Rest, Fret(3), Rest, Rest, Rest, Rest]);
    assert_eq!(&parsed.tick_stream[12..18], &[Rest, Rest, Fret(6), Rest, Rest, Rest]);
    assert_eq!(parsed.base_notes, vec!['e', 'B', 'G', 'D', 'A', 'E']);
    assert_eq!(parsed.offsets, vec![(0, 0)]);
}

#[test]
fn multichar_alignment_takes_five_ticks() {
    let parsed =
        parse_ok("\ne|----5--|\nB|---3---|\nG|10---12|\nD|-------|\nA|-------|\nE|-------|");
    assert_eq!(parsed.tick_stream.len(), 30);
    assert_eq!(parsed.tick_stream[2], Fret(10));
    assert_eq!(&parsed.tick_stream[0..6], &[Rest, Rest, Fret(10), Rest, Rest, Rest]);
    assert_eq!(&parsed.tick_stream[6..12], &[Rest; 6]);
    assert_eq!(&parsed.tick_stream[12..18], &[Rest, Fret(3), Rest, Rest, Rest, Rest]);
    assert_eq!(&parsed.tick_stream[18..24], &[Fret(5), Rest, Rest, Rest, Rest, Rest]);
    assert_eq!(&parsed.tick_stream[24..30], &[Rest, Rest, Fret(12), Rest, Rest, Rest]);
    assert_eq!(parsed.measures[0].data_range, 0..=29);
    assert_eq!(parsed.offsets, vec![(1, 0)]);
}

#[test]
fn invalid_multichar_points_at_the_second_atom() {
    let lines = BufLines::from_string("e|--10-|\nB|--3x-|\nG|-----|\nD|-----|\nA|-----|\nE|-----|".into());
    let (e, parsed) = Parser::parse(&lines).unwrap_err();
    assert!(matches!(e.kind, BackendErrorKind::MultiBothSlotsFilled));
    assert_eq!(e.main_location, ErrorLocation::LineAndChar(1, 5));
    assert_eq!(e.relevant_lines, 1..=1);
    assert_eq!(parsed.tick_stream.len(), 12);
}

#[test]
fn filler_before_and_after_a_narrow_atom() {
    let parsed = parse_ok("e|10|\nB|-3|\nG|3-|\nD|--|\nA|b-|\nE|-x|");
    assert_eq!(parsed.tick_stream.len(), 6);
    assert_eq!(
        parsed.tick_stream,
        vec![
            Fret(10),
            Fret(3),
            Fret(3),
            Rest,
            Bend,
            scoreman::parser::tab_element::TabElement3::DeadNote
        ]
    );
}

#[test]
fn both_slots_multichar_names_both_lines() {
    let lines = BufLines::from_string("e|-12|\nB|---|\nG|---|\nD|10-|\nA|---|\nE|---|".into());
    let (e, _) = Parser::parse(&lines).unwrap_err();
    assert!(matches!(e.kind, BackendErrorKind::BothSlotsMultiChar));
    assert_eq!(e.main_location, ErrorLocation::LineAndChar(3, 2));
    assert_eq!(e.relevant_lines, 0..=3);
}

#[test]
fn invalid_string_name_is_reported_on_its_line() {
    let lines = BufLines::from_string("e|---|\nB|---|\n?|---|\nD|---|\nA|---|\nE|---|".into());
    let (e, parsed) = Parser::parse(&lines).unwrap_err();
    assert!(matches!(e.kind, BackendErrorKind::InvalidStringName));
    assert_eq!(e.main_location, ErrorLocation::LineOnly(2));
    assert_eq!(parsed.base_notes, vec!['e', 'B']);
    assert_eq!(parsed.offsets, vec![(0, 0)]);
}

#[test]
fn missing_opening_barline_is_an_invalid_string_name() {
    let lines = BufLines::from_string("e|---|\nB----|\nG|---|\nD|---|\nA|---|\nE|---|".into());
    let (e, parsed) = Parser::parse(&lines).unwrap_err();
    assert!(matches!(e.kind, BackendErrorKind::InvalidStringName));
    assert_eq!(e.main_location, ErrorLocation::LineOnly(1));
    assert_eq!(parsed.base_notes, vec!['e', 'B']);
}

#[test]
fn missing_closing_barline_is_reported_on_its_line() {
    let lines = BufLines::from_string("e|---|\nB|---|\nG|---|\nD|---\nA|---|\nE|---|".into());
    let (e, _) = Parser::parse(&lines).unwrap_err();
    assert!(matches!(e.kind, BackendErrorKind::NoClosingBarline));
    assert_eq!(e.main_location, ErrorLocation::LineOnly(3));
    assert_eq!(e.relevant_lines, 3..=3);
}

#[test]
fn invalid_character_is_reported_with_its_column() {
    let lines =
        BufLines::from_string("e|--|--|\nB|--|--|\nG|--|--|\nD|--|--|\nA|--|--|\nE|--|-?|".into());
    let (e, parsed) = Parser::parse(&lines).unwrap_err();
    assert!(matches!(e.kind, BackendErrorKind::Parse3InvalidCharacter('?')));
    assert_eq!(e.main_location, ErrorLocation::LineAndChar(5, 6));
    assert_eq!(parsed.tick_stream.len(), 18);
    assert_eq!(parsed.measures.len(), 1);
}

#[test]
fn a_string_that_ends_early_is_an_invalid_character() {
    let lines = BufLines::from_string("e|---|\nB|---|\nG|--|\nD|---|\nA|---|\nE|---|".into());
    let (e, _) = Parser::parse(&lines).unwrap_err();
    assert!(matches!(e.kind, BackendErrorKind::Parse3InvalidCharacter('\0')));
    assert_eq!(e.main_location, ErrorLocation::LineAndChar(2, 4));
}

#[test]
fn fret_above_255_is_too_large() {
    let lines = BufLines::from_string("e|-256|\nB|----|\nG|----|\nD|----|\nA|----|\nE|----|".into());
    let (e, _) = Parser::parse(&lines).unwrap_err();
    assert!(matches!(e.kind, BackendErrorKind::FretTooLarge));
    assert_eq!(e.main_location, ErrorLocation::LineAndChar(0, 3));
}

#[test]
fn stream_and_measures_keep_their_shape() {
    let parsed = parse_ok(EXAMPLE_SCORE);
    assert_eq!(parsed.tick_stream.len() % 6, 0);
    assert_eq!(parsed.tick_stream.len(), 150);
    let mut next: u32 = 0;
    for measure in &parsed.measures {
        assert_eq!(*measure.data_range.start(), next);
        assert_eq!((measure.data_range.end() + 1 - measure.data_range.start()) % 6, 0);
        next = measure.data_range.end() + 1;
    }
    assert_eq!(next as usize, parsed.tick_stream.len());
    assert_eq!(parsed.base_notes.len(), 6 * parsed.offsets.len());
    assert_eq!(parsed.offsets, vec![(1, 0), (10, 90)]);
}

#[test]
fn a_barline_at_the_end_closes_an_empty_measure() {
    let parsed = parse_ok("e|--||\nB|--||\nG|--||\nD|--||\nA|--||\nE|--||");
    assert_eq!(parsed.tick_stream.len(), 12);
    assert_eq!(parsed.measures.len(), 2);
    assert_eq!(parsed.measures[0].data_range, 0..=11);
    assert_eq!(*parsed.measures[1].data_range.start(), 12);
    assert_eq!(*parsed.measures[1].data_range.end(), 11);
}

#[test]
fn a_barline_at_the_start_of_the_stream_closes_an_empty_measure() {
    let parsed = parse_ok("e||-|\nB||-|\nG||-|\nD||-|\nA||-|\nE||-|");
    assert_eq!(parsed.measures.len(), 2);
    assert_eq!(*parsed.measures[0].data_range.start(), 0);
    assert_eq!(*parsed.measures[0].data_range.end(), u32::MAX);
    assert_eq!(parsed.measures[1].data_range, 0..=5);
}

#[test]
fn lines_between_parts_are_skipped() {
    let parsed = parse_ok("hello\n// a comment\n\ne|-|\nB|-|\nG|-|\nD|-|\nA|-|\nE|-|\nrest");
    assert_eq!(parsed.offsets, vec![(3, 0)]);
    assert_eq!(parsed.tick_stream, vec![Rest; 6]);
}

#[test]
fn text_without_a_part_parses_to_nothing() {
    let parsed = parse_ok("e|-|\nB|-|\nnothing here\n");
    assert!(parsed.tick_stream.is_empty());
    assert!(parsed.measures.is_empty());
    assert!(parsed.offsets.is_empty());
    assert!(parsed.base_notes.is_empty());
}

#[test]
fn tab_lines_are_told_by_their_ends() {
    assert!(line_is_valid(b"e|---|"));
    assert!(line_is_valid(b"  3|--|--| \r"));
    assert!(line_is_valid(b"e|"));
    assert!(!line_is_valid(b"e|---"));
    assert!(!line_is_valid(b"|---|"));
    assert!(!line_is_valid(b"-|---|"));
    assert!(!line_is_valid(b"// e|---|"));
    assert!(!line_is_valid(b""));
    assert!(!line_is_valid(b"   "));
}

#[test]
fn carriage_returns_are_trimmed() {
    let parsed = parse_ok("e|-1|\r\nB|--|\r\nG|--|\r\nD|--|\r\nA|--|\r\nE|--|\r\n");
    assert_eq!(parsed.tick_stream.len(), 12);
    assert_eq!(parsed.tick_stream[6], Fret(1));
}

#[test]
fn locations_count_barlines_and_wide_ticks() {
    let parsed = parse_ok(EXAMPLE_SCORE);
    let view = parsed.as_ref();
    assert_eq!(source_location_from_stream(&view, 0), (1, 2));
    assert_eq!(source_location_from_stream(&view, 7), (2, 3));
    assert_eq!(source_location_from_stream(&view, 12), (1, 4));
    assert_eq!(source_location_from_stream(&view, 18), (1, 6));
    assert_eq!(source_location_from_stream(&view, 30), (1, 10));
    assert_eq!(source_location_from_stream(&view, 62), (3, 18));
    assert_eq!(source_location_from_stream(&view, 92), (12, 2));
    assert_eq!(source_location_from_stream(&view, 90), (10, 2));
    assert_eq!(source_location_from_stream(&view, 125), (15, 10));
}

#[test]
fn parse3_gives_the_error_beside_the_result() {
    let good: Vec<String> = EXAMPLE_SCORE.lines().map(|x| x.to_string()).collect();
    let r = parse3(&good);
    assert!(r.error.is_none());
    assert_eq!(r.tick_stream.len(), 150);
    let bad: Vec<String> =
        "e|-|\nB|-|\nG|-|\nD|-\nA|-|\nE|-|".lines().map(|x| x.to_string()).collect();
    let r = parse3(&bad);
    assert!(matches!(r.error.unwrap().kind, BackendErrorKind::NoClosingBarline));
    assert_eq!(r.base_notes, vec!['e', 'B', 'G', 'D']);
}

#[test]
fn test_score() {
    let example_score = r#"
e|---|
B|-3-|
G|6-6|
D|---|
A|---|
E|---|

e|---|
B|3-3|
G|-6-|
D|---|
A|---|
E|---|
"#;
    assert_eq!(tracks(example_score), "------\n-3-3-3\n6-6-6-\n------\n------\n------\n");
}

#[test]
fn test_part() {
    let example_part = r#"
e|---|---|
B|-3-|3-3|
G|6-6|-6-|
D|---|---|
A|---|---|
E|---|---|"#;
    let parsed = parse_ok(example_part);
    assert_eq!(
        dump_tracks(&parsed.as_ref()),
        "------\n-3-3-3\n6-6-6-\n------\n------\n------\n"
    );
    assert_eq!(parsed.measures.len(), 2);
    assert_eq!(parsed.measures[0].data_range, 0..=17);
    assert_eq!(parsed.measures[1].data_range, 18..=35);
}

#[test]
fn test_left_bend_score() {
    let score = r#"
e|--12b-|
B|--3--0|
G|2-----|
D|------|
A|------|
E|------|
"#;
    assert_eq!(tracks(score), "--12b-\n--3 -0\n2-- --\n--- --\n--- --\n--- --\n");
    let score = r#"
e|--12b-|
B|--3--4|
G|2-----|
D|------|
A|------|
E|------|
"#;
    assert_eq!(tracks(score), "--12b-\n--3 -4\n2-- --\n--- --\n--- --\n--- --\n");
}

#[test]
fn test_right_bend_score() {
    let score = r#"
e|--12b|
B|-0--3|
G|2----|
D|-----|
A|-----|
E|-----|
"#;
    assert_eq!(tracks(score), "--12b\n-0- 3\n2-- -\n--- -\n--- -\n--- -\n");
}

#[test]
fn test_full_bend_score() {
    let score = r#"
e|--12b|
B|--12b|
G|2----|
D|-----|
A|-----|
E|-----|
"#;
    assert_eq!(tracks(score), "--12b\n--12b\n2-- -\n--- -\n--- -\n--- -\n");
    let score = r#"
e|--12b|
B|--12b|
G|2-12b|
D|--12b|
A|--12b|
E|--12b|
"#;
    assert_eq!(tracks(score), "--12b\n--12b\n2-12b\n--12b\n--12b\n--12b\n");
}

#[test]
fn test_bendy_score() {
    let example_part = r#"
e|--12b---12b-|
B|--3---0---3-|
G|2-----------|
D|------------|
A|------------|
E|------------|
"#;
    assert_eq!(
        tracks(example_part),
        "--12b---12b-\n--3 --0-- 3-\n2-- ----- --\n--- ----- --\n--- ----- --\n--- ----- --\n"
    );
    let score = r#"
e|--12b-12b-|
B|--3---12b-|
G|2-----12b-|
D|------12b-|
A|------12b-|
E|------12b-|
"#;
    assert_eq!(
        tracks(score),
        "--12b-12b-\n--3 --12b-\n2-- --12b-\n--- --12b-\n--- --12b-\n--- --12b-\n"
    );
}

#[test]
fn parser_tests_test_multichar_tracks() {
    let input = r#"
e|----5--|
B|---3---|
G|10---12|
D|-------|
A|-------|
E|-------|"#;
    assert_eq!(tracks(input), "- --5- \n- -3-- \n10---12\n- ---- \n- ---- \n- ---- \n");
}

#[test]
fn parser_tests_test_parse3() {
    let parsed = parse_ok(EXAMPLE_SCORE);
    assert_eq!(dump_tracks(&parsed.as_ref()), EXAMPLE_TRACKS);
    assert_eq!(parsed.base_notes, "eBGDAEeBGDAE".chars().collect::<Vec<char>>());
    assert_eq!(parsed.offsets, vec![(1, 0), (10, 90)]);
    let ranges: Vec<_> = parsed.measures.iter().map(|m| m.data_range.clone()).collect();
    assert_eq!(ranges, vec![0..=29, 30..=59, 60..=89, 90..=119, 120..=149]);
    assert_eq!(&parsed.tick_stream[0..6], &[Rest, Fret(3), Rest, Rest, Rest, Rest]);
    assert_eq!(&parsed.tick_stream[84..90], &[Fret(12), Fret(11), Fret(11), Fret(11), Fret(11), Fret(11)]);
}

#[test]
fn parser_test_parse3() {
    let parsed = Parser::parse(&BufLines::from_string(EXAMPLE_SCORE.into())).unwrap();
    assert_eq!(dump_tracks(&parsed.as_ref()), EXAMPLE_TRACKS);
    assert_eq!(parsed.tick_stream.len(), 150);
    assert_eq!(parsed.measures.len(), 5);
}

#[test]
fn parser3_test_parse3() {
    let lines: Vec<String> = EXAMPLE_SCORE.lines().map(|x| x.to_string()).collect();
    let parse3_result = parse3(&lines);
    assert!(parse3_result.error.is_none());
    assert_eq!(parse3_result.tick_stream.len(), 150);
    assert_eq!(parse3_result.offsets, vec![(1, 0), (10, 90)]);
    assert_eq!(parse3_result.base_notes.len(), 12);
    assert_eq!(parse3_result.measures.len(), 5);
}

#[test]
fn a_tick_moves_every_string_by_its_width() {
    let sources: [&[u8]; 6] = [b"--5", b"-3-", b"10-", b"x--", b"b--", b"---"];
    let mut bodies: Vec<&[u8]> = sources.to_vec();
    let (atoms, wide) = read_tick(&mut bodies).unwrap();
    assert!(wide);
    let width = atoms.iter().map(|a| a.repr_len()).max().unwrap() as usize;
    assert_eq!(width, 2);
    for s in 0..6 {
        assert_eq!(sources[s].len() - bodies[s].len(), width);
    }
    let (atoms, wide) = read_tick(&mut bodies).unwrap();
    assert!(!wide);
    assert_eq!(atoms.iter().map(|a| a.repr_len()).max().unwrap(), 1);
    for s in 0..6 {
        assert_eq!(bodies[s].len(), 0);
    }
}

#[test]
fn a_tick_that_fails_leaves_the_strings_alone() {
    let sources: [&[u8]; 6] = [b"12", b"-", b"-3", b"--", b"--", b"--"];
    let mut bodies: Vec<&[u8]> = sources.to_vec();
    assert_eq!(
        read_tick(&mut bodies),
        Err(TickFailure::Rejected { string: 1, second: true, why: None, byte: None })
    );
    assert_eq!(bodies, sources.to_vec());
    let mut bodies: Vec<&[u8]> = vec![b"-", b"-", b"?", b"-", b"-", b"-"];
    assert_eq!(
        read_tick(&mut bodies),
        Err(TickFailure::Rejected { string: 2, second: false, why: None, byte: Some(b'?') })
    );
    let mut bodies: Vec<&[u8]> = vec![b"-", b"999", b"?", b"-", b"-", b"-"];
    assert_eq!(
        read_tick(&mut bodies),
        Err(TickFailure::Rejected {
            string: 1,
            second: false,
            why: Some(TabElementError::FretTooLarge),
            byte: Some(b'9')
        })
    );
    let mut bodies: Vec<&[u8]> = vec![b"--", b"-12", b"--", b"13", b"--", b"--"];
    assert_eq!(read_tick(&mut bodies), Err(TickFailure::BothSlotsMultichar { string: 1, other: 3 }));
    let mut bodies: Vec<&[u8]> = vec![b"--", b"--", b"--", b"13", b"3x", b"--"];
    assert_eq!(read_tick(&mut bodies), Err(TickFailure::BothSlotsFilled { string: 4 }));
}

#[test]
fn a_three_digit_fret_leaves_its_string_short() {
    // The other strings give two columns to a wide tick, whatever its width.
    let lines = BufLines::from_string("e|100-|\nB|--3|\nG|---|\nD|---|\nA|---|\nE|---|".into());
    let (e, parsed) = Parser::parse(&lines).unwrap_err();
    assert!(matches!(e.kind, BackendErrorKind::Parse3InvalidCharacter('\0')));
    assert_eq!(e.main_location, ErrorLocation::LineAndChar(0, 6));
    assert_eq!(parsed.tick_stream.len(), 12);
    assert_eq!(&parsed.tick_stream[0..6], &[Fret(100), Rest, Rest, Rest, Rest, Rest]);
    assert_eq!(&parsed.tick_stream[6..12], &[Rest, Fret(3), Rest, Rest, Rest, Rest]);
}

#[test]
fn the_source_is_dumped_line_by_line() {
    assert_eq!(dump_source(&["--3", "-0-", "|"]), "\n--3\n-0-\n|");
    assert_eq!(dump_source(&["one"]), "\none");
    assert_eq!(dump_source(&[]), "");
}

#[test]
fn the_dump_of_narrow_ticks_parses_back() {
    let parsed = parse_ok("e|-3-|x-h|\nB|0-1|---|\nG|---|-5-|\nD|---|---|\nA|/--|--~|\nE|---|p--|");
    let rows: Vec<String> = dump_tracks(&parsed.as_ref()).lines().map(|l| l.to_string()).collect();
    let mut source = String::new();
    for (s, row) in rows.iter().enumerate() {
        source.push(parsed.base_notes[s]);
        source.push('|');
        source.push_str(&row[0..3]);
        source.push('|');
        source.push_str(&row[3..6]);
        source.push_str("|\n");
    }
    let again = parse_ok(&source);
    assert_eq!(again.tick_stream, parsed.tick_stream);
    assert_eq!(again.base_notes, parsed.base_notes);
    let ranges: Vec<_> = parsed.measures.iter().map(|m| m.data_range.clone()).collect();
    let ranges_again: Vec<_> = again.measures.iter().map(|m| m.data_range.clone()).collect();
    assert_eq!(ranges_again, ranges);
}

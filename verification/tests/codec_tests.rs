use scoreman::parser::tab_element::TabElement3::{
    Bend, DeadNote, Fret, HammerOn, Pull, Release, Rest, Slide, Vibrato,
};
use scoreman::parser::tab_element::{tab_element3, TabElement3, TabElementError};
use scoreman::parser::{comment_line, expect_byte, numeric, string_name};

#[test]
fn every_atom_is_recognised() {
    let cases: [(&[u8], TabElement3); 9] = [
        (b"-", Rest),
        (b"x", DeadNote),
        (b"b", Bend),
        (b"h", HammerOn),
        (b"p", Pull),
        (b"r", Release),
        (b"/", Slide),
        (b"\\", Slide),
        (b"~", Vibrato),
    ];
    for (input, atom) in cases {
        let mut long = input.to_vec();
        long.extend_from_slice(b"-3");
        assert_eq!(tab_element3(&long), Ok((&b"-3"[..], atom)));
        assert_eq!(tab_element3(input), Ok((&b""[..], atom)));
    }
}

#[test]
fn frets_take_the_whole_digit_run() {
    assert_eq!(tab_element3(b"0"), Ok((&b""[..], Fret(0))));
    assert_eq!(tab_element3(b"7-"), Ok((&b"-"[..], Fret(7))));
    assert_eq!(tab_element3(b"12b"), Ok((&b"b"[..], Fret(12))));
    assert_eq!(tab_element3(b"255|"), Ok((&b"|"[..], Fret(255))));
    assert_eq!(tab_element3(b"007x"), Ok((&b"x"[..], Fret(7))));
}

#[test]
fn frets_above_255_are_too_large() {
    for input in [&b"256"[..], b"260-", b"300", b"1000", b"99999999999999999999"] {
        assert_eq!(tab_element3(input), Err((input, Some(TabElementError::FretTooLarge))));
    }
}

#[test]
fn other_bytes_are_not_recognised() {
    for input in [&b""[..], b"|", b"?", b":", b" 3", b"X", b"\xc3\xa9"] {
        assert_eq!(tab_element3(input), Err((input, None)));
    }
}

#[test]
fn rendered_width_is_the_digit_count() {
    assert_eq!(Fret(0).repr_len(), 1);
    assert_eq!(Fret(9).repr_len(), 1);
    assert_eq!(Fret(10).repr_len(), 2);
    assert_eq!(Fret(99).repr_len(), 2);
    assert_eq!(Fret(100).repr_len(), 3);
    assert_eq!(Fret(255).repr_len(), 3);
    for atom in [Rest, DeadNote, Bend, HammerOn, Pull, Release, Slide, Vibrato] {
        assert_eq!(atom.repr_len(), 1);
    }
}

#[test]
fn numeric_reads_a_u8() {
    assert_eq!(numeric(b"42rest"), Ok((&b"rest"[..], 42)));
    assert_eq!(numeric(b"255"), Ok((&b""[..], 255)));
    assert_eq!(numeric(b"256"), Err(&b"256"[..]));
    assert_eq!(numeric(b"x1"), Err(&b"x1"[..]));
    assert_eq!(numeric(b""), Err(&b""[..]));
}

#[test]
fn string_names_are_letters_and_digits() {
    assert_eq!(string_name(b"e|--"), Ok((&b"|--"[..], 'e')));
    assert_eq!(string_name(b"B"), Ok((&b""[..], 'B')));
    assert_eq!(string_name(b"3|"), Ok((&b"|"[..], '3')));
    assert_eq!(string_name(b"|e"), Err(&b"|e"[..]));
    assert_eq!(string_name(b""), Err(&b""[..]));
}

#[test]
fn expect_byte_reads_the_byte_it_is_given() {
    assert_eq!(expect_byte(b'|', b"|--"), Ok((&b"--"[..], b'|')));
    assert_eq!(expect_byte(b'|', b"-|"), Err(&b"-|"[..]));
    assert_eq!(expect_byte(b'|', b""), Err(&b""[..]));
}

#[test]
fn comments_start_with_two_slashes() {
    assert_eq!(comment_line(b"// This is a comment!"), Ok((&b""[..], &b" This is a comment!"[..])));
    assert_eq!(comment_line(b"//"), Ok((&b""[..], &b""[..])));
    assert_eq!(comment_line(b"//a\r\nb"), Ok((&b"\r\nb"[..], &b"a"[..])));
    assert_eq!(comment_line(b"/ not"), Err(&b"/ not"[..]));
    assert_eq!(comment_line(b" //"), Err(&b" //"[..]));
    assert_eq!(comment_line(b""), Err(&b""[..]));
}

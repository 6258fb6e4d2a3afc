//! The tick stream as text, one line for every string.
use vstd::prelude::*;
use itertools::Itertools;
use vstd::string::StringExecFns;
use crate::parser::locator::tick_width_at;
use crate::parser::model::{atom_text, padded, spaces, track_text, tracks_text};
use crate::parser::parser::ParserRef;
use crate::parser::tab_element::{lemma_atom_text_len, TabElement3};
use crate::text::format_decimal;

verus! {

/// The text of one atom, as it stands in the source.
fn write_atom(buf: &mut String, atom: TabElement3)
    ensures
        final(buf)@ == old(buf)@ + atom_text(atom),
{
    match atom {
        TabElement3::Fret(x) => {
            let digits = format_decimal(x as u128);
            buf.append(digits.as_str());
        },
        TabElement3::Rest => buf.push('-'),
        TabElement3::DeadNote => buf.push('x'),
        TabElement3::Slide => buf.push('/'),
        TabElement3::Bend => buf.push('b'),
        TabElement3::HammerOn => buf.push('h'),
        TabElement3::Pull => buf.push('p'),
        TabElement3::Release => buf.push('r'),
        TabElement3::Vibrato => buf.push('~'),
    }
    assert(buf@ =~= old(buf)@ + atom_text(atom));
}

/// Writes the atom and pads it with spaces to `width` columns.
fn write_padded(buf: &mut String, atom: TabElement3, width: u32)
    requires
        width <= 3,
    ensures
        final(buf)@ == old(buf)@ + padded(atom_text(atom), width as nat),
{
    write_atom(buf, atom);
    let used: u32 = atom.repr_len();
    proof {
        lemma_atom_text_len(atom);
    }
    let mut n: u32 = used;
    while n < width
        invariant
            used <= n,
            n <= width || used >= width,
            used >= width ==> n == used,
            used == atom_text(atom).len(),
            buf@ == old(buf)@ + atom_text(atom) + spaces((n - used) as nat),
        decreases width - n,
    {
        buf.push(' ');
        assert(buf@ =~= old(buf)@ + atom_text(atom) + spaces((n + 1 - used) as nat));
        n = n + 1;
    }
    proof {
        let text = atom_text(atom);
        if used >= width {
            assert(n == used);
            assert(spaces(0) =~= Seq::<char>::empty());
            assert(old(buf)@ + text + spaces(0) =~= old(buf)@ + text);
        } else {
            assert(n == width);
            assert(old(buf)@ + text + spaces((width - used) as nat) =~= old(buf)@ + (text
                + spaces((width - used) as nat)));
        }
    }
}

/// The six strings of the stream as text, one line each, every atom padded
/// to the width of its tick. A tick that is not complete is left out.
pub fn dump_tracks(parser: &ParserRef) -> (text: String)
    ensures
        text@ == tracks_text(parser@.tick_stream, 6),
{
    let stream = parser.tick_stream;
    let len = stream.len();
    let tick_cnt: usize = len / 6;
    let mut text = String::new();
    let mut s: usize = 0;
    assert(text@ =~= tracks_text(stream@, 0));
    while s < 6
        invariant
            s <= 6,
            len == stream@.len(),
            tick_cnt == stream@.len() / 6,
            text@ == tracks_text(stream@, s as int),
        decreases 6 - s,
    {
        let ghost before = text@;
        let mut tick: usize = 0;
        assert(text@ =~= before + track_text(stream@, s as int, 0));
        while tick < tick_cnt
            invariant
                s < 6,
                tick <= tick_cnt,
                len == stream@.len(),
                tick_cnt == stream@.len() / 6,
                text@ == before + track_text(stream@, s as int, tick as int),
            decreases tick_cnt - tick,
        {
            let width = tick_width_at(stream, tick);
            write_padded(&mut text, stream[tick * 6 + s], width);
            assert(text@ =~= before + track_text(stream@, s as int, tick + 1));
            tick = tick + 1;
        }
        text.push('\n');
        assert(text@ =~= tracks_text(stream@, s + 1));
        s = s + 1;
    }
    text
}

/// The first `n` of `parts`, with `sep` between them.
pub open spec fn joined_text(parts: Seq<Seq<char>>, sep: Seq<char>, n: int) -> Seq<char>
    decreases n,
{
    if n <= 0 {
        Seq::empty()
    } else if n == 1 {
        parts[0]
    } else {
        joined_text(parts, sep, n - 1) + sep + parts[n - 1]
    }
}

/// The texts that the string slices in `parts` hold.
pub open spec fn texts_of(parts: Seq<&str>) -> Seq<Seq<char>> {
    Seq::new(parts.len(), |i: int| parts[i]@)
}

/// The first `n` of `lines`, each after a line feed.
pub open spec fn source_text(lines: Seq<Seq<char>>, n: int) -> Seq<char>
    decreases n,
{
    if n <= 0 {
        Seq::empty()
    } else {
        source_text(lines, n - 1).push('\n') + lines[n - 1]
    }
}

/// Joins `parts` with `sep` between them, with `Itertools::join`. Trusted:
/// the result is the text of the first part, and for every further part
/// `sep` and the text of the part, in their order; the empty text for no part.
#[verifier::external_body]
fn join_strs(parts: &Vec<&str>, sep: &str) -> (text: String)
    ensures
        text@ == joined_text(texts_of(parts@), sep@, parts@.len() as int),
{
    parts.iter().join(sep)
}

/// An empty part and then `lines`, joined with line feeds, is every line
/// after a line feed.
proof fn lemma_joined_after_empty(parts: Seq<Seq<char>>, lines: Seq<Seq<char>>, sep: Seq<char>, n: int)
    requires
        0 <= n <= lines.len(),
        parts.len() == lines.len() + 1,
        parts[0] == Seq::<char>::empty(),
        forall|i: int| 0 <= i < lines.len() ==> #[trigger] parts[i + 1] == lines[i],
        sep == seq!['\n'],
    ensures
        joined_text(parts, sep, n + 1) == source_text(lines, n),
    decreases n,
{
    if n > 0 {
        lemma_joined_after_empty(parts, lines, sep, n - 1);
        assert(parts[n - 1 + 1] == lines[n - 1]);
        assert(joined_text(parts, sep, n) + sep + parts[n] =~= source_text(lines, n - 1).push(
            '\n',
        ) + lines[n - 1]);
    }
}

/// What is left of the strings of a part, as text: every string on a line
/// of its own, after a line feed.
pub fn dump_source(input: &[&str]) -> (text: String)
    ensures
        text@ == source_text(texts_of(input@), input@.len() as int),
{
    let mut parts: Vec<&str> = Vec::new();
    parts.push("");
    let mut i: usize = 0;
    while i < input.len()
        invariant
            i <= input@.len(),
            parts@.len() == i + 1,
            parts@[0]@ == ""@,
            forall|j: int| 0 <= j < i ==> (#[trigger] parts@[j + 1])@ == input@[j]@,
        decreases input.len() - i,
    {
        parts.push(input[i]);
        i = i + 1;
    }
    proof {
        reveal_strlit("");
        reveal_strlit("\n");
        assert(""@ =~= Seq::<char>::empty());
        assert("\n"@ =~= seq!['\n']);
        lemma_joined_after_empty(
            texts_of(parts@),
            texts_of(input@),
            "\n"@,
            input@.len() as int,
        );
    }
    join_strs(&parts, "\n")
}

} // verus!

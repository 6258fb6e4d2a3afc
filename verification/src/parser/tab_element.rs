//! The atom codec: recognises one tab atom at the start of a byte slice.
use vstd::prelude::*;
use crate::parser::{is_digit, numeric, spec_numeric, DASH};

verus! {

/// One parsed token of tab content.
#[derive(Debug, PartialEq, Eq, Clone, Copy, Structural)]
pub enum TabElement3 {
    Fret(u8),
    Rest,
    DeadNote,
    Bend,
    HammerOn,
    Pull,
    Release,
    Slide,
    Vibrato,
}

/// Why a run of digits is not a fret.
#[derive(Debug, PartialEq, Eq, Clone, Copy, Structural)]
pub enum TabElementError {
    FretTooLarge,
}

/// The atom that the single byte `b` stands for, if it stands for one.
pub open spec fn single_byte_atom(b: u8) -> Option<TabElement3> {
    if b == DASH {
        Some(TabElement3::Rest)
    } else if b == 120 {
        Some(TabElement3::DeadNote)
    } else if b == 98 {
        Some(TabElement3::Bend)
    } else if b == 104 {
        Some(TabElement3::HammerOn)
    } else if b == 112 {
        Some(TabElement3::Pull)
    } else if b == 114 {
        Some(TabElement3::Release)
    } else if b == 47 || b == 92 {
        Some(TabElement3::Slide)
    } else if b == 126 {
        Some(TabElement3::Vibrato)
    } else {
        None
    }
}

/// What the codec reads at the start of `s`: the atom and the number of bytes
/// it takes. `Err(Some(FretTooLarge))` for a digit run above 255, `Err(None)`
/// for any other first byte and for the empty input.
pub open spec fn spec_tab_element(s: Seq<u8>) -> Result<(TabElement3, nat), Option<TabElementError>> {
    if s.len() == 0 {
        Err(None)
    } else if is_digit(s[0]) {
        match spec_numeric(s) {
            Some((fret, width)) => Ok((TabElement3::Fret(fret), width)),
            None => Err(Some(TabElementError::FretTooLarge)),
        }
    } else {
        match single_byte_atom(s[0]) {
            Some(atom) => Ok((atom, 1)),
            None => Err(None),
        }
    }
}

/// Recognises one atom at the start of `s` and hands back what follows it.
/// On failure the input comes back whole, with the reason.
pub fn tab_element3(s: &[u8]) -> (r: Result<(&[u8], TabElement3), (&[u8], Option<TabElementError>)>)
    ensures
        match r {
            Ok((rest, atom)) => rest@.len() < s@.len() && spec_tab_element(s@) == Ok::<
                _,
                Option<TabElementError>,
            >((atom, (s@.len() - rest@.len()) as nat)) && rest@ == s@.skip(s@.len() - rest@.len()),
            Err((rem, why)) => rem@ == s@ && spec_tab_element(s@) == Err::<(TabElement3, nat), _>(
                why,
            ),
        },
{
    if s.len() == 0 {
        return Err((s, None));
    }
    let first: u8 = s[0];
    if 48 <= first && first <= 57 {
        return match numeric(s) {
            Ok((rest, fret)) => Ok((rest, TabElement3::Fret(fret))),
            Err(rem) => Err((rem, Some(TabElementError::FretTooLarge))),
        };
    }
    let atom = if first == DASH {
        TabElement3::Rest
    } else if first == 120 {
        TabElement3::DeadNote
    } else if first == 98 {
        TabElement3::Bend
    } else if first == 104 {
        TabElement3::HammerOn
    } else if first == 112 {
        TabElement3::Pull
    } else if first == 114 {
        TabElement3::Release
    } else if first == 47 || first == 92 {
        TabElement3::Slide
    } else if first == 126 {
        TabElement3::Vibrato
    } else {
        return Err((s, None));
    };
    Ok((&s[1..s.len()], atom))
}

impl TabElement3 {
    /// Rendered width in source columns: the number of decimal digits of a
    /// fret, one for every other atom.
    pub open spec fn spec_repr_len(&self) -> nat {
        match self {
            TabElement3::Fret(x) => if *x < 10 {
                1
            } else if *x < 100 {
                2
            } else {
                3
            },
            _ => 1,
        }
    }

    /// Rendered width of the atom in source columns.
    pub fn repr_len(&self) -> (w: u32)
        ensures
            w == self.spec_repr_len(),
            1 <= w <= 3,
    {
        match self {
            TabElement3::Fret(x) => if *x < 10 {
                1
            } else if *x < 100 {
                2
            } else {
                3
            },
            _ => 1,
        }
    }
}

/// The rendered width of a fret is the number of its decimal digits.
pub proof fn lemma_fret_width_is_digit_count(x: u8)
    ensures
        TabElement3::Fret(x).spec_repr_len() == crate::spec_digit_cnt(x as nat),
{
    reveal_with_fuel(crate::spec_digit_cnt, 4);
}

/// The text of an atom is as long as its rendered width.
pub proof fn lemma_atom_text_len(atom: TabElement3)
    ensures
        crate::parser::model::atom_text(atom).len() == atom.spec_repr_len(),
{
    match atom {
        TabElement3::Fret(x) => {
            crate::text::lemma_decimal_text_len(x as nat);
            lemma_fret_width_is_digit_count(x);
        },
        _ => {},
    }
}

} // verus!

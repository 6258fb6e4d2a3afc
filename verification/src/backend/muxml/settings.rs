use vstd::prelude::*;

verus! {

/// What the MusicXML generator does to each measure before it writes it.
#[derive(Clone, Copy, Debug, PartialEq, Eq, Structural)]
pub struct Settings {
    /// Drop a single rest that stands between two notes.
    pub remove_rest_between_notes: bool,
    /// Drop the rests at the start and at the end of a measure.
    pub trim_measure: bool,
    /// Write a measure of an even number of eighths in quarters.
    pub simplify_time_signature: bool,
}

} // verus!

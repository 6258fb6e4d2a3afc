//! The MusicXML generator: span tracking, measure optimisation and emission.
use vstd::prelude::*;

pub mod formatters;
pub mod fretboard;
pub mod generator;
pub mod laws;
pub mod settings;
pub mod spans;
pub mod transforms;

pub use crate::backend::muxml::generator::{MuxmlBackend, MuxmlGenerator};
pub use crate::backend::muxml::transforms::{
    merge_rests_in_measure, remove_rest_between_notes, trim_measure, Direction,
};

verus! {

/// The summary of one tick of a measure.
#[derive(Debug, Clone, Copy, PartialEq, Eq, Structural)]
pub enum Muxml2TabElement {
    /// That many ticks in a row without a note.
    Rest(u32),
    /// The six atoms that start at this stream index are written out.
    CopyTick(u32),
    /// Removed by an optimisation: nothing is written for it.
    Invalid,
}

/// One end of a slur: its number, and whether it starts or stops here.
#[derive(Default, Debug, Clone, Copy, PartialEq, Eq, Structural)]
pub struct Slur {
    pub number: u32,
    pub start: bool,
}

impl Slur {
    pub fn new(number: u32, start: bool) -> (s: Self)
        ensures
            s == (Slur { number, start }),
    {
        Slur { number, start }
    }

    pub fn start(number: u32) -> (s: Self)
        ensures
            s == (Slur { number, start: true }),
    {
        Slur { number, start: true }
    }

    pub fn stop(number: u32) -> (s: Self)
        ensures
            s == (Slur { number, start: false }),
    {
        Slur { number, start: false }
    }
}

/// One end of a slide: its number, and whether it starts or stops here.
#[derive(Default, Debug, Clone, Copy, PartialEq, Eq, Structural)]
pub struct Slide {
    pub number: u32,
    pub start: bool,
}

impl Slide {
    pub fn new(number: u32, start: bool) -> (s: Self)
        ensures
            s == (Slide { number, start }),
    {
        Slide { number, start }
    }

    pub fn start(number: u32) -> (s: Self)
        ensures
            s == (Slide { number, start: true }),
    {
        Slide { number, start: true }
    }

    pub fn stop(number: u32) -> (s: Self)
        ensures
            s == (Slide { number, start: false }),
    {
        Slide { number, start: false }
    }
}

/// One end of a vibrato.
#[derive(Debug, Clone, Copy, PartialEq, Eq, Structural)]
pub enum Vibrato {
    Start,
    Stop,
}

/// What is attached to the note at one stream index.
#[derive(Debug)]
pub struct NoteProperties {
    pub slurs: Vec<Slur>,
    pub slide: Option<Slide>,
    pub vibrato: Option<Vibrato>,
}

/// What is attached to a note: its slurs in the order they were added, its
/// slide and its vibrato.
pub struct PropsView {
    pub slurs: Seq<Slur>,
    pub slide: Option<Slide>,
    pub vibrato: Option<Vibrato>,
}

impl PropsView {
    /// Nothing attached.
    pub open spec fn empty() -> PropsView {
        PropsView { slurs: Seq::empty(), slide: None, vibrato: None }
    }
}

impl View for NoteProperties {
    type V = PropsView;

    open spec fn view(&self) -> PropsView {
        PropsView { slurs: self.slurs@, slide: self.slide, vibrato: self.vibrato }
    }
}

impl Default for NoteProperties {
    fn default() -> (p: Self)
        ensures
            p@ == PropsView::empty(),
    {
        NoteProperties { slurs: Vec::new(), slide: None, vibrato: None }
    }
}

} // verus!

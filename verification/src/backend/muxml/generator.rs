//! The generator: the scan of the measures and the writing of the document.
use vstd::prelude::*;
use vstd::string::StringExecFns;
use std::collections::HashMap;
use rustc_hash::FxBuildHasher;
use crate::backend::errors::backend_error::{BackendError, BackendErrorView};
use crate::backend::errors::backend_error_kind::BackendErrorKind;
use crate::backend::errors::diagnostic::{Diagnostic, DiagnosticSeverity};
use crate::backend::errors::diagnostic_kind::DiagnosticKind;
use crate::backend::errors::error_location::ErrorLocation;
use crate::backend::muxml::formatters::{
    measure_prelude_text, write_muxml2_measure_prelude, write_muxml2_note, write_rest,
    MUXML2_DOCUMENT_END, MUXML_INCOMPLETE_DOC_PRELUDE,
};
use crate::backend::muxml::fretboard::{base_note, get_fretboard_note2, string_base};
use crate::backend::muxml::laws::lemma_optimised_thins;
use crate::backend::muxml::settings::Settings;
use crate::backend::muxml::spans::{
    bend_error, bend_step, element_text, elements_text, empty_tick, initial, is_note_atom,
    lemma_measure_inside, lemma_new_slur_paired, lemma_no_slurs_paired, lemma_scan_summaries,
    notes_within, tick_before,
    lemma_step_keeps_slurs_paired, measure_step, measures_from, optimised, props_at, props_of,
    reaching, scan_measure, scan_tick, slurs_paired, sounding_text, span_step, spec_document,
    summaries, summary, tick_text, time_signature, tuning_known, with_slide, with_slur,
    with_vibrato, written_before, GenView,
};
use crate::backend::muxml::transforms::{
    merge_rests_in_measure, remove_rest_between_notes, trim_measure, Direction,
};
use crate::backend::muxml::{Muxml2TabElement, NoteProperties, PropsView, Slide, Slur, Vibrato};
use crate::parser::laws::lemma_chain_whole_ticks;
use crate::parser::model::{
    chain_end, first_where, input_fits, lemma_first_where_is, spec_location, spec_parse,
    ParseView,
};
use crate::parser::parser::{after, source_location_from_stream, Parser, ParserResult};
use crate::parser::tab_element::TabElement3;
use crate::ParseLines;

verus! {

/// `rustc_hash::FxBuildHasher`, the hasher of the property map: nothing is
/// known of what it holds.
#[verifier::external_type_specification]
#[verifier::external_body]
pub struct ExFxBuildHasher(FxBuildHasher);

/// The map from stream indices to what is attached to the notes there.
pub type PropertyMap = HashMap<u32, NoteProperties, FxBuildHasher>;

/// Makes the map from stream indices to note properties with
/// `HashMap::with_hasher` and `rustc_hash::FxBuildHasher`. Trusted: the new
/// map is empty.
#[verifier::external_body]
fn new_property_map() -> (made: PropertyMap)
    ensures
        made@ == (Map::<u32, NoteProperties>::empty()),
{
    HashMap::with_hasher(FxBuildHasher)
}

/// `HashMap::remove` on a map hashed with `rustc_hash::FxBuildHasher`.
/// Trusted: the key leaves the map, every other key stays with its value,
/// and the value that the key had comes back, or nothing where it had none.
/// This rests on `FxBuildHasher` hashing equal keys alike every time.
#[verifier::external_body]
fn property_map_remove(m: &mut PropertyMap, k: u32) -> (p: Option<
    NoteProperties,
>)
    ensures
        final(m)@ == old(m)@.remove(k),
        p == if old(m)@.contains_key(k) {
            Some(old(m)@[k])
        } else {
            None
        },
{
    m.remove(&k)
}

/// `HashMap::insert` on a map hashed with `rustc_hash::FxBuildHasher`.
/// Trusted: the key has the new value afterwards, and every other key stays
/// with its value.
#[verifier::external_body]
fn property_map_insert(m: &mut PropertyMap, k: u32, p: NoteProperties)
    ensures
        final(m)@ == old(m)@.insert(k, p),
{
    m.insert(k, p);
}

/// `HashMap::get` on a map hashed with `rustc_hash::FxBuildHasher`.
/// Trusted: the value of the key comes back, or nothing where the map does
/// not hold the key.
#[verifier::external_body]
fn property_map_get<'a>(m: &'a PropertyMap, k: u32) -> (p: Option<
    &'a NoteProperties,
>)
    ensures
        p == if m@.contains_key(k) {
            Some(&m@[k])
        } else {
            None
        },
{
    m.get(&k)
}

/// The properties in `m`, each as what it holds.
pub open spec fn props_view(m: Map<u32, NoteProperties>) -> Map<u32, PropsView> {
    Map::new(|k: u32| m.contains_key(k), |k: u32| m[k]@)
}

/// The number of bytes set aside for a document of `atoms` atoms.
pub open spec fn spec_capacity(atoms: nat) -> usize {
    let bytes = MUXML_INCOMPLETE_DOC_PRELUDE.len() + MUXML2_DOCUMENT_END.len() + atoms * 20;
    if bytes > usize::MAX {
        usize::MAX
    } else {
        bytes as usize
    }
}

/// The backend that writes MusicXML.
pub struct MuxmlBackend();

/// The generator: walks the tick stream measure by measure and writes the
/// document.
pub struct MuxmlGenerator {
    parsed: ParserResult,
    settings: Settings,
    measure_buf: Vec<Muxml2TabElement>,
    document: String,
    slur_cnt: u32,
    slide_cnt: u32,
    note_properties: PropertyMap,
}

impl View for MuxmlGenerator {
    type V = GenView;

    closed spec fn view(&self) -> GenView {
        GenView {
            parsed: self.parsed@,
            settings: self.settings,
            measure_buf: self.measure_buf@,
            document: self.document@,
            props: props_view(self.note_properties@),
            slur_cnt: self.slur_cnt,
            slide_cnt: self.slide_cnt,
        }
    }
}

/// Tests whether the atom sounds.
fn sounds(atom: TabElement3) -> (r: bool)
    ensures
        r == is_note_atom(atom),
{
    match atom {
        TabElement3::Fret(_) | TabElement3::DeadNote => true,
        _ => false,
    }
}

impl MuxmlGenerator {
    /// The number of bytes that a document for `parsed` is expected to
    /// take: the fixed text around the measures and 20 bytes for every atom,
    /// as far as a `usize` counts.
    pub fn estimate_capacity(parsed: &ParserResult) -> (cap: usize)
        ensures
            cap == spec_capacity(parsed.tick_stream@.len()),
    {
        let cap: u128 = MUXML_INCOMPLETE_DOC_PRELUDE.len() as u128 + MUXML2_DOCUMENT_END.len() as u128
            + parsed.tick_stream.len() as u128 * 20;
        if cap > usize::MAX as u128 {
            usize::MAX
        } else {
            cap as usize
        }
    }

    /// The generator for `parsed`, before the first measure.
    pub fn init(parsed: ParserResult, settings: Settings) -> (g: Self)
        ensures
            g@ == initial(parsed@, settings),
            slurs_paired(g@.props, g@.slur_cnt),
    {
        let g = Self {
            parsed,
            settings,
            document: String::from_str(MUXML_INCOMPLETE_DOC_PRELUDE),
            slur_cnt: 0,
            slide_cnt: 0,
            note_properties: new_property_map(),
            measure_buf: Vec::new(),
        };
        assert(props_view(g.note_properties@) =~= Map::<u32, PropsView>::empty());
        proof {
            lemma_no_slurs_paired();
        }
        g
    }

    /// What is attached at stream index `idx`, if anything is.
    pub fn properties_at(&self, idx: u32) -> (p: Option<&NoteProperties>)
        ensures
            match p {
                Some(found) => props_of(self@.props, idx) == Some(found@),
                None => props_of(self@.props, idx) is None,
            },
    {
        property_map_get(&self.note_properties, idx)
    }

    /// Takes the properties at stream index `idx` out of the map, or makes
    /// empty ones.
    fn take_props(&mut self, idx: u32) -> (p: NoteProperties)
        ensures
            p@ == props_at(old(self)@.props, idx),
            final(self).note_properties@ == old(self).note_properties@.remove(idx),
            final(self).parsed == old(self).parsed,
            final(self).settings == old(self).settings,
            final(self).measure_buf == old(self).measure_buf,
            final(self).document == old(self).document,
            final(self).slur_cnt == old(self).slur_cnt,
            final(self).slide_cnt == old(self).slide_cnt,
    {
        match property_map_remove(&mut self.note_properties, idx) {
            Some(p) => p,
            None => NoteProperties::default(),
        }
    }

    /// Puts the properties `p` at stream index `idx`, after `take_props`.
    fn put_props(&mut self, idx: u32, p: NoteProperties, Ghost(before): Ghost<Map<u32, PropsView>>)
        requires
            props_view(old(self).note_properties@.insert(idx, p)) == before.insert(idx, p@),
        ensures
            final(self)@ == (GenView { props: before.insert(idx, p@), ..old(self)@ }),
    {
        property_map_insert(&mut self.note_properties, idx, p);
    }

    /// Takes the next slur number and starts the slur at stream index `idx`.
    pub fn start_slur(&mut self, idx: u32)
        requires
            old(self)@.slur_cnt < u32::MAX,
        ensures
            final(self)@ == (GenView {
                props: with_slur(
                    old(self)@.props,
                    idx,
                    Slur { number: (old(self)@.slur_cnt + 1) as u32, start: true },
                ),
                slur_cnt: (old(self)@.slur_cnt + 1) as u32,
                ..old(self)@
            }),
    {
        let ghost before = self@.props;
        self.slur_cnt = self.slur_cnt + 1;
        let mut p = self.take_props(idx);
        p.slurs.push(Slur::start(self.slur_cnt));
        proof {
            assert(props_view(self.note_properties@.insert(idx, p)) =~= before.insert(idx, p@));
        }
        self.put_props(idx, p, Ghost(before));
    }

    /// Stops the slur that was started last at stream index `idx`.
    pub fn stop_slur(&mut self, idx: u32)
        ensures
            final(self)@ == (GenView {
                props: with_slur(
                    old(self)@.props,
                    idx,
                    Slur { number: old(self)@.slur_cnt, start: false },
                ),
                ..old(self)@
            }),
    {
        let ghost before = self@.props;
        let mut p = self.take_props(idx);
        p.slurs.push(Slur::stop(self.slur_cnt));
        proof {
            assert(props_view(self.note_properties@.insert(idx, p)) =~= before.insert(idx, p@));
        }
        self.put_props(idx, p, Ghost(before));
    }

    /// Takes the next slide number and starts the slide at stream index `idx`.
    pub fn start_slide(&mut self, idx: u32)
        requires
            old(self)@.slide_cnt < u32::MAX,
        ensures
            final(self)@ == (GenView {
                props: with_slide(
                    old(self)@.props,
                    idx,
                    Slide { number: (old(self)@.slide_cnt + 1) as u32, start: true },
                ),
                slide_cnt: (old(self)@.slide_cnt + 1) as u32,
                ..old(self)@
            }),
    {
        let ghost before = self@.props;
        self.slide_cnt = self.slide_cnt + 1;
        let mut p = self.take_props(idx);
        p.slide = Some(Slide::start(self.slide_cnt));
        proof {
            assert(props_view(self.note_properties@.insert(idx, p)) =~= before.insert(idx, p@));
        }
        self.put_props(idx, p, Ghost(before));
    }

    /// Stops the slide that was started last at stream index `idx`.
    pub fn stop_slide(&mut self, idx: u32)
        ensures
            final(self)@ == (GenView {
                props: with_slide(
                    old(self)@.props,
                    idx,
                    Slide { number: old(self)@.slide_cnt, start: false },
                ),
                ..old(self)@
            }),
    {
        let ghost before = self@.props;
        let mut p = self.take_props(idx);
        p.slide = Some(Slide::stop(self.slide_cnt));
        proof {
            assert(props_view(self.note_properties@.insert(idx, p)) =~= before.insert(idx, p@));
        }
        self.put_props(idx, p, Ghost(before));
    }

    /// Starts a vibrato at stream index `idx`.
    pub fn start_vibrato(&mut self, idx: u32)
        ensures
            final(self)@ == (GenView {
                props: with_vibrato(old(self)@.props, idx, Vibrato::Start),
                ..old(self)@
            }),
    {
        let ghost before = self@.props;
        let mut p = self.take_props(idx);
        p.vibrato = Some(Vibrato::Start);
        proof {
            assert(props_view(self.note_properties@.insert(idx, p)) =~= before.insert(idx, p@));
        }
        self.put_props(idx, p, Ghost(before));
    }

    /// Stops a vibrato at stream index `idx`.
    pub fn stop_vibrato(&mut self, idx: u32)
        ensures
            final(self)@ == (GenView {
                props: with_vibrato(old(self)@.props, idx, Vibrato::Stop),
                ..old(self)@
            }),
    {
        let ghost before = self@.props;
        let mut p = self.take_props(idx);
        p.vibrato = Some(Vibrato::Stop);
        proof {
            assert(props_view(self.note_properties@.insert(idx, p)) =~= before.insert(idx, p@));
        }
        self.put_props(idx, p, Ghost(before));
    }

    /// Adds one empty tick to the stream where stream index `next` lies
    /// beyond it.
    fn reach(&mut self, next: usize)
        ensures
            final(self)@ == (GenView {
                parsed: ParseView {
                    tick_stream: reaching(old(self)@.parsed.tick_stream, next as int),
                    ..old(self)@.parsed
                },
                ..old(self)@
            }),
    {
        if next >= self.parsed.tick_stream.len() {
            let mut s: usize = 0;
            while s < 6
                invariant
                    s <= 6,
                    self.parsed.tick_stream@ == old(self).parsed.tick_stream@ + Seq::new(
                        s as nat,
                        |j: int| TabElement3::Rest,
                    ),
                    self.parsed.measures == old(self).parsed.measures,
                    self.parsed.base_notes == old(self).parsed.base_notes,
                    self.parsed.offsets == old(self).parsed.offsets,
                    self.settings == old(self).settings,
                    self.measure_buf == old(self).measure_buf,
                    self.document == old(self).document,
                    self.slur_cnt == old(self).slur_cnt,
                    self.slide_cnt == old(self).slide_cnt,
                    self.note_properties == old(self).note_properties,
                decreases 6 - s,
            {
                self.parsed.tick_stream.push(TabElement3::Rest);
                assert(self.parsed.tick_stream@ =~= old(self).parsed.tick_stream@ + Seq::new(
                    (s + 1) as nat,
                    |j: int| TabElement3::Rest,
                ));
                s = s + 1;
            }
            assert(self.parsed.tick_stream@ =~= old(self).parsed.tick_stream@ + empty_tick());
        } else {
            assert(self.parsed.tick_stream@ =~= old(self).parsed.tick_stream@);
        }
    }
}

impl MuxmlGenerator {
    /// Resolves the bend, hammer-on, pull or release at `stream_idx`: see
    /// `bend_step`. Fails with `BendOnInvalid`, at the place of the atom,
    /// where the target is free and the source is not a fret below 255.
    pub fn process_bend_like(&mut self, stream_idx: usize) -> (r: Result<(), BackendError>)
        requires
            old(self)@.spanning(),
            stream_idx < chain_end(old(self)@.parsed.measures),
            old(self)@.slur_cnt < u32::MAX,
        ensures
            final(self)@ == old(self)@.with_spans(bend_step(old(self)@.spans(), stream_idx as int).0),
            r is Ok <==> bend_step(old(self)@.spans(), stream_idx as int).1,
            r is Err ==> r->Err_0@ == bend_error(final(self)@.parsed, stream_idx as int),
            final(self)@.spanning(),
            r is Ok && slurs_paired(old(self)@.props, old(self)@.slur_cnt) ==> slurs_paired(
                final(self)@.props,
                final(self)@.slur_cnt,
            ),
    {
        let ghost before = self@;
        proof {
            if slurs_paired(self@.props, self@.slur_cnt) && bend_step(
                self@.spans(),
                stream_idx as int,
            ).1 {
                lemma_new_slur_paired(
                    self@.props,
                    self@.slur_cnt,
                    tick_before(stream_idx as int),
                    (stream_idx + 6) as u32,
                );
            }
        }
        proof {
            let measures = self@.parsed.measures;
            lemma_chain_whole_ticks(measures, measures.len() as int);
            assert(measures.take(measures.len() as int) =~= measures);
        }
        let last_idx: usize = if stream_idx >= 6 {
            stream_idx - 6
        } else {
            0
        };
        let next_idx: usize = stream_idx + 6;
        self.start_slur(last_idx as u32);
        let len = self.parsed.tick_stream.len();
        if next_idx < len && self.parsed.tick_stream[next_idx] != TabElement3::Rest {
            self.stop_slur(next_idx as u32);
            return Ok(());
        }
        let target: u8 = match self.parsed.tick_stream[last_idx] {
            TabElement3::Fret(x) => {
                if x < u8::MAX {
                    x + 1
                } else {
                    let place = source_location_from_stream(
                        &self.parsed.as_ref(),
                        stream_idx as u32,
                    );
                    return Err(BackendError::bend_on_invalid(place.0, place.1));
                }
            },
            _ => {
                let place = source_location_from_stream(&self.parsed.as_ref(), stream_idx as u32);
                return Err(BackendError::bend_on_invalid(place.0, place.1));
            },
        };
        self.reach(next_idx);
        self.parsed.tick_stream[next_idx] = TabElement3::Fret(target);
        self.stop_slur(next_idx as u32);
        proof {
            assert(self@.parsed.measures == before.parsed.measures);
        }
        Ok(())
    }

    /// What the scan does at `stream_idx`: see `span_step`.
    fn process_atom(&mut self, stream_idx: usize) -> (r: Result<(), BackendError>)
        requires
            old(self)@.spanning(),
            stream_idx < chain_end(old(self)@.parsed.measures),
            old(self)@.slur_cnt <= stream_idx,
            old(self)@.slide_cnt <= stream_idx,
        ensures
            final(self)@ == old(self)@.with_spans(span_step(old(self)@.spans(), stream_idx as int).0),
            r is Ok <==> span_step(old(self)@.spans(), stream_idx as int).1,
            r is Err ==> r->Err_0@ == bend_error(final(self)@.parsed, stream_idx as int),
            final(self)@.spanning(),
            final(self)@.slur_cnt <= stream_idx + 1,
            final(self)@.slide_cnt <= stream_idx + 1,
            r is Ok && slurs_paired(old(self)@.props, old(self)@.slur_cnt) ==> slurs_paired(
                final(self)@.props,
                final(self)@.slur_cnt,
            ),
    {
        proof {
            let measures = self@.parsed.measures;
            lemma_chain_whole_ticks(measures, measures.len() as int);
            assert(measures.take(measures.len() as int) =~= measures);
            if slurs_paired(self@.props, self@.slur_cnt) && span_step(
                self@.spans(),
                stream_idx as int,
            ).1 {
                lemma_step_keeps_slurs_paired(self@.spans(), stream_idx as int);
            }
        }
        let last_idx: usize = if stream_idx >= 6 {
            stream_idx - 6
        } else {
            0
        };
        let next_idx: usize = stream_idx + 6;
        match self.parsed.tick_stream[stream_idx] {
            TabElement3::Vibrato => {
                self.start_vibrato(last_idx as u32);
                self.reach(next_idx);
                self.stop_vibrato(next_idx as u32);
                Ok(())
            },
            TabElement3::Bend
            | TabElement3::HammerOn
            | TabElement3::Pull
            | TabElement3::Release => self.process_bend_like(stream_idx),
            TabElement3::Slide => {
                self.start_slide(last_idx as u32);
                self.stop_slide(next_idx as u32);
                Ok(())
            },
            _ => {
                assert(self@ == old(self)@.with_spans(old(self)@.spans()));
                Ok(())
            },
        }
    }
}

impl MuxmlGenerator {
    /// Scans the six atoms of the tick that starts at stream index `start`.
    /// Gives whether one of them sounds.
    fn scan_tick(&mut self, start: usize) -> (r: Result<bool, BackendError>)
        requires
            old(self)@.spanning(),
            start + 6 <= chain_end(old(self)@.parsed.measures),
            old(self)@.slur_cnt <= start,
            old(self)@.slide_cnt <= start,
        ensures
            final(self)@ == old(self)@.with_spans(
                scan_tick(old(self)@.spans(), start as int, 0, false).state,
            ),
            match r {
                Ok(noted) => scan_tick(old(self)@.spans(), start as int, 0, false).failed is None
                    && noted == scan_tick(old(self)@.spans(), start as int, 0, false).noted,
                Err(e) => scan_tick(old(self)@.spans(), start as int, 0, false).failed is Some
                    && e@ == bend_error(
                    final(self)@.parsed,
                    scan_tick(old(self)@.spans(), start as int, 0, false).failed->0,
                ),
            },
            final(self)@.spanning(),
            final(self)@.slur_cnt <= start + 6,
            final(self)@.slide_cnt <= start + 6,
            r is Ok && slurs_paired(old(self)@.props, old(self)@.slur_cnt) ==> slurs_paired(
                final(self)@.props,
                final(self)@.slur_cnt,
            ),
    {
        let ghost goal = scan_tick(self@.spans(), start as int, 0, false);
        let mut noted = false;
        let mut s: usize = 0;
        assert(self@ == old(self)@.with_spans(self@.spans()));
        while s < 6
            invariant
                s <= 6,
                self@.spanning(),
                self@ == old(self)@.with_spans(self@.spans()),
                start + 6 <= chain_end(self@.parsed.measures),
                self@.slur_cnt <= start + s,
                self@.slide_cnt <= start + s,
                slurs_paired(old(self)@.props, old(self)@.slur_cnt) ==> slurs_paired(
                    self@.props,
                    self@.slur_cnt,
                ),
                goal == scan_tick(old(self)@.spans(), start as int, 0, false),
                goal == scan_tick(self@.spans(), start as int, s as int, noted),
            decreases 6 - s,
        {
            let sounding = sounds(self.parsed.tick_stream[start + s]);
            match self.process_atom(start + s) {
                Ok(_) => {},
                Err(e) => {
                    return Err(e);
                },
            }
            noted = noted || sounding;
            s = s + 1;
        }
        Ok(noted)
    }

    /// Scans the ticks from stream index `from` up to `to` and adds the
    /// summary of each to the measure at hand.
    fn scan_measure(&mut self, from: usize, to: usize) -> (r: Result<(), BackendError>)
        requires
            old(self)@.spanning(),
            from <= to <= chain_end(old(self)@.parsed.measures),
            (to - from) % 6 == 0,
            old(self)@.slur_cnt <= from,
            old(self)@.slide_cnt <= from,
        ensures
            final(self)@ == (GenView {
                measure_buf: scan_measure(
                    old(self)@.spans(),
                    old(self)@.measure_buf,
                    from as int,
                    to as int,
                ).buf,
                ..old(self)@.with_spans(
                    scan_measure(
                        old(self)@.spans(),
                        old(self)@.measure_buf,
                        from as int,
                        to as int,
                    ).state,
                )
            }),
            match r {
                Ok(_) => scan_measure(
                    old(self)@.spans(),
                    old(self)@.measure_buf,
                    from as int,
                    to as int,
                ).failed is None,
                Err(e) => scan_measure(
                    old(self)@.spans(),
                    old(self)@.measure_buf,
                    from as int,
                    to as int,
                ).failed is Some && e@ == bend_error(
                    final(self)@.parsed,
                    scan_measure(
                        old(self)@.spans(),
                        old(self)@.measure_buf,
                        from as int,
                        to as int,
                    ).failed->0,
                ),
            },
            final(self)@.spanning(),
            r is Ok ==> final(self)@.slur_cnt <= to && final(self)@.slide_cnt <= to,
            r is Ok && slurs_paired(old(self)@.props, old(self)@.slur_cnt) ==> slurs_paired(
                final(self)@.props,
                final(self)@.slur_cnt,
            ),
    {
        let ghost goal = scan_measure(self@.spans(), self@.measure_buf, from as int, to as int);
        let mut t: usize = from;
        assert(self@ == (GenView { measure_buf: self@.measure_buf, ..old(self)@.with_spans(self@.spans()) }));
        while t < to
            invariant
                from <= t <= to,
                (to - t) % 6 == 0,
                self@.spanning(),
                to <= chain_end(self@.parsed.measures),
                self@ == (GenView {
                    measure_buf: self@.measure_buf,
                    ..old(self)@.with_spans(self@.spans())
                }),
                self@.slur_cnt <= t,
                self@.slide_cnt <= t,
                slurs_paired(old(self)@.props, old(self)@.slur_cnt) ==> slurs_paired(
                    self@.props,
                    self@.slur_cnt,
                ),
                goal == scan_measure(
                    old(self)@.spans(),
                    old(self)@.measure_buf,
                    from as int,
                    to as int,
                ),
                goal == scan_measure(self@.spans(), self@.measure_buf, t as int, to as int),
            decreases to - t,
        {
            let ghost here = self@;
            let noted = match self.scan_tick(t) {
                Ok(noted) => noted,
                Err(e) => {
                    return Err(e);
                },
            };
            if noted {
                self.measure_buf.push(Muxml2TabElement::CopyTick(t as u32));
            } else {
                self.measure_buf.push(Muxml2TabElement::Rest(1));
            }
            proof {
                assert(self@.measure_buf == here.measure_buf.push(summary(t as int, noted)));
            }
            t = t + 6;
        }
        Ok(())
    }
}

impl MuxmlGenerator {
    /// Tests whether one of the six atoms from stream index `start` sounds.
    fn tick_sounds(&self, start: usize) -> (noted: bool)
        requires
            start + 6 <= self@.parsed.tick_stream.len(),
        ensures
            noted == written_before(self@.parsed.tick_stream, start as int, 6),
    {
        let len = self.parsed.tick_stream.len();
        let mut noted = false;
        let mut s: usize = 0;
        while s < 6
            invariant
                s <= 6,
                len == self@.parsed.tick_stream.len(),
                start + 6 <= self@.parsed.tick_stream.len(),
                noted == written_before(self@.parsed.tick_stream, start as int, s as int),
            decreases 6 - s,
        {
            noted = noted || sounds(self.parsed.tick_stream[start + s]);
            s = s + 1;
        }
        noted
    }

    /// Writes the note of the atom at stream index `idx`, if it sounds, with
    /// the chord mark where `written` says that the tick has a note already.
    /// Gives whether a note was written.
    fn write_sounding(&mut self, idx: usize, written: bool) -> (sounding: bool)
        requires
            idx < old(self)@.parsed.tick_stream.len(),
            idx <= u32::MAX,
            tuning_known(old(self)@.parsed.base_notes),
        ensures
            sounding == is_note_atom(old(self)@.parsed.tick_stream[idx as int]),
            final(self)@ == (GenView {
                document: old(self)@.document + sounding_text(
                    old(self)@.parsed.tick_stream[idx as int],
                    old(self)@.parsed.base_notes[(idx % 6) as int],
                    written,
                    props_of(old(self)@.props, idx as u32),
                ),
                ..old(self)@
            }),
    {
        let atom = self.parsed.tick_stream[idx];
        let letter = self.parsed.base_notes[idx % 6];
        let (dead, fret): (bool, u8) = match atom {
            TabElement3::DeadNote => (true, 0),
            TabElement3::Fret(x) => (false, x),
            _ => {
                assert(self@.document + Seq::<char>::empty() =~= self@.document);
                return false;
            },
        };
        assert(string_base(self@.parsed.base_notes[(idx % 6) as int]) is Some);
        let note = get_fretboard_note2(letter, fret);
        let (step, octave, sharp) = note.unwrap().step_octave_sharp();
        let properties = property_map_get(&self.note_properties, idx as u32);
        write_muxml2_note(&mut self.document, step, octave, sharp, written, dead, properties);
        true
    }

    /// Writes the notes of the tick that starts at stream index `tick_idx`.
    fn write_tick(&mut self, tick_idx: usize)
        requires
            tick_idx + 6 <= old(self)@.parsed.tick_stream.len(),
            tick_idx + 6 <= u32::MAX,
            tuning_known(old(self)@.parsed.base_notes),
        ensures
            final(self)@ == (GenView {
                document: old(self)@.document + tick_text(
                    old(self)@.spans(),
                    old(self)@.parsed.base_notes,
                    tick_idx as int,
                    6,
                ),
                ..old(self)@
            }),
    {
        let ghost st = self@.spans();
        let ghost notes = self@.parsed.base_notes;
        let mut written = false;
        let mut s: usize = 0;
        assert(self@.document + tick_text(st, notes, tick_idx as int, 0) =~= self@.document);
        while s < 6
            invariant
                s <= 6,
                tick_idx + 6 <= st.stream.len(),
                tick_idx + 6 <= u32::MAX,
                tuning_known(notes),
                st == old(self)@.spans(),
                notes == old(self)@.parsed.base_notes,
                written == written_before(st.stream, tick_idx as int, s as int),
                self@ == (GenView {
                    document: old(self)@.document + tick_text(st, notes, tick_idx as int, s as int),
                    ..old(self)@
                }),
            decreases 6 - s,
        {
            let ghost doc = self@.document;
            let sounding = self.write_sounding(tick_idx + s, written);
            proof {
                let piece = sounding_text(
                    st.stream[tick_idx + s],
                    notes[((tick_idx + s) % 6) as int],
                    written,
                    props_of(st.props, (tick_idx + s) as u32),
                );
                assert(tick_text(st, notes, tick_idx as int, s + 1) == tick_text(
                    st,
                    notes,
                    tick_idx as int,
                    s as int,
                ) + piece);
                assert(old(self)@.document + (tick_text(st, notes, tick_idx as int, s as int)
                    + piece) =~= old(self)@.document + tick_text(
                    st,
                    notes,
                    tick_idx as int,
                    s as int,
                ) + piece);
            }
            written = written || sounding;
            s = s + 1;
        }
    }

    /// Writes the summary at `elem_idx` of the measure at hand: the rests of
    /// a rest, the notes of a tick, nothing for what was removed.
    pub fn write_tab_element(&mut self, elem_idx: usize)
        requires
            elem_idx < old(self)@.measure_buf.len(),
            notes_within(old(self)@.measure_buf, old(self)@.parsed.tick_stream.len() as int),
            old(self)@.parsed.tick_stream.len() <= u32::MAX,
            tuning_known(old(self)@.parsed.base_notes),
        ensures
            final(self)@ == (GenView {
                document: old(self)@.document + element_text(
                    old(self)@.spans(),
                    old(self)@.parsed.base_notes,
                    old(self)@.measure_buf[elem_idx as int],
                ),
                ..old(self)@
            }),
    {
        let elem = self.measure_buf[elem_idx];
        match elem {
            Muxml2TabElement::Rest(x) => {
                write_rest(&mut self.document, x);
            },
            Muxml2TabElement::CopyTick(tick_idx) => {
                self.write_tick(tick_idx as usize);
            },
            Muxml2TabElement::Invalid => {
                assert(self@.document + Seq::<char>::empty() =~= self@.document);
            },
        }
    }

    /// Applies to the measure at hand the transforms that the settings ask
    /// for. Gives the content length that is left of `content_len`.
    fn optimise(&mut self, content_len: u32) -> (left: u32)
        requires
            old(self)@.measure_buf.len() <= u32::MAX,
        ensures
            final(self)@ == (GenView {
                measure_buf: optimised(old(self)@.measure_buf, content_len, old(self)@.settings).0,
                ..old(self)@
            }),
            left == optimised(old(self)@.measure_buf, content_len, old(self)@.settings).1,
    {
        let mut content_len = content_len;
        if self.settings.remove_rest_between_notes {
            remove_rest_between_notes(self.measure_buf.as_mut_slice(), &mut content_len);
        }
        proof {
            crate::backend::muxml::laws::lemma_without_rests_thins(old(self)@.measure_buf, 0);
        }
        merge_rests_in_measure(self.measure_buf.as_mut_slice());
        if self.settings.trim_measure {
            trim_measure(self.measure_buf.as_mut_slice(), &mut content_len, Direction::Forward);
            trim_measure(self.measure_buf.as_mut_slice(), &mut content_len, Direction::Backward);
        }
        content_len
    }

    /// Writes the measure at hand: its opening with the time signature of
    /// `content_len` eighths, its summaries and its closing.
    fn write_measure(&mut self, measure_idx: usize, content_len: u32)
        requires
            notes_within(old(self)@.measure_buf, old(self)@.parsed.tick_stream.len() as int),
            old(self)@.parsed.tick_stream.len() <= u32::MAX,
            tuning_known(old(self)@.parsed.base_notes),
        ensures
            final(self)@ == (GenView {
                document: old(self)@.document + measure_prelude_text(
                    measure_idx as nat,
                    time_signature(content_len, old(self)@.settings).0,
                    time_signature(content_len, old(self)@.settings).1,
                ) + elements_text(
                    old(self)@.spans(),
                    old(self)@.parsed.base_notes,
                    old(self)@.measure_buf,
                    old(self)@.measure_buf.len() as int,
                ) + "</measure>"@,
                ..old(self)@
            }),
    {
        let (beats, beat_type): (u32, usize) = if self.settings.simplify_time_signature
            && content_len % 2 == 0 {
            (content_len / 2, 4)
        } else {
            (content_len, 8)
        };
        write_muxml2_measure_prelude(&mut self.document, measure_idx, beats as usize, beat_type);
        let ghost opened = self@.document;
        let ghost st = self@.spans();
        let ghost notes = self@.parsed.base_notes;
        let ghost buf = self@.measure_buf;
        let mut i: usize = 0;
        assert(opened + elements_text(st, notes, buf, 0) =~= opened);
        while i < self.measure_buf.len()
            invariant
                i <= buf.len(),
                st == old(self)@.spans(),
                notes == old(self)@.parsed.base_notes,
                buf == old(self)@.measure_buf,
                notes_within(buf, st.stream.len() as int),
                st.stream.len() <= u32::MAX,
                tuning_known(notes),
                self@ == (GenView {
                    document: opened + elements_text(st, notes, buf, i as int),
                    ..old(self)@
                }),
            decreases buf.len() - i,
        {
            self.write_tab_element(i);
            assert(opened + elements_text(st, notes, buf, i + 1) =~= opened + elements_text(
                st,
                notes,
                buf,
                i as int,
            ) + element_text(st, notes, buf[i as int]));
            i = i + 1;
        }
        self.document.append("</measure>");
    }

    /// Scans the measure from stream index `from` up to `to` and leaves the
    /// summaries of its ticks as the measure at hand: see `summaries`.
    fn summarise(&mut self, from: usize, to: usize) -> (r: Result<(), BackendError>)
        requires
            old(self)@.spanning(),
            from < to <= chain_end(old(self)@.parsed.measures),
            (to - from) % 6 == 0,
            old(self)@.slur_cnt <= from,
            old(self)@.slide_cnt <= from,
            old(self)@.measure_buf.len() == 0,
        ensures
            final(self)@ == (GenView {
                measure_buf: if r is Ok {
                    summaries(
                        old(self)@.parsed.measures,
                        scan_measure(old(self)@.spans(), Seq::empty(), from as int, to as int),
                        to as int,
                    )
                } else {
                    scan_measure(old(self)@.spans(), Seq::empty(), from as int, to as int).buf
                },
                ..old(self)@.with_spans(
                    scan_measure(old(self)@.spans(), Seq::empty(), from as int, to as int).state,
                )
            }),
            match r {
                Ok(_) => scan_measure(
                    old(self)@.spans(),
                    Seq::empty(),
                    from as int,
                    to as int,
                ).failed is None,
                Err(e) => scan_measure(
                    old(self)@.spans(),
                    Seq::empty(),
                    from as int,
                    to as int,
                ).failed is Some && e@ == bend_error(
                    final(self)@.parsed,
                    scan_measure(old(self)@.spans(), Seq::empty(), from as int, to as int).failed->0,
                ),
            },
            final(self)@.spanning(),
            r is Ok ==> final(self)@.slur_cnt <= to && final(self)@.slide_cnt <= to,
            r is Ok ==> notes_within(
                final(self)@.measure_buf,
                final(self)@.parsed.tick_stream.len() as int,
            ) && final(self)@.measure_buf.len() <= u32::MAX,
            r is Ok && slurs_paired(old(self)@.props, old(self)@.slur_cnt) ==> slurs_paired(
                final(self)@.props,
                final(self)@.slur_cnt,
            ),
    {
        let ghost g = self@;
        assert(self@.measure_buf =~= Seq::<Muxml2TabElement>::empty());
        match self.scan_measure(from, to) {
            Ok(_) => {},
            Err(e) => {
                return Err(e);
            },
        }
        proof {
            lemma_scan_summaries(g.spans(), Seq::empty(), from as int, to as int);
        }
        let last = self.parsed.measures.len() - 1;
        let covered: u32 = after(*self.parsed.measures[last].data_range.end());
        proof {
            assert(self@.parsed.measures[last as int] == self.parsed.measures@[last as int].bounds());
        }
        if to == covered as usize && self.parsed.tick_stream.len() - to >= 6 {
            if self.tick_sounds(to) {
                let ghost before = self@.measure_buf;
                self.measure_buf.push(Muxml2TabElement::CopyTick(to as u32));
                proof {
                    let now = self@.measure_buf;
                    assert forall|j: int| 0 <= j < now.len() && #[trigger] now[j] is CopyTick implies now[j]->CopyTick_0
                        + 6 <= to + 6 by {
                        if j < before.len() {
                            assert(now[j] == before[j]);
                        }
                    }
                }
            }
        }
        Ok(())
    }

    /// Scans measure `measure_idx`, applies the transforms and writes the
    /// measure: see `measure_step`.
    pub fn process_measure(&mut self, measure_idx: usize) -> (r: Result<(), BackendError>)
        requires
            old(self)@.ready(measure_idx as int),
            measure_idx < old(self)@.parsed.measures.len(),
        ensures
            final(self)@ == measure_step(old(self)@, measure_idx as int).0,
            match r {
                Ok(_) => measure_step(old(self)@, measure_idx as int).1 is None
                    && final(self)@.ready(measure_idx + 1),
                Err(e) => measure_step(old(self)@, measure_idx as int).1 is Some && e@
                    == bend_error(
                    final(self)@.parsed,
                    measure_step(old(self)@, measure_idx as int).1->0,
                ),
            },
            r is Ok && slurs_paired(old(self)@.props, old(self)@.slur_cnt) ==> slurs_paired(
                final(self)@.props,
                final(self)@.slur_cnt,
            ),
    {
        let ghost g = self@;
        let from: u32 = *self.parsed.measures[measure_idx].data_range.start();
        let to: u32 = after(*self.parsed.measures[measure_idx].data_range.end());
        proof {
            lemma_measure_inside(g.parsed.measures, measure_idx as int);
            assert(g.parsed.measures[measure_idx as int] == self.parsed.measures@[measure_idx as int].bounds());
        }
        self.measure_buf.clear();
        let mut content_len: u32 = 8;
        if from >= to {
            self.measure_buf.push(Muxml2TabElement::Rest(8));
            assert(self@.measure_buf =~= seq![Muxml2TabElement::Rest(8)]);
            assert(self@ == (GenView { measure_buf: self@.measure_buf, ..g.with_spans(g.spans()) }));
        } else {
            match self.summarise(from as usize, to as usize) {
                Ok(_) => {},
                Err(e) => {
                    return Err(e);
                },
            }
            proof {
                lemma_optimised_thins(
                    self@.measure_buf,
                    self@.measure_buf.len() as u32,
                    self@.settings,
                );
            }
            let ticks = self.measure_buf.len() as u32;
            content_len = self.optimise(ticks);
        }
        proof {
            lemma_measure_inside(self@.parsed.measures, measure_idx as int);
        }
        self.write_measure(measure_idx, content_len);
        Ok(())
    }

    /// Walks all measures and closes the document. Gives the document, or
    /// the error of the first bend that could not be resolved.
    pub fn gen(self) -> (r: (Option<String>, Option<BackendError>))
        requires
            self@.ready(0),
        ensures
            match measures_from(self@, 0).1 {
                None => r.1 is None && r.0 is Some && r.0->0@ == measures_from(self@, 0).0.document
                    + MUXML2_DOCUMENT_END@,
                Some(i) => r.0 is None && r.1 is Some && r.1->0@ == bend_error(
                    measures_from(self@, 0).0.parsed,
                    i,
                ),
            },
            measures_from(self@, 0).1 is None && slurs_paired(self@.props, self@.slur_cnt)
                ==> slurs_paired(
                measures_from(self@, 0).0.props,
                measures_from(self@, 0).0.slur_cnt,
            ),
    {
        let ghost goal = measures_from(self@, 0);
        let mut generator = self;
        let number_of_measures = generator.parsed.measures.len();
        let mut measure_idx: usize = 0;
        while measure_idx < number_of_measures
            invariant
                measure_idx <= number_of_measures,
                number_of_measures == generator@.parsed.measures.len(),
                generator@.ready(measure_idx as int),
                goal == measures_from(self@, 0),
                goal == measures_from(generator@, measure_idx as int),
                slurs_paired(self@.props, self@.slur_cnt) ==> slurs_paired(
                    generator@.props,
                    generator@.slur_cnt,
                ),
            decreases number_of_measures - measure_idx,
        {
            match generator.process_measure(measure_idx) {
                Ok(_) => {},
                Err(err) => {
                    return (None, Some(err));
                },
            }
            measure_idx = measure_idx + 1;
        }
        let mut document = generator.document;
        document.append(MUXML2_DOCUMENT_END);
        (Some(document), None)
    }
}

/// The first of the six strings of the first part whose name the fretboard
/// does not know, or 6.
pub open spec fn unknown_string(base_notes: Seq<char>) -> int {
    first_where(|s: int| string_base(base_notes[s]) is None, 0, 6)
}

/// What the backend makes of `lines`: the error of the parser, if it has
/// one; the empty document for a text without a part; `InvalidStringName`
/// on the line of the first string of the first part that the fretboard
/// does not know; else what the generator makes of the parse result.
pub open spec fn spec_process(lines: Seq<Seq<u8>>, settings: Settings) -> Result<
    Seq<char>,
    BackendErrorView,
> {
    let parsed = spec_parse(lines);
    if parsed.1 is Some {
        Err(parsed.1->0)
    } else if parsed.0.measures.len() == 0 {
        Ok(MUXML_INCOMPLETE_DOC_PRELUDE@ + MUXML2_DOCUMENT_END@)
    } else if unknown_string(parsed.0.base_notes) < 6 {
        Err(
            BackendErrorView::on_line(
                BackendErrorKind::InvalidStringName,
                if parsed.0.offsets[0].0 + unknown_string(parsed.0.base_notes) > usize::MAX {
                    usize::MAX
                } else {
                    (parsed.0.offsets[0].0 + unknown_string(parsed.0.base_notes)) as usize
                },
            ),
        )
    } else {
        spec_document(parsed.0, settings)
    }
}

/// The atom is a mark that spans from the note before it to the note
/// after it: a bend, hammer-on, pull, release, slide or vibrato.
pub open spec fn is_span_atom(atom: TabElement3) -> bool {
    atom is Bend || atom is HammerOn || atom is Pull || atom is Release || atom is Slide
        || atom is Vibrato
}

/// A warning for every mark among the first `s` atoms of the stream, at
/// the place of the mark: no note comes before it, so that its span
/// starts on the first atom of the stream.
pub open spec fn first_tick_marks(v: ParseView, s: int) -> Seq<Diagnostic>
    decreases s,
{
    if s <= 0 {
        Seq::empty()
    } else if s - 1 < v.tick_stream.len() && is_span_atom(v.tick_stream[s - 1]) {
        first_tick_marks(v, s - 1).push(
            Diagnostic {
                location: ErrorLocation::LineAndChar(
                    spec_location(v, (s - 1) as u32).0,
                    spec_location(v, (s - 1) as u32).1,
                ),
                kind: DiagnosticKind::SpanInFirstTick,
                severity: DiagnosticSeverity::Warning,
            },
        )
    } else {
        first_tick_marks(v, s - 1)
    }
}

/// The diagnostics of the backend for `lines`: none where the parser
/// fails, else a warning for every mark in the first tick of the stream.
pub open spec fn spec_diagnostics(lines: Seq<Seq<u8>>) -> Seq<Diagnostic> {
    let parsed = spec_parse(lines);
    if parsed.1 is Some {
        Seq::empty()
    } else {
        first_tick_marks(parsed.0, 6)
    }
}

/// A warning for every mark in the first tick of the stream.
pub fn first_tick_diagnostics(parsed: &ParserResult) -> (diagnostics: Vec<Diagnostic>)
    requires
        parsed@.well_formed(),
    ensures
        diagnostics@ == first_tick_marks(parsed@, 6),
{
    let mut diagnostics: Vec<Diagnostic> = Vec::new();
    let mut s: usize = 0;
    while s < 6
        invariant
            s <= 6,
            parsed@.well_formed(),
            diagnostics@ == first_tick_marks(parsed@, s as int),
        decreases 6 - s,
    {
        if s < parsed.tick_stream.len() {
            let marked = match parsed.tick_stream[s] {
                TabElement3::Bend
                | TabElement3::HammerOn
                | TabElement3::Pull
                | TabElement3::Release
                | TabElement3::Slide
                | TabElement3::Vibrato => true,
                _ => false,
            };
            if marked {
                let place = source_location_from_stream(&parsed.as_ref(), s as u32);
                diagnostics.push(
                    Diagnostic::warn(
                        ErrorLocation::LineAndChar(place.0, place.1),
                        DiagnosticKind::SpanInFirstTick,
                    ),
                );
            }
        }
        s = s + 1;
    }
    diagnostics
}

impl MuxmlBackend {
    /// Parses `input` and writes it as a MusicXML document. Gives the
    /// document, or the error that stopped the parser or the generator, and
    /// a warning for every mark in the first tick of the stream.
    pub fn process<L: ParseLines>(input: &L, settings: Settings) -> (r: (
        Option<String>,
        Option<BackendError>,
        Vec<Diagnostic>,
    ))
        requires
            input.lines_wf(),
            input_fits(input.spec_lines(), 0),
        ensures
            match spec_process(input.spec_lines(), settings) {
                Ok(document) => r.0 is Some && r.0->0@ == document && r.1 is None,
                Err(e) => r.0 is None && r.1 is Some && r.1->0@ == e,
            },
            r.2@ == spec_diagnostics(input.spec_lines()),
    {
        let parsed = match Parser::parse(input) {
            Ok(parsed) => parsed,
            Err((e, _)) => {
                return (None, Some(e), Vec::new());
            },
        };
        let diagnostics = first_tick_diagnostics(&parsed);
        if parsed.measures.len() == 0 {
            let mut document = String::from_str(MUXML_INCOMPLETE_DOC_PRELUDE);
            document.append(MUXML2_DOCUMENT_END);
            return (Some(document), None, diagnostics);
        }
        let ghost notes = parsed@.base_notes;
        let ghost unknown = |s: int| string_base(notes[s]) is None;
        let mut s: usize = 0;
        while s < 6
            invariant
                s <= 6,
                notes == parsed@.base_notes,
                notes.len() >= 6,
                parsed@.offsets.len() > 0,
                diagnostics@ == spec_diagnostics(input.spec_lines()),
                spec_parse(input.spec_lines()) == (
                    parsed@,
                    None::<BackendErrorView>,
                ),
                parsed@.measures.len() > 0,
                unknown == |s: int| string_base(notes[s]) is None,
                forall|j: int| 0 <= j < s ==> !#[trigger] unknown(j),
            decreases 6 - s,
        {
            if base_note(parsed.base_notes[s]).is_none() {
                proof {
                    lemma_first_where_is(unknown, 0, 6, s as int);
                }
                let first = parsed.offsets[0].0 as usize;
                let line = if first > usize::MAX - s {
                    usize::MAX
                } else {
                    first + s
                };
                return (None, Some(BackendError::parse3_invalid_string_name(line)), diagnostics);
            }
            s = s + 1;
        }
        proof {
            lemma_first_where_is(unknown, 0, 6, 6);
            assert forall|j: int| 0 <= j < 6 implies string_base(#[trigger] notes[j]) is Some by {
                assert(!unknown(j));
            }
        }
        let (document, err) = MuxmlGenerator::init(parsed, settings).gen();
        (document, err, diagnostics)
    }
}

} // verus!

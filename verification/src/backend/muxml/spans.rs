//! The model of the generator: how the scan of the tick stream attaches
//! spans to notes, and what text a measure is written as.
use vstd::prelude::*;
use crate::backend::muxml::formatters::{
    measure_prelude_text, note_text, rests_text, MUXML2_DOCUMENT_END, MUXML_INCOMPLETE_DOC_PRELUDE,
};
use crate::backend::muxml::fretboard::{spec_step_octave_sharp, string_base};
use crate::backend::muxml::settings::Settings;
use crate::backend::muxml::transforms::{
    less, merged, rests_removed_from, trimmed, trimmed_off, without_rests_from, Direction,
};
use crate::backend::muxml::{Muxml2TabElement, PropsView, Slide, Slur, Vibrato};
use crate::parser::model::ParseView;
use crate::parser::tab_element::TabElement3;

verus! {

/// What the scan works on: the tick stream, the properties attached to
/// stream indices, and the numbers of the last slur and the last slide.
pub struct SpanState {
    pub stream: Seq<TabElement3>,
    pub props: Map<u32, PropsView>,
    pub slur_cnt: u32,
    pub slide_cnt: u32,
}

/// What is attached at stream index `k`: nothing where nothing was attached.
pub open spec fn props_at(props: Map<u32, PropsView>, k: u32) -> PropsView {
    if props.contains_key(k) {
        props[k]
    } else {
        PropsView::empty()
    }
}

/// `props` with `slur` added after the slurs at stream index `k`.
pub open spec fn with_slur(props: Map<u32, PropsView>, k: u32, slur: Slur) -> Map<u32, PropsView> {
    props.insert(k, PropsView { slurs: props_at(props, k).slurs.push(slur), ..props_at(props, k) })
}

/// `props` with `slide` as the slide at stream index `k`.
pub open spec fn with_slide(props: Map<u32, PropsView>, k: u32, slide: Slide) -> Map<
    u32,
    PropsView,
> {
    props.insert(k, PropsView { slide: Some(slide), ..props_at(props, k) })
}

/// `props` with `vibrato` as the vibrato at stream index `k`.
pub open spec fn with_vibrato(props: Map<u32, PropsView>, k: u32, vibrato: Vibrato) -> Map<
    u32,
    PropsView,
> {
    props.insert(k, PropsView { vibrato: Some(vibrato), ..props_at(props, k) })
}

/// The stream index one tick before `i` on the same string; 0 in the first tick.
pub open spec fn tick_before(i: int) -> u32 {
    if i >= 6 {
        (i - 6) as u32
    } else {
        0
    }
}

/// Six rests: one empty tick.
pub open spec fn empty_tick() -> Seq<TabElement3> {
    Seq::new(6, |s: int| TabElement3::Rest)
}

/// The stream, with one empty tick added where index `next` lies beyond it.
pub open spec fn reaching(stream: Seq<TabElement3>, next: int) -> Seq<TabElement3> {
    if next >= stream.len() {
        stream + empty_tick()
    } else {
        stream
    }
}

/// A vibrato at `i` starts on the note one tick before and stops on the
/// note one tick after; the stream grows by an empty tick where it ends
/// before that.
pub open spec fn vibrato_step(st: SpanState, i: int) -> SpanState {
    SpanState {
        stream: reaching(st.stream, i + 6),
        props: with_vibrato(
            with_vibrato(st.props, tick_before(i), Vibrato::Start),
            (i + 6) as u32,
            Vibrato::Stop,
        ),
        ..st
    }
}

/// A slide at `i` takes the next slide number, starts on the note one tick
/// before and stops at the index one tick after, whether the stream holds
/// an atom there or not.
pub open spec fn slide_step(st: SpanState, i: int) -> SpanState {
    let number = (st.slide_cnt + 1) as u32;
    let started = with_slide(st.props, tick_before(i), Slide { number, start: true });
    SpanState {
        props: with_slide(started, (i + 6) as u32, Slide { number, start: false }),
        slide_cnt: number,
        ..st
    }
}

/// The fret one above the fret at stream index `k`, where that is a fret
/// below 255.
pub open spec fn fret_above(stream: Seq<TabElement3>, k: int) -> Option<u8> {
    match stream[k] {
        TabElement3::Fret(x) => if x < u8::MAX {
            Some((x + 1) as u8)
        } else {
            None
        },
        _ => None,
    }
}

/// A bend, hammer-on, pull or release at `i` takes the next slur number and
/// starts the slur on the note one tick before. Where the stream holds an
/// atom other than a rest one tick after, the slur stops there. Otherwise
/// the note one tick before must be a fret: the fret above it is put one
/// tick after, in a new empty tick where the stream ends before that, and
/// the slur stops on it. Gives the new state, and whether the step was
/// possible.
pub open spec fn bend_step(st: SpanState, i: int) -> (SpanState, bool) {
    let number = (st.slur_cnt + 1) as u32;
    let next = i + 6;
    let started = SpanState {
        props: with_slur(st.props, tick_before(i), Slur { number, start: true }),
        slur_cnt: number,
        ..st
    };
    let stopped = with_slur(started.props, next as u32, Slur { number, start: false });
    if next < st.stream.len() && st.stream[next] != TabElement3::Rest {
        (SpanState { props: stopped, ..started }, true)
    } else {
        match fret_above(st.stream, tick_before(i) as int) {
            Some(target) => (
                SpanState {
                    stream: reaching(st.stream, next).update(next, TabElement3::Fret(target)),
                    props: stopped,
                    ..started
                },
                true,
            ),
            None => (started, false),
        }
    }
}

/// What the scan does at stream index `i`, and whether it could.
pub open spec fn span_step(st: SpanState, i: int) -> (SpanState, bool) {
    match st.stream[i] {
        TabElement3::Vibrato => (vibrato_step(st, i), true),
        TabElement3::Bend | TabElement3::HammerOn | TabElement3::Pull | TabElement3::Release => bend_step(
            st,
            i,
        ),
        TabElement3::Slide => (slide_step(st, i), true),
        _ => (st, true),
    }
}

/// The atom sounds: it is a fret or a dead note.
pub open spec fn is_note_atom(atom: TabElement3) -> bool {
    atom is Fret || atom is DeadNote
}

/// What a scan gives: the state it leaves, whether a note was met, and the
/// stream index at which it had to stop, if it had to.
pub struct TickScan {
    pub state: SpanState,
    pub noted: bool,
    pub failed: Option<int>,
}

/// Scans the strings `s..6` of the tick that starts at stream index `start`.
pub open spec fn scan_tick(st: SpanState, start: int, s: int, noted: bool) -> TickScan
    decreases 6 - s,
{
    if s >= 6 {
        TickScan { state: st, noted, failed: None }
    } else {
        let stepped = span_step(st, start + s);
        if stepped.1 {
            scan_tick(stepped.0, start, s + 1, noted || is_note_atom(st.stream[start + s]))
        } else {
            TickScan { state: stepped.0, noted, failed: Some(start + s) }
        }
    }
}

/// The summary of the tick that starts at stream index `start`.
pub open spec fn summary(start: int, noted: bool) -> Muxml2TabElement {
    if noted {
        Muxml2TabElement::CopyTick(start as u32)
    } else {
        Muxml2TabElement::Rest(1)
    }
}

/// What the scan of a measure gives: the state it leaves, the summaries of
/// the ticks it passed, and the stream index at which it had to stop.
pub struct MeasureScan {
    pub state: SpanState,
    pub buf: Seq<Muxml2TabElement>,
    pub failed: Option<int>,
}

/// Scans the ticks from stream index `from` up to `to`, adding the summary
/// of each to `buf`.
pub open spec fn scan_measure(st: SpanState, buf: Seq<Muxml2TabElement>, from: int, to: int) -> MeasureScan
    decreases to - from + 6,
{
    if from >= to {
        MeasureScan { state: st, buf, failed: None }
    } else {
        let tick = scan_tick(st, from, 0, false);
        if tick.failed is Some {
            MeasureScan { state: tick.state, buf, failed: tick.failed }
        } else {
            scan_measure(tick.state, buf.push(summary(from, tick.noted)), from + 6, to)
        }
    }
}

/// The summaries of a measure and its content length after the transforms
/// that `settings` asks for: rests between notes removed, rests merged,
/// both ends trimmed.
pub open spec fn optimised(buf: Seq<Muxml2TabElement>, content_len: u32, settings: Settings) -> (
    Seq<Muxml2TabElement>,
    u32,
) {
    let thinned = if settings.remove_rest_between_notes {
        (without_rests_from(buf, 0), less(content_len, rests_removed_from(buf, 0)))
    } else {
        (buf, content_len)
    };
    let joined = merged(thinned.0);
    if settings.trim_measure {
        let front = trimmed(joined, Direction::Forward);
        (
            trimmed(front, Direction::Backward),
            less(
                less(thinned.1, trimmed_off(joined, Direction::Forward)),
                trimmed_off(front, Direction::Backward),
            ),
        )
    } else {
        (joined, thinned.1)
    }
}

/// The properties attached at stream index `k`, if any were.
pub open spec fn props_of(props: Map<u32, PropsView>, k: u32) -> Option<PropsView> {
    if props.contains_key(k) {
        Some(props[k])
    } else {
        None
    }
}

/// A note was written for one of the first `s` strings of the tick at `k`.
pub open spec fn written_before(stream: Seq<TabElement3>, k: int, s: int) -> bool
    decreases s,
{
    if s <= 0 {
        false
    } else {
        written_before(stream, k, s - 1) || is_note_atom(stream[k + s - 1])
    }
}

/// The text of the note at stream index `i`, on the string named `letter`:
/// the pitch of the fret, or of the open string for a dead note. Nothing
/// for an atom that does not sound.
pub open spec fn sounding_text(
    atom: TabElement3,
    letter: char,
    chord: bool,
    properties: Option<PropsView>,
) -> Seq<char> {
    let base = string_base(letter)->0;
    match atom {
        TabElement3::Fret(x) => {
            let pitch = spec_step_octave_sharp(base + x);
            note_text(pitch.0, pitch.1, pitch.2, chord, false, properties)
        },
        TabElement3::DeadNote => {
            let pitch = spec_step_octave_sharp(base as int);
            note_text(pitch.0, pitch.1, pitch.2, chord, true, properties)
        },
        _ => Seq::empty(),
    }
}

/// The text of the first `s` strings of the tick at stream index `k`: one
/// note for every fret and dead note, with the chord mark on all but the
/// first of them.
pub open spec fn tick_text(st: SpanState, base_notes: Seq<char>, k: int, s: int) -> Seq<char>
    decreases s,
{
    if s <= 0 {
        Seq::empty()
    } else {
        tick_text(st, base_notes, k, s - 1) + sounding_text(
            st.stream[k + s - 1],
            base_notes[(k + s - 1) % 6],
            written_before(st.stream, k, s - 1),
            props_of(st.props, (k + s - 1) as u32),
        )
    }
}

/// The text of one summary.
pub open spec fn element_text(st: SpanState, base_notes: Seq<char>, e: Muxml2TabElement) -> Seq<
    char,
> {
    match e {
        Muxml2TabElement::Rest(x) => rests_text(x as nat),
        Muxml2TabElement::CopyTick(k) => tick_text(st, base_notes, k as int, 6),
        Muxml2TabElement::Invalid => Seq::empty(),
    }
}

/// The text of the first `n` summaries of a measure.
pub open spec fn elements_text(
    st: SpanState,
    base_notes: Seq<char>,
    buf: Seq<Muxml2TabElement>,
    n: int,
) -> Seq<char>
    decreases n,
{
    if n <= 0 {
        Seq::empty()
    } else {
        elements_text(st, base_notes, buf, n - 1) + element_text(st, base_notes, buf[n - 1])
    }
}

/// The time signature of a measure of `content_len` eighths: in quarters
/// where that is asked for and the number is even, in eighths otherwise.
pub open spec fn time_signature(content_len: u32, settings: Settings) -> (nat, nat) {
    if settings.simplify_time_signature && content_len % 2 == 0 {
        ((content_len / 2) as nat, 4)
    } else {
        (content_len as nat, 8)
    }
}

/// What the generator holds: the parse result it works on, its settings,
/// the summaries of the measure at hand, the document written so far, and
/// the spans attached so far.
pub struct GenView {
    pub parsed: ParseView,
    pub settings: Settings,
    pub measure_buf: Seq<Muxml2TabElement>,
    pub document: Seq<char>,
    pub props: Map<u32, PropsView>,
    pub slur_cnt: u32,
    pub slide_cnt: u32,
}

impl GenView {
    /// What the scan works on.
    pub open spec fn spans(&self) -> SpanState {
        SpanState {
            stream: self.parsed.tick_stream,
            props: self.props,
            slur_cnt: self.slur_cnt,
            slide_cnt: self.slide_cnt,
        }
    }

    /// The generator after the scan has left the state `st`.
    pub open spec fn with_spans(&self, st: SpanState) -> GenView {
        GenView {
            parsed: ParseView { tick_stream: st.stream, ..self.parsed },
            props: st.props,
            slur_cnt: st.slur_cnt,
            slide_cnt: st.slide_cnt,
            ..*self
        }
    }

    /// The scan can walk the measures: they follow each other in whole ticks
    /// and end inside the stream, which has at most the one empty tick after
    /// them that the scan adds; stream indices fit in a `u32`; the first part
    /// starts the stream, and the parts stand in the order of the stream.
    pub open spec fn spanning(&self) -> bool {
        let covered = crate::parser::model::chain_end(self.parsed.measures);
        &&& crate::parser::model::measures_chained(self.parsed.measures)
        &&& covered <= self.parsed.tick_stream.len() <= covered + 6
        &&& self.parsed.tick_stream.len() % 6 == 0
        &&& covered + 6 <= u32::MAX
        &&& self.parsed.offsets.len() > 0
        &&& self.parsed.offsets[0].1 == 0
        &&& crate::parser::model::offsets_sorted(self.parsed.offsets)
    }

    /// The generator can work on measure `m`: the scan can walk the
    /// measures, no more spans were numbered than there are atoms before
    /// the measure, and the fretboard knows the first six string names.
    pub open spec fn ready(&self, m: int) -> bool {
        &&& 0 <= m <= self.parsed.measures.len()
        &&& self.spanning()
        &&& self.slur_cnt <= measure_start(self.parsed.measures, m)
        &&& self.slide_cnt <= measure_start(self.parsed.measures, m)
        &&& tuning_known(self.parsed.base_notes)
    }
}

/// The stream index at which measure `m` starts: the end of the measures
/// where `m` is their number.
pub open spec fn measure_start(measures: Seq<(u32, u32)>, m: int) -> int {
    if 0 <= m < measures.len() {
        measures[m].0 as int
    } else {
        crate::parser::model::chain_end(measures)
    }
}

/// The fretboard knows the names of the six strings of the first part.
pub open spec fn tuning_known(base_notes: Seq<char>) -> bool {
    base_notes.len() >= 6 && forall|s: int| 0 <= s < 6 ==> string_base(#[trigger] base_notes[s]) is Some
}

/// The scan has added a tick after the measures, at stream index `to`, and
/// has put a note in it: the target of a bend at the end of the stream.
pub open spec fn note_appended(measures: Seq<(u32, u32)>, stream: Seq<TabElement3>, to: int) -> bool {
    to == crate::parser::model::chain_end(measures) && stream.len() >= to + 6 && written_before(
        stream,
        to,
        6,
    )
}

/// The summaries of a scanned measure that ends at stream index `to`: those
/// of its ticks, and one more for the tick that the scan has added after
/// the last measure, where it has put a note there.
pub open spec fn summaries(
    measures: Seq<(u32, u32)>,
    scanned: MeasureScan,
    to: int,
) -> Seq<Muxml2TabElement> {
    if note_appended(measures, scanned.state.stream, to) {
        scanned.buf.push(Muxml2TabElement::CopyTick(to as u32))
    } else {
        scanned.buf
    }
}

/// What the generator makes of measure `m`: it scans the measure, applies
/// the transforms to the summaries of its ticks, and writes the measure
/// with its time signature. The tick that the scan adds after the last
/// measure for the target of a bend is written with that measure. A
/// measure without ticks is written as one whole rest. Gives the generator
/// after the measure, and the stream index of the bend that could not be
/// resolved, if there was one.
pub open spec fn measure_step(g: GenView, m: int) -> (GenView, Option<int>) {
    let from = g.parsed.measures[m].0 as int;
    let to = crate::parser::model::index_after(g.parsed.measures[m].1) as int;
    let scanned = scan_measure(g.spans(), Seq::empty(), from, to);
    let ticks = summaries(g.parsed.measures, scanned, to);
    let done = if from >= to {
        (seq![Muxml2TabElement::Rest(8)], 8u32)
    } else {
        optimised(ticks, ticks.len() as u32, g.settings)
    };
    let signature = time_signature(done.1, g.settings);
    if scanned.failed is Some {
        (GenView { measure_buf: scanned.buf, ..g.with_spans(scanned.state) }, scanned.failed)
    } else {
        (
            GenView {
                measure_buf: done.0,
                document: g.document + measure_prelude_text(m as nat, signature.0, signature.1)
                    + elements_text(scanned.state, g.parsed.base_notes, done.0, done.0.len() as int)
                    + "</measure>"@,
                ..g.with_spans(scanned.state)
            },
            None,
        )
    }
}

/// What the generator makes of the measures from `m` on.
pub open spec fn measures_from(g: GenView, m: int) -> (GenView, Option<int>)
    decreases g.parsed.measures.len() - m,
{
    if m < 0 || m >= g.parsed.measures.len() {
        (g, None)
    } else {
        let stepped = measure_step(g, m);
        if stepped.1 is Some {
            stepped
        } else {
            measures_from(stepped.0, m + 1)
        }
    }
}

/// The generator before the first measure.
pub open spec fn initial(parsed: ParseView, settings: Settings) -> GenView {
    GenView {
        parsed,
        settings,
        measure_buf: Seq::empty(),
        document: MUXML_INCOMPLETE_DOC_PRELUDE@,
        props: Map::empty(),
        slur_cnt: 0,
        slide_cnt: 0,
    }
}

/// The document that the generator writes for `parsed`, or the error of
/// the first bend that could not be resolved: a bend whose target is free
/// and whose source is not a fret below 255.
pub open spec fn spec_document(parsed: ParseView, settings: Settings) -> Result<
    Seq<char>,
    crate::backend::errors::backend_error::BackendErrorView,
> {
    let end = measures_from(initial(parsed, settings), 0);
    match end.1 {
        None => Ok(end.0.document + MUXML2_DOCUMENT_END@),
        Some(i) => Err(bend_error(end.0.parsed, i)),
    }
}

/// The error for the bend at stream index `i` that could not be resolved.
pub open spec fn bend_error(parsed: ParseView, i: int) -> crate::backend::errors::backend_error::BackendErrorView {
    let place = crate::parser::model::spec_location(parsed, i as u32);
    crate::backend::errors::backend_error::BackendErrorView::at(
        crate::backend::errors::backend_error_kind::BackendErrorKind::BendOnInvalid,
        place.0,
        place.1,
    )
}

/// A measure of a chain starts at or before its end, covers whole ticks and
/// ends inside the chain; the next measure, or the end of the chain, starts
/// where it ends.
pub proof fn lemma_measure_inside(measures: Seq<(u32, u32)>, m: int)
    requires
        crate::parser::model::measures_chained(measures),
        0 <= m < measures.len(),
    ensures
        measures[m].0 <= crate::parser::model::index_after(measures[m].1),
        (crate::parser::model::index_after(measures[m].1) - measures[m].0) % 6 == 0,
        crate::parser::model::index_after(measures[m].1) <= crate::parser::model::chain_end(
            measures,
        ),
        measure_start(measures, m + 1) == crate::parser::model::index_after(measures[m].1),
        measure_start(measures, m) == measures[m].0,
    decreases measures.len() - m,
{
    if m + 1 < measures.len() {
        lemma_measure_inside(measures, m + 1);
        assert(measures[m + 1].0 == crate::parser::model::index_after(measures[m].1));
    }
}

/// Every tick that `buf` copies lies inside the first `limit` atoms.
pub open spec fn notes_within(buf: Seq<Muxml2TabElement>, limit: int) -> bool {
    forall|j: int|
        0 <= j < buf.len() ==> (#[trigger] buf[j] is CopyTick ==> buf[j]->CopyTick_0 + 6 <= limit)
}

/// The summaries that a scan adds copy only ticks of the scanned range,
/// and there is one for every tick of it.
pub proof fn lemma_scan_summaries(st: SpanState, buf: Seq<Muxml2TabElement>, from: int, to: int)
    requires
        0 <= from <= to,
        (to - from) % 6 == 0,
        to + 6 <= u32::MAX,
        notes_within(buf, to),
    ensures
        notes_within(scan_measure(st, buf, from, to).buf, to),
        scan_measure(st, buf, from, to).failed is None ==> scan_measure(st, buf, from, to).buf.len()
            == buf.len() + (to - from) / 6,
    decreases to - from,
{
    if from < to {
        let tick = scan_tick(st, from, 0, false);
        if tick.failed is None {
            let next = buf.push(summary(from, tick.noted));
            assert forall|j: int| 0 <= j < next.len() && #[trigger] next[j] is CopyTick implies next[j]->CopyTick_0
                + 6 <= to by {
                if j < buf.len() {
                    assert(next[j] == buf[j]);
                }
            }
            lemma_scan_summaries(tick.state, next, from + 6, to);
        }
    }
}

/// The `j`-th slur end at stream index `k` exists.
pub open spec fn slot(props: Map<u32, PropsView>, k: u32, j: int) -> bool {
    props.contains_key(k) && 0 <= j < props[k].slurs.len()
}

/// Slur number `n` starts at one stream index and stops at a later one.
pub open spec fn slur_spans(props: Map<u32, PropsView>, n: u32) -> bool {
    exists|a: u32, j: int, b: u32, j2: int|
        a < b && #[trigger] slot(props, a, j) && #[trigger] slot(props, b, j2) && props[a].slurs[j]
            == (Slur { number: n, start: true }) && props[b].slurs[j2] == (Slur {
            number: n,
            start: false,
        })
}

/// Span pairing for slurs: the slur ends that are attached bear the
/// numbers 1 to `cnt`, no end is attached twice, and every number has its
/// start at one stream index and its stop at a later one. So every start
/// has exactly one stop, and the stop comes after it.
pub open spec fn slurs_paired(props: Map<u32, PropsView>, cnt: u32) -> bool {
    &&& forall|k: u32, j: int| #[trigger]
        slot(props, k, j) ==> 1 <= props[k].slurs[j].number <= cnt
    &&& forall|k: u32, j: int, k2: u32, j2: int|
        #[trigger] slot(props, k, j) && #[trigger] slot(props, k2, j2) && props[k].slurs[j]
            == props[k2].slurs[j2] ==> k == k2 && j == j2
    &&& forall|n: u32| 1 <= n <= cnt ==> #[trigger] slur_spans(props, n)
}

/// Nothing is attached: the slurs are paired.
pub proof fn lemma_no_slurs_paired()
    ensures
        slurs_paired(Map::<u32, PropsView>::empty(), 0),
{
}

/// The slur ends after one more was attached at `k`: those that were
/// there, where they were, and the new one last at `k`.
pub proof fn lemma_with_slur_slots(props: Map<u32, PropsView>, k: u32, slur: Slur)
    ensures
        forall|k2: u32, j2: int| #[trigger]
            slot(with_slur(props, k, slur), k2, j2) <==> slot(props, k2, j2) || (k2 == k && j2
                == props_at(props, k).slurs.len()),
        forall|k2: u32, j2: int| #[trigger]
            slot(props, k2, j2) ==> with_slur(props, k, slur)[k2].slurs[j2]
                == props[k2].slurs[j2],
        with_slur(props, k, slur)[k].slurs[props_at(props, k).slurs.len() as int] == slur,
{
}

/// Attaching a slide or a vibrato leaves the slur ends as they are.
pub proof fn lemma_other_props_keep_slurs(
    props: Map<u32, PropsView>,
    next: Map<u32, PropsView>,
    cnt: u32,
)
    requires
        slurs_paired(props, cnt),
        forall|k: u32| props_at(next, k).slurs == props_at(props, k).slurs,
        forall|k: u32| props.contains_key(k) ==> next.contains_key(k),
    ensures
        slurs_paired(next, cnt),
{
    assert forall|k: u32, j: int| #[trigger] slot(next, k, j) implies slot(props, k, j)
        && next[k].slurs[j] == props[k].slurs[j] by {
        assert(props_at(next, k).slurs == props_at(props, k).slurs);
    }
    assert forall|k: u32, j: int| #[trigger] slot(props, k, j) implies slot(next, k, j)
        && next[k].slurs[j] == props[k].slurs[j] by {
        assert(props_at(next, k).slurs == props_at(props, k).slurs);
    }
    assert forall|n: u32| 1 <= n <= cnt implies #[trigger] slur_spans(next, n) by {
        assert(slur_spans(props, n));
        let (a, j, b, j2) = choose|a: u32, j: int, b: u32, j2: int|
            a < b && #[trigger] slot(props, a, j) && #[trigger] slot(props, b, j2)
                && props[a].slurs[j] == (Slur { number: n, start: true }) && props[b].slurs[j2]
                == (Slur { number: n, start: false });
        assert(slot(next, a, j) && slot(next, b, j2));
    }
}

/// Attaching the start of slur `cnt + 1` at `a` and its stop at a later
/// index `b` keeps the slurs paired, now up to `cnt + 1`.
pub proof fn lemma_new_slur_paired(props: Map<u32, PropsView>, cnt: u32, a: u32, b: u32)
    requires
        slurs_paired(props, cnt),
        cnt < u32::MAX,
        a < b,
    ensures
        slurs_paired(
            with_slur(
                with_slur(props, a, Slur { number: (cnt + 1) as u32, start: true }),
                b,
                Slur { number: (cnt + 1) as u32, start: false },
            ),
            (cnt + 1) as u32,
        ),
{
    let n = (cnt + 1) as u32;
    let start = Slur { number: n, start: true };
    let stop = Slur { number: n, start: false };
    let started = with_slur(props, a, start);
    let stopped = with_slur(started, b, stop);
    lemma_with_slur_slots(props, a, start);
    lemma_with_slur_slots(started, b, stop);
    let ja = props_at(props, a).slurs.len() as int;
    let jb = props_at(started, b).slurs.len() as int;
    assert(slot(started, a, ja));
    assert(slot(stopped, a, ja));
    assert(slot(stopped, b, jb));
    assert(stopped[a].slurs[ja] == start);
    assert(stopped[b].slurs[jb] == stop);
    assert forall|k: u32, j: int| #[trigger] slot(stopped, k, j) implies 1
        <= stopped[k].slurs[j].number <= n && (slot(props, k, j) ==> stopped[k].slurs[j]
        == props[k].slurs[j]) && (!slot(props, k, j) ==> (k == a && j == ja) || (k == b && j
        == jb)) by {
        if slot(started, k, j) {
            assert(stopped[k].slurs[j] == started[k].slurs[j]);
            if slot(props, k, j) {
                assert(started[k].slurs[j] == props[k].slurs[j]);
            }
        }
    }
    assert forall|k: u32, j: int, k2: u32, j2: int|
        #[trigger] slot(stopped, k, j) && #[trigger] slot(stopped, k2, j2) && stopped[k].slurs[j]
            == stopped[k2].slurs[j2] implies k == k2 && j == j2 by {
        if slot(props, k, j) && slot(props, k2, j2) {
        } else if slot(props, k, j) {
            assert(props[k].slurs[j].number <= cnt);
        } else if slot(props, k2, j2) {
            assert(props[k2].slurs[j2].number <= cnt);
        }
    }
    assert forall|m: u32| 1 <= m <= n implies #[trigger] slur_spans(stopped, m) by {
        if m <= cnt {
            assert(slur_spans(props, m));
            let (x, j, y, j2) = choose|x: u32, j: int, y: u32, j2: int|
                x < y && #[trigger] slot(props, x, j) && #[trigger] slot(props, y, j2)
                    && props[x].slurs[j] == (Slur { number: m, start: true })
                    && props[y].slurs[j2] == (Slur { number: m, start: false });
            assert(slot(started, x, j) && slot(started, y, j2));
            assert(slot(stopped, x, j) && slot(stopped, y, j2));
        } else {
            assert(slot(stopped, a, ja) && slot(stopped, b, jb));
        }
    }
}

/// Span pairing, one step of the scan: a step that could be taken keeps
/// the slurs paired. A bend, hammer-on, pull or release adds the start and
/// the stop of a new slur; any other atom leaves the slurs alone.
pub proof fn lemma_step_keeps_slurs_paired(st: SpanState, i: int)
    requires
        slurs_paired(st.props, st.slur_cnt),
        0 <= i,
        i + 6 <= u32::MAX,
        st.slur_cnt < u32::MAX,
        span_step(st, i).1,
    ensures
        slurs_paired(span_step(st, i).0.props, span_step(st, i).0.slur_cnt),
{
    let next = span_step(st, i).0;
    match st.stream[i] {
        TabElement3::Vibrato | TabElement3::Slide => {
            assert forall|k: u32| props_at(next.props, k).slurs == props_at(st.props, k).slurs by {}
            lemma_other_props_keep_slurs(st.props, next.props, st.slur_cnt);
        },
        TabElement3::Bend | TabElement3::HammerOn | TabElement3::Pull | TabElement3::Release => {
            lemma_new_slur_paired(st.props, st.slur_cnt, tick_before(i), (i + 6) as u32);
        },
        _ => {},
    }
}

/// Span pairing, one slide: right after the step for a slide at `i` the
/// start of the new slide stands one tick before `i` and its stop one tick
/// after, both with the number that the step has taken.
pub proof fn lemma_slide_step_pairs(st: SpanState, i: int)
    requires
        0 <= i,
        i + 6 <= u32::MAX,
    ensures
        slide_step(st, i).props[tick_before(i)].slide == Some(
            Slide { number: slide_step(st, i).slide_cnt, start: true },
        ),
        slide_step(st, i).props[(i + 6) as u32].slide == Some(
            Slide { number: slide_step(st, i).slide_cnt, start: false },
        ),
        tick_before(i) < i + 6,
{
}

/// Span pairing, one vibrato: right after the step for a vibrato at `i`
/// the vibrato starts one tick before `i` and stops one tick after.
pub proof fn lemma_vibrato_step_pairs(st: SpanState, i: int)
    requires
        0 <= i,
        i + 6 <= u32::MAX,
    ensures
        vibrato_step(st, i).props[tick_before(i)].vibrato == Some(Vibrato::Start),
        vibrato_step(st, i).props[(i + 6) as u32].vibrato == Some(Vibrato::Stop),
        tick_before(i) < i + 6,
{
}

} // verus!

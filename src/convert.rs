//! The conversion: one timepoint, then a single left-to-right pass over the notes
//! that quantizes each one and threads chain segments into slides.

use std::collections::HashMap;

use vstd::prelude::*;

use crate::editor::{
    slide_views, EditorMap, EditorMapView, Note, Slide, SlideNote, SlideView, TimedPosition,
    Timepoint, TIMEPOINT_ID,
};
use crate::error::ConvertError;
use crate::game::{GameMap, NoteData, NoteType, NO_SUCCESSOR};
use crate::timing::{beats_per_bar, beats_per_bar_of, offset_of, time_to_offset};

verus! {

broadcast use vstd::std_specs::hash::group_hash_axioms;

/// Where the assembler stands after a prefix of the note list.
pub struct AssemblyState {
    /// Open chains, keyed by the list index that their next segment will hold.
    pub pending: Map<usize, SlideView>,
    /// Closed chains, in the order they closed.
    pub closed: Seq<SlideView>,
    /// One output note per input note so far.
    pub notes: Seq<Note>,
}

/// Nothing open, nothing closed, no notes.
pub open spec fn initial_state() -> AssemblyState {
    AssemblyState { pending: Map::empty(), closed: Seq::empty(), notes: Seq::empty() }
}

/// The timed position of `note` under tempo `bpm`, with identifier `id`.
pub open spec fn timed_position_of(bpm: u16, note: NoteData, id: usize) -> Result<
    TimedPosition,
    ConvertError,
> {
    match offset_of(bpm, note.time_us) {
        Ok(offset) => Ok(
            TimedPosition { id, timepoint: TIMEPOINT_ID, offset, lane: note.lane_id },
        ),
        Err(e) => Err(e),
    }
}

/// The slide that the chain segment at `index` belongs to, with `position` appended:
/// the open chain that expects `index`, or a new one with identifier `fresh_id`.
pub open spec fn joined_slide(
    pending: Map<usize, SlideView>,
    index: usize,
    position: usize,
    fresh_id: usize,
) -> SlideView {
    if pending.contains_key(index) {
        SlideView {
            id: pending[index].id,
            notes: pending[index].notes.push(position),
            flickend: pending[index].flickend,
        }
    } else {
        SlideView { id: fresh_id, notes: seq![position], flickend: false }
    }
}

/// Takes the note at list position `index`, placed at `pos`: taps become single notes,
/// scratches flick notes; a chain segment joins the chain that expects `index` (or
/// opens one with `fresh_id`), which closes where its forward link is the sentinel
/// and otherwise waits for the index that the link names.
pub open spec fn step(
    s: AssemblyState,
    index: usize,
    note: NoteData,
    pos: TimedPosition,
    fresh_id: usize,
) -> AssemblyState {
    if note.note_type.is_tap() {
        AssemblyState { pending: s.pending, closed: s.closed, notes: s.notes.push(Note::Single(pos)) }
    } else if note.note_type.is_scratch() {
        AssemblyState { pending: s.pending, closed: s.closed, notes: s.notes.push(Note::Flick(pos)) }
    } else {
        let slide = joined_slide(s.pending, index, pos.id, fresh_id);
        let notes = s.notes.push(Note::Slide(SlideNote { slide: slide.id, timed: pos }));
        if note.next_id == NO_SUCCESSOR {
            AssemblyState { pending: s.pending.remove(index), closed: s.closed.push(slide), notes }
        } else {
            AssemblyState {
                pending: s.pending.remove(index).insert(note.next_id, slide),
                closed: s.closed,
                notes,
            }
        }
    }
}

/// The assembler after the first `count` notes, note `i` having position identifier
/// `position_ids[i]` and, should it open a chain, slide identifier `slide_ids[i]`;
/// the first note whose offset cannot be rounded ends it with that error.
pub open spec fn assembled(
    bpm: u16,
    notes: Seq<NoteData>,
    position_ids: Seq<usize>,
    slide_ids: Seq<usize>,
    count: nat,
) -> Result<AssemblyState, ConvertError>
    decreases count,
{
    if count == 0 {
        Ok(initial_state())
    } else {
        let i = count - 1;
        match assembled(bpm, notes, position_ids, slide_ids, i as nat) {
            Err(e) => Err(e),
            Ok(s) => match timed_position_of(bpm, notes[i], position_ids[i]) {
                Err(e) => Err(e),
                Ok(pos) => Ok(step(s, i as usize, notes[i], pos, slide_ids[i])),
            },
        }
    }
}

/// The whole conversion with the given identifiers: one timepoint at time 0 with the
/// derived beats per bar (kept to its low eight bits), the closed slides, and the notes.
pub open spec fn conversion(
    bpm: u16,
    bar_lines: Seq<u64>,
    notes: Seq<NoteData>,
    position_ids: Seq<usize>,
    slide_ids: Seq<usize>,
) -> Result<EditorMapView, ConvertError> {
    match beats_per_bar_of(bar_lines, bpm) {
        Err(e) => Err(e),
        Ok(bpb) => match assembled(bpm, notes, position_ids, slide_ids, notes.len()) {
            Err(e) => Err(e),
            Ok(s) => Ok(
                EditorMapView {
                    timepoints: seq![
                        Timepoint { id: TIMEPOINT_ID, time: 0, bpm, bpb: (bpb % 256) as u8 },
                    ],
                    slides: s.closed,
                    notes: s.notes,
                },
            ),
        },
    }
}

/// `r` is the conversion for some choice of one position and one slide identifier
/// per note.
pub open spec fn is_conversion_of(
    r: Result<EditorMapView, ConvertError>,
    bpm: u16,
    bar_lines: Seq<u64>,
    notes: Seq<NoteData>,
) -> bool {
    exists|position_ids: Seq<usize>, slide_ids: Seq<usize>|
        position_ids.len() == notes.len() && slide_ids.len() == notes.len() && r == #[trigger] conversion(
            bpm,
            bar_lines,
            notes,
            position_ids,
            slide_ids,
        )
}

/// The view of a conversion result.
pub open spec fn result_view(r: Result<EditorMap, ConvertError>) -> Result<
    EditorMapView,
    ConvertError,
> {
    match r {
        Ok(m) => Ok(m@),
        Err(e) => Err(e),
    }
}

/// The views of the open chains.
pub open spec fn pending_views(pending: Map<usize, Slide>) -> Map<usize, SlideView> {
    pending.map_values(|s: Slide| s@)
}

/// Once a note fails, the assembler stays failed with that error.
pub proof fn lemma_failure_persists(
    bpm: u16,
    notes: Seq<NoteData>,
    position_ids: Seq<usize>,
    slide_ids: Seq<usize>,
    k: nat,
    m: nat,
)
    requires
        k <= m,
        assembled(bpm, notes, position_ids, slide_ids, k) is Err,
    ensures
        assembled(bpm, notes, position_ids, slide_ids, m) == assembled(
            bpm,
            notes,
            position_ids,
            slide_ids,
            k,
        ),
    decreases m - k,
{
    if k < m {
        lemma_failure_persists(bpm, notes, position_ids, slide_ids, k, (m - 1) as nat);
    }
}

/// The timed position of `note` under tempo `bpm`, with identifier `id`.
pub fn convert_to_timed_position(bpm: u16, note: &NoteData, id: usize) -> (r: Result<
    TimedPosition,
    ConvertError,
>)
    ensures
        r == timed_position_of(bpm, *note, id),
{
    let offset = time_to_offset(bpm, note.time_us)?;
    Ok(TimedPosition { id, timepoint: TIMEPOINT_ID, offset, lane: note.lane_id })
}

/// Converts `map` under tempo `bpm`, giving note `i` the position identifier
/// `position_ids[i]` and, where it opens a chain, the slide identifier `slide_ids[i]`.
pub fn convert_with_ids(
    bpm: u16,
    map: &GameMap,
    position_ids: &Vec<usize>,
    slide_ids: &Vec<usize>,
) -> (r: Result<EditorMap, ConvertError>)
    requires
        position_ids@.len() == map.note_data_list@.len(),
        slide_ids@.len() == map.note_data_list@.len(),
    ensures
        result_view(r) == conversion(
            bpm,
            map.bar_line_list@,
            map.note_data_list@,
            position_ids@,
            slide_ids@,
        ),
{
    let bpb = beats_per_bar(&map.bar_line_list, bpm)?;
    let ghost notes_in = map.note_data_list@;
    let ghost pids = position_ids@;
    let ghost sids = slide_ids@;
    let n = map.note_data_list.len();
    let mut pending: HashMap<usize, Slide> = HashMap::new();
    let mut slides: Vec<Slide> = Vec::new();
    let mut notes: Vec<Note> = Vec::new();
    let mut i: usize = 0;
    assert(pending_views(pending@) =~= Map::empty());
    assert(slide_views(slides@) =~= Seq::empty());
    while i < n
        invariant
            n == notes_in.len(),
            notes_in == map.note_data_list@,
            pids == position_ids@,
            sids == slide_ids@,
            pids.len() == n,
            sids.len() == n,
            i <= n,
            beats_per_bar_of(map.bar_line_list@, bpm) == Ok::<u64, ConvertError>(bpb),
            assembled(bpm, notes_in, pids, sids, i as nat) == Ok::<AssemblyState, ConvertError>(
                AssemblyState {
                    pending: pending_views(pending@),
                    closed: slide_views(slides@),
                    notes: notes@,
                },
            ),
        decreases n - i,
    {
        let note = &map.note_data_list[i];
        let timed = match convert_to_timed_position(bpm, note, position_ids[i]) {
            Ok(t) => t,
            Err(e) => {
                proof {
                    assert(assembled(bpm, notes_in, pids, sids, (i + 1) as nat) == Err::<
                        AssemblyState,
                        ConvertError,
                    >(e));
                    lemma_failure_persists(bpm, notes_in, pids, sids, (i + 1) as nat, n as nat);
                }
                return Err(e);
            },
        };
        let ghost before = AssemblyState {
            pending: pending_views(pending@),
            closed: slide_views(slides@),
            notes: notes@,
        };
        match note.note_type {
            NoteType::Tap1 | NoteType::Tap2 => {
                notes.push(Note::Single(timed));
            },
            NoteType::ScratchRight | NoteType::ScratchLeft => {
                notes.push(Note::Flick(timed));
            },
            _ => {
                let ghost joined = joined_slide(before.pending, i, timed.id, sids[i as int]);
                let slide = match pending.remove(&i) {
                    Some(mut open) => {
                        open.notes.push(timed.id);
                        open
                    },
                    None => {
                        let mut members: Vec<usize> = Vec::new();
                        members.push(timed.id);
                        Slide { id: slide_ids[i], notes: members, flickend: false }
                    },
                };
                assert(slide@.notes =~= joined.notes);
                assert(pending_views(pending@) =~= before.pending.remove(i));
                let slide_id = slide.id;
                if note.next_id == NO_SUCCESSOR {
                    slides.push(slide);
                    assert(slide_views(slides@) =~= before.closed.push(joined));
                } else {
                    pending.insert(note.next_id, slide);
                    assert(pending_views(pending@) =~= before.pending.remove(i).insert(
                        note.next_id,
                        joined,
                    ));
                }
                notes.push(Note::Slide(SlideNote { slide: slide_id, timed }));
            },
        }
        i += 1;
    }
    let mut timepoints: Vec<Timepoint> = Vec::new();
    timepoints.push(Timepoint { id: TIMEPOINT_ID, time: 0, bpm, bpb: (bpb % 256) as u8 });
    let out = EditorMap { timepoints, slides, notes };
    assert(out.timepoints@ =~= seq![
        Timepoint { id: TIMEPOINT_ID, time: 0, bpm, bpb: (bpb % 256) as u8 },
    ]);
    Ok(out)
}

/// Relies on rand::random (thread-local generator): a fresh identifier, of which
/// nothing is known.
#[verifier::external_body]
fn random_id() -> (r: usize) {
    rand::random::<usize>()
}

/// Converts `map` under tempo `bpm`, with randomly drawn identifiers: the result is the
/// conversion for some identifiers, one position and one slide identifier per note.
pub fn convert(bpm: u16, map: GameMap) -> (r: Result<EditorMap, ConvertError>)
    ensures
        is_conversion_of(result_view(r), bpm, map.bar_line_list@, map.note_data_list@),
{
    let n = map.note_data_list.len();
    let mut position_ids: Vec<usize> = Vec::new();
    let mut slide_ids: Vec<usize> = Vec::new();
    let mut i: usize = 0;
    while i < n
        invariant
            n == map.note_data_list@.len(),
            i <= n,
            position_ids@.len() == i,
            slide_ids@.len() == i,
        decreases n - i,
    {
        position_ids.push(random_id());
        slide_ids.push(random_id());
        i += 1;
    }
    let r = convert_with_ids(bpm, &map, &position_ids, &slide_ids);
    assert(position_ids@.len() == map.note_data_list@.len() && slide_ids@.len()
        == map.note_data_list@.len() && result_view(r) == conversion(
        bpm,
        map.bar_line_list@,
        map.note_data_list@,
        position_ids@,
        slide_ids@,
    ));
    r
}

} // verus!

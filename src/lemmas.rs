//! What the assembler guarantees: classification of every note, lists without chains,
//! a single linked chain, and independence of the result's shape from identifiers.

use vstd::prelude::*;

use crate::convert::{
    assembled, conversion, initial_state, is_conversion_of, joined_slide, step, timed_position_of,
    AssemblyState,
};
use crate::editor::{EditorMapView, Note, SlideNote, SlideView, TimedPosition};
use crate::error::ConvertError;
use crate::game::{NoteData, NoteType, NO_SUCCESSOR};
use crate::timing::offset_of;

verus! {

/// `out` is what a note of type `t` at `pos` becomes: a single note for a tap, a flick
/// for a scratch, a slide note at `pos` for a chain segment.
pub open spec fn classified(out: Note, t: NoteType, pos: TimedPosition) -> bool {
    if t.is_tap() {
        out == Note::Single(pos)
    } else if t.is_scratch() {
        out == Note::Flick(pos)
    } else {
        out is Slide && out->Slide_0.timed == pos
    }
}

/// Every note's time gives an offset that rounds.
pub open spec fn all_offsets_round(bpm: u16, notes: Seq<NoteData>) -> bool {
    forall|i: int| 0 <= i < notes.len() ==> (#[trigger] offset_of(bpm, notes[i].time_us)) is Ok
}

/// The assembler succeeds on a prefix whose offsets all round, with one output note per
/// input note, each classified by its type at its own position.
pub proof fn lemma_assembled_notes(
    bpm: u16,
    notes: Seq<NoteData>,
    position_ids: Seq<usize>,
    slide_ids: Seq<usize>,
    k: nat,
)
    requires
        k <= notes.len(),
        position_ids.len() == notes.len(),
        slide_ids.len() == notes.len(),
        all_offsets_round(bpm, notes),
    ensures
        assembled(bpm, notes, position_ids, slide_ids, k) is Ok,
        assembled(bpm, notes, position_ids, slide_ids, k)->Ok_0.notes.len() == k,
        forall|i: int|
            0 <= i < k ==> classified(
                #[trigger] assembled(bpm, notes, position_ids, slide_ids, k)->Ok_0.notes[i],
                notes[i].note_type,
                timed_position_of(bpm, notes[i], position_ids[i])->Ok_0,
            ),
    decreases k,
{
    if k > 0 {
        let i = k - 1;
        lemma_assembled_notes(bpm, notes, position_ids, slide_ids, i as nat);
        assert(offset_of(bpm, notes[i].time_us) is Ok);
        let s = assembled(bpm, notes, position_ids, slide_ids, i as nat)->Ok_0;
        let pos = timed_position_of(bpm, notes[i], position_ids[i])->Ok_0;
        let t = step(s, i as usize, notes[i], pos, slide_ids[i]);
        assert(t.notes.len() == k);
        assert forall|j: int| 0 <= j < k implies classified(
            #[trigger] t.notes[j],
            notes[j].note_type,
            timed_position_of(bpm, notes[j], position_ids[j])->Ok_0,
        ) by {
            if j < i {
                assert(t.notes[j] == s.notes[j]);
            }
        }
    }
}

/// Without chain segments the assembler makes no slides and keeps nothing open.
proof fn lemma_no_segments_prefix(
    bpm: u16,
    notes: Seq<NoteData>,
    position_ids: Seq<usize>,
    slide_ids: Seq<usize>,
    k: nat,
)
    requires
        k <= notes.len(),
        position_ids.len() == notes.len(),
        slide_ids.len() == notes.len(),
        all_offsets_round(bpm, notes),
        forall|i: int| 0 <= i < notes.len() ==> !(#[trigger] notes[i]).note_type.is_segment(),
    ensures
        assembled(bpm, notes, position_ids, slide_ids, k) is Ok,
        assembled(bpm, notes, position_ids, slide_ids, k)->Ok_0.closed.len() == 0,
        assembled(bpm, notes, position_ids, slide_ids, k)->Ok_0.pending == Map::<
            usize,
            SlideView,
        >::empty(),
    decreases k,
{
    if k > 0 {
        lemma_no_segments_prefix(bpm, notes, position_ids, slide_ids, (k - 1) as nat);
        assert(offset_of(bpm, notes[k - 1].time_us) is Ok);
        assert(!notes[k - 1].note_type.is_segment());
    }
}

/// A note list of taps and scratches only gives no slides and one note per input note:
/// a single note for each tap and a flick for each scratch.
pub proof fn lemma_no_segments_no_slides(
    bpm: u16,
    notes: Seq<NoteData>,
    position_ids: Seq<usize>,
    slide_ids: Seq<usize>,
)
    requires
        position_ids.len() == notes.len(),
        slide_ids.len() == notes.len(),
        all_offsets_round(bpm, notes),
        forall|i: int| 0 <= i < notes.len() ==> !(#[trigger] notes[i]).note_type.is_segment(),
    ensures
        assembled(bpm, notes, position_ids, slide_ids, notes.len()) is Ok,
        assembled(bpm, notes, position_ids, slide_ids, notes.len())->Ok_0.closed.len() == 0,
        assembled(bpm, notes, position_ids, slide_ids, notes.len())->Ok_0.notes.len()
            == notes.len(),
        forall|i: int|
            0 <= i < notes.len() ==> {
                let out = #[trigger] assembled(
                    bpm,
                    notes,
                    position_ids,
                    slide_ids,
                    notes.len(),
                )->Ok_0.notes[i];
                &&& notes[i].note_type.is_tap() ==> out is Single
                &&& notes[i].note_type.is_scratch() ==> out is Flick
            },
{
    lemma_no_segments_prefix(bpm, notes, position_ids, slide_ids, notes.len());
    lemma_assembled_notes(bpm, notes, position_ids, slide_ids, notes.len());
}

/// Notes `0..n` form one chain: all are chain segments, each but the last links to the
/// next index, and the last carries the sentinel.
pub open spec fn is_linked_chain(notes: Seq<NoteData>) -> bool {
    &&& notes.len() >= 1
    &&& forall|j: int| 0 <= j < notes.len() ==> (#[trigger] notes[j]).note_type.is_segment()
    &&& forall|j: int| 0 <= j < notes.len() - 1 ==> (#[trigger] notes[j]).next_id == j + 1
    &&& notes[notes.len() - 1].next_id == NO_SUCCESSOR
}

/// The open chain after the first `k` segments of a linked chain.
pub open spec fn chain_pending(
    position_ids: Seq<usize>,
    slide_ids: Seq<usize>,
    k: nat,
) -> Map<usize, SlideView> {
    if k == 0 {
        Map::empty()
    } else {
        map![k as usize => SlideView { id: slide_ids[0], notes: position_ids.take(k as int), flickend: false }]
    }
}

proof fn lemma_chain_prefix(
    bpm: u16,
    notes: Seq<NoteData>,
    position_ids: Seq<usize>,
    slide_ids: Seq<usize>,
    k: nat,
)
    requires
        is_linked_chain(notes),
        k < notes.len(),
        position_ids.len() == notes.len(),
        slide_ids.len() == notes.len(),
        all_offsets_round(bpm, notes),
    ensures
        assembled(bpm, notes, position_ids, slide_ids, k) is Ok,
        assembled(bpm, notes, position_ids, slide_ids, k)->Ok_0.closed.len() == 0,
        assembled(bpm, notes, position_ids, slide_ids, k)->Ok_0.pending == chain_pending(
            position_ids,
            slide_ids,
            k,
        ),
        forall|j: int|
            0 <= j < k ==> {
                let out = #[trigger] assembled(
                    bpm,
                    notes,
                    position_ids,
                    slide_ids,
                    k,
                )->Ok_0.notes[j];
                out is Slide && out->Slide_0.slide == slide_ids[0]
            },
    decreases k,
{
    lemma_assembled_notes(bpm, notes, position_ids, slide_ids, k);
    if k == 0 {
        assert(initial_state().pending =~= chain_pending(position_ids, slide_ids, 0));
    } else {
        let i = (k - 1) as int;
        lemma_chain_prefix(bpm, notes, position_ids, slide_ids, (k - 1) as nat);
        assert(offset_of(bpm, notes[i].time_us) is Ok);
        assert(notes[i].note_type.is_segment());
        assert(notes[i].next_id == k);
        let s = assembled(bpm, notes, position_ids, slide_ids, (k - 1) as nat)->Ok_0;
        let pos = timed_position_of(bpm, notes[i], position_ids[i])->Ok_0;
        let t = step(s, i as usize, notes[i], pos, slide_ids[i]);
        assert(pos.id == position_ids[i]);
        assert(position_ids.take(k as int) =~= position_ids.take(i).push(position_ids[i]));
        let joined = SlideView {
            id: slide_ids[0],
            notes: position_ids.take(k as int),
            flickend: false,
        };
        if i == 0 {
            assert(position_ids.take(1) =~= seq![position_ids[0]]);
            assert(s.pending.remove(0) =~= Map::empty());
        } else {
            assert(s.pending.contains_key(i as usize));
            assert(s.pending.remove(i as usize) =~= Map::empty());
        }
        assert(t.pending =~= Map::<usize, SlideView>::empty().insert(k as usize, joined));
        assert(t.pending =~= chain_pending(position_ids, slide_ids, k));
        assert forall|j: int| 0 <= j < k implies {
            let out = #[trigger] t.notes[j];
            out is Slide && out->Slide_0.slide == slide_ids[0]
        } by {
            if j < i {
                assert(t.notes[j] == s.notes[j]);
            }
        }
    }
}

/// A linked chain of `n` segments gives exactly one slide, whose members are the `n`
/// positions in chain order, and `n` slide notes that all refer to it.
pub proof fn lemma_linked_chain_one_slide(
    bpm: u16,
    notes: Seq<NoteData>,
    position_ids: Seq<usize>,
    slide_ids: Seq<usize>,
)
    requires
        is_linked_chain(notes),
        position_ids.len() == notes.len(),
        slide_ids.len() == notes.len(),
        all_offsets_round(bpm, notes),
    ensures
        ({
            let r = assembled(bpm, notes, position_ids, slide_ids, notes.len());
            &&& r is Ok
            &&& r->Ok_0.closed.len() == 1
            &&& r->Ok_0.closed[0].notes == position_ids
            &&& r->Ok_0.notes.len() == notes.len()
            &&& forall|j: int|
                0 <= j < notes.len() ==> {
                    let out = #[trigger] r->Ok_0.notes[j];
                    out is Slide && out->Slide_0.slide == r->Ok_0.closed[0].id
                }
        }),
{
    let n = notes.len();
    let i = n - 1;
    lemma_chain_prefix(bpm, notes, position_ids, slide_ids, i as nat);
    lemma_assembled_notes(bpm, notes, position_ids, slide_ids, n);
    assert(offset_of(bpm, notes[i].time_us) is Ok);
    assert(notes[i].note_type.is_segment());
    let s = assembled(bpm, notes, position_ids, slide_ids, i as nat)->Ok_0;
    let pos = timed_position_of(bpm, notes[i], position_ids[i])->Ok_0;
    let t = step(s, i as usize, notes[i], pos, slide_ids[i]);
    assert(position_ids.take(n as int) =~= position_ids.take(i as int).push(position_ids[i]));
    assert(position_ids.take(n as int) =~= position_ids);
    assert(t.closed[0].notes =~= position_ids);
    assert(t.closed[0].id == slide_ids[0]);
    assert forall|j: int| 0 <= j < n implies {
        let out = #[trigger] t.notes[j];
        out is Slide && out->Slide_0.slide == t.closed[0].id
    } by {
        if j < i {
            assert(t.notes[j] == s.notes[j]);
        }
    }
}

/// A position with its identifier cleared.
pub open spec fn erased_position(p: TimedPosition) -> TimedPosition {
    TimedPosition { id: 0, timepoint: p.timepoint, offset: p.offset, lane: p.lane }
}

/// A note with its position and slide identifiers cleared.
pub open spec fn erased_note(n: Note) -> Note {
    match n {
        Note::Single(p) => Note::Single(erased_position(p)),
        Note::Slide(sn) => Note::Slide(SlideNote { slide: 0, timed: erased_position(sn.timed) }),
        Note::Flick(p) => Note::Flick(erased_position(p)),
    }
}

/// A slide with its identifier cleared and each member identifier cleared: what is left
/// is its member count and its flick flag.
pub open spec fn erased_slide(s: SlideView) -> SlideView {
    SlideView { id: 0, notes: Seq::new(s.notes.len(), |i: int| 0usize), flickend: s.flickend }
}

pub open spec fn erased_notes(notes: Seq<Note>) -> Seq<Note> {
    notes.map_values(|n: Note| erased_note(n))
}

pub open spec fn erased_slides(slides: Seq<SlideView>) -> Seq<SlideView> {
    slides.map_values(|s: SlideView| erased_slide(s))
}

pub open spec fn erased_pending(pending: Map<usize, SlideView>) -> Map<usize, SlideView> {
    pending.map_values(|s: SlideView| erased_slide(s))
}

pub open spec fn erased_state(s: AssemblyState) -> AssemblyState {
    AssemblyState {
        pending: erased_pending(s.pending),
        closed: erased_slides(s.closed),
        notes: erased_notes(s.notes),
    }
}

pub open spec fn erased_assembly(r: Result<AssemblyState, ConvertError>) -> Result<
    AssemblyState,
    ConvertError,
> {
    match r {
        Ok(s) => Ok(erased_state(s)),
        Err(e) => Err(e),
    }
}

/// The shape of a conversion result: the error, or the chart with every identifier
/// cleared (timepoint, offsets, lanes, classifications and slide member counts stay).
pub open spec fn shape(r: Result<EditorMapView, ConvertError>) -> Result<
    EditorMapView,
    ConvertError,
> {
    match r {
        Ok(m) => Ok(
            EditorMapView {
                timepoints: m.timepoints,
                slides: erased_slides(m.slides),
                notes: erased_notes(m.notes),
            },
        ),
        Err(e) => Err(e),
    }
}

proof fn lemma_step_erasure(
    s1: AssemblyState,
    s2: AssemblyState,
    index: usize,
    note: NoteData,
    pos_a: TimedPosition,
    pos_b: TimedPosition,
    f1: usize,
    f2: usize,
)
    requires
        erased_state(s1) == erased_state(s2),
        erased_position(pos_a) == erased_position(pos_b),
    ensures
        erased_state(step(s1, index, note, pos_a, f1)) == erased_state(step(s2, index, note, pos_b, f2)),
{
    let t1 = step(s1, index, note, pos_a, f1);
    let t2 = step(s2, index, note, pos_b, f2);
    assert forall|k: usize| s1.pending.contains_key(k) <==> #[trigger] s2.pending.contains_key(k) by {
        assert(erased_pending(s1.pending).contains_key(k) == s1.pending.contains_key(k));
        assert(erased_pending(s2.pending).contains_key(k) == s2.pending.contains_key(k));
    }
    assert(s1.pending.dom() =~= s2.pending.dom());
    assert(s1.notes.len() == s2.notes.len()) by {
        assert(erased_notes(s1.notes).len() == erased_notes(s2.notes).len());
    }
    assert(s1.closed.len() == s2.closed.len()) by {
        assert(erased_slides(s1.closed).len() == erased_slides(s2.closed).len());
    }
    if note.note_type.is_segment() {
        let j1 = joined_slide_of(s1, index, pos_a, f1);
        let j2 = joined_slide_of(s2, index, pos_b, f2);
        if s1.pending.contains_key(index) {
            assert(erased_pending(s1.pending)[index] == erased_pending(s2.pending)[index]);
            assert(s1.pending[index].notes.len() == s2.pending[index].notes.len()) by {
                assert(erased_slide(s1.pending[index]).notes.len() == erased_slide(
                    s2.pending[index],
                ).notes.len());
            }
        }
        assert(erased_slide(j1).notes =~= erased_slide(j2).notes);
        assert(erased_slide(j1) == erased_slide(j2));
        assert forall|k: usize| #[trigger] t1.pending.contains_key(k) implies erased_slide(
            t1.pending[k],
        ) == erased_slide(t2.pending[k]) by {
            if note.next_id == NO_SUCCESSOR || k != note.next_id {
                assert(erased_pending(s1.pending)[k] == erased_pending(s2.pending)[k]);
            }
        }
        assert(t1.pending.dom() =~= t2.pending.dom());
        assert(erased_pending(t1.pending) =~= erased_pending(t2.pending));
        assert(erased_slides(t1.closed) =~= erased_slides(t2.closed)) by {
            assert forall|k: int| 0 <= k < s1.closed.len() implies erased_slide(s1.closed[k])
                == erased_slide(#[trigger] s2.closed[k]) by {
                assert(erased_slides(s1.closed)[k] == erased_slides(s2.closed)[k]);
            }
        }
    } else {
        assert(erased_pending(t1.pending) =~= erased_pending(t2.pending));
        assert(erased_slides(t1.closed) =~= erased_slides(t2.closed));
    }
    assert(erased_notes(t1.notes) =~= erased_notes(t2.notes)) by {
        assert forall|k: int| 0 <= k < s1.notes.len() implies erased_note(s1.notes[k])
            == erased_note(#[trigger] s2.notes[k]) by {
            assert(erased_notes(s1.notes)[k] == erased_notes(s2.notes)[k]);
        }
    }
}

/// The slide that a chain segment at `index`, placed at `pos`, joins in state `s`.
pub open spec fn joined_slide_of(s: AssemblyState, index: usize, pos: TimedPosition, fresh_id: usize) -> SlideView {
    joined_slide(s.pending, index, pos.id, fresh_id)
}

/// Two runs of the assembler with different identifiers agree on everything else.
proof fn lemma_assembled_erasure(
    bpm: u16,
    notes: Seq<NoteData>,
    position_ids1: Seq<usize>,
    slide_ids1: Seq<usize>,
    position_ids2: Seq<usize>,
    slide_ids2: Seq<usize>,
    k: nat,
)
    ensures
        erased_assembly(assembled(bpm, notes, position_ids1, slide_ids1, k)) == erased_assembly(
            assembled(bpm, notes, position_ids2, slide_ids2, k),
        ),
    decreases k,
{
    if k > 0 {
        let i = k - 1;
        lemma_assembled_erasure(
            bpm,
            notes,
            position_ids1,
            slide_ids1,
            position_ids2,
            slide_ids2,
            i as nat,
        );
        let r1 = assembled(bpm, notes, position_ids1, slide_ids1, i as nat);
        let r2 = assembled(bpm, notes, position_ids2, slide_ids2, i as nat);
        if r1 is Ok {
            let q1 = timed_position_of(bpm, notes[i], position_ids1[i]);
            let q2 = timed_position_of(bpm, notes[i], position_ids2[i]);
            if q1 is Ok {
                lemma_step_erasure(
                    r1->Ok_0,
                    r2->Ok_0,
                    i as usize,
                    notes[i],
                    q1->Ok_0,
                    q2->Ok_0,
                    slide_ids1[i],
                    slide_ids2[i],
                );
            }
        }
    }
}

/// Converting the same chart under the same tempo twice gives results that differ at
/// most in their identifiers: the same outcome, timepoint, offsets, lanes,
/// classifications and slide member counts.
pub proof fn lemma_conversion_shape_determined(
    r1: Result<EditorMapView, ConvertError>,
    r2: Result<EditorMapView, ConvertError>,
    bpm: u16,
    bar_lines: Seq<u64>,
    notes: Seq<NoteData>,
)
    requires
        is_conversion_of(r1, bpm, bar_lines, notes),
        is_conversion_of(r2, bpm, bar_lines, notes),
    ensures
        shape(r1) == shape(r2),
{
    let (pos_a, s1) = choose|p: Seq<usize>, s: Seq<usize>|
        p.len() == notes.len() && s.len() == notes.len() && r1 == #[trigger] conversion(
            bpm,
            bar_lines,
            notes,
            p,
            s,
        );
    let (pos_b, s2) = choose|p: Seq<usize>, s: Seq<usize>|
        p.len() == notes.len() && s.len() == notes.len() && r2 == #[trigger] conversion(
            bpm,
            bar_lines,
            notes,
            p,
            s,
        );
    lemma_assembled_erasure(bpm, notes, pos_a, s1, pos_b, s2, notes.len());
    let a1 = assembled(bpm, notes, pos_a, s1, notes.len());
    let a2 = assembled(bpm, notes, pos_b, s2, notes.len());
    if a1 is Ok && r1 is Ok {
        assert(erased_state(a1->Ok_0) == erased_state(a2->Ok_0));
    }
}

} // verus!

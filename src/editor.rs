//! The editor chart that the conversion produces.

use vstd::prelude::*;

verus! {

/// The identifier of the one timepoint that every position refers to.
pub const TIMEPOINT_ID: usize = 905;

/// A tempo anchor: tempo and beats per bar from a start time on.
#[derive(Debug, Clone, Copy, PartialEq, Eq, Structural)]
pub struct Timepoint {
    pub id: usize,
    pub time: usize,
    pub bpm: u16,
    pub bpb: u8,
}

/// A note placed in time: a tick offset from a timepoint, on a lane.
#[derive(Debug, Clone, Copy, PartialEq, Eq, Structural)]
pub struct TimedPosition {
    pub id: usize,
    pub timepoint: usize,
    pub offset: usize,
    pub lane: u8,
}

/// A note that belongs to a slide group.
#[derive(Debug, Clone, Copy, PartialEq, Eq, Structural)]
pub struct SlideNote {
    pub slide: usize,
    pub timed: TimedPosition,
}

/// An editor note.
#[derive(Debug, Clone, Copy, PartialEq, Eq, Structural)]
pub enum Note {
    Single(TimedPosition),
    Slide(SlideNote),
    Flick(TimedPosition),
}

/// A slide group: the ids of its member positions, in chain order.
#[derive(Debug)]
pub struct Slide {
    pub id: usize,
    pub notes: Vec<usize>,
    pub flickend: bool,
}

/// What a [`Slide`] holds, with its members as a sequence.
pub struct SlideView {
    pub id: usize,
    pub notes: Seq<usize>,
    pub flickend: bool,
}

impl View for Slide {
    type V = SlideView;

    open spec fn view(&self) -> SlideView {
        SlideView { id: self.id, notes: self.notes@, flickend: self.flickend }
    }
}

/// The views of a sequence of slides.
pub open spec fn slide_views(slides: Seq<Slide>) -> Seq<SlideView> {
    slides.map_values(|s: Slide| s@)
}

/// A whole editor chart.
#[derive(Debug)]
pub struct EditorMap {
    pub timepoints: Vec<Timepoint>,
    pub slides: Vec<Slide>,
    pub notes: Vec<Note>,
}

/// What an [`EditorMap`] holds, as sequences.
pub struct EditorMapView {
    pub timepoints: Seq<Timepoint>,
    pub slides: Seq<SlideView>,
    pub notes: Seq<Note>,
}

impl View for EditorMap {
    type V = EditorMapView;

    open spec fn view(&self) -> EditorMapView {
        EditorMapView {
            timepoints: self.timepoints@,
            slides: slide_views(self.slides@),
            notes: self.notes@,
        }
    }
}

} // verus!

//! The source chart, as the conversion reads it.

use vstd::prelude::*;

verus! {

/// The kind of a note event.
#[derive(Debug, Clone, Copy, PartialEq, Eq, Structural)]
pub enum NoteType {
    Tap1,
    Tap2,
    Slide,
    LongStart,
    LongEnd,
    ScratchRight,
    ScratchLeft,
    StopStart,
    StopEnd,
}

impl NoteType {
    /// A tap: becomes a single note.
    pub open spec fn is_tap(self) -> bool {
        self is Tap1 || self is Tap2
    }

    /// A scratch: becomes a flick note.
    pub open spec fn is_scratch(self) -> bool {
        self is ScratchRight || self is ScratchLeft
    }

    /// One segment of a slide, hold or stop chain.
    pub open spec fn is_segment(self) -> bool {
        !self.is_tap() && !self.is_scratch()
    }
}

/// A scroll-speed change. Carried through; the conversion does not read it.
#[derive(Debug, Clone, Copy, PartialEq, Eq, Structural)]
pub struct SoflanData {
    /// Absolute time, in microseconds.
    pub time_us: u64,
    pub time_scale: i8,
    pub left_right: u8,
}

/// One note event of the source chart.
#[derive(Debug, Clone, Copy, PartialEq, Eq, Structural)]
pub struct NoteData {
    pub note_type: NoteType,
    pub lane_id: u8,
    /// Absolute time, in microseconds.
    pub time_us: u64,
    /// List index of the next segment of this note's chain, or [`NO_SUCCESSOR`].
    pub next_id: usize,
    pub direction: i8,
    pub effect_type: u8,
    pub effect_parameter: u8,
}

/// The forward link that closes a chain.
pub const NO_SUCCESSOR: usize = 0;

/// A whole source chart.
#[derive(Debug)]
pub struct GameMap {
    /// Absolute bar-line times, in microseconds.
    pub bar_line_list: Vec<u64>,
    pub soflan_data_list: Vec<SoflanData>,
    pub note_data_list: Vec<NoteData>,
}

} // verus!

use chart_convert::convert::{convert, convert_to_timed_position, convert_with_ids};
use chart_convert::editor::{EditorMap, Note, SlideNote, TimedPosition, TIMEPOINT_ID};
use chart_convert::error::{ConvertError, ValueContext};
use chart_convert::game::{GameMap, NoteData, NoteType, SoflanData, NO_SUCCESSOR};
use chart_convert::timing::{beats_per_bar, check_round, time_to_offset, MICROS_PER_MINUTE};

fn note(note_type: NoteType, lane_id: u8, time_us: u64, next_id: usize) -> NoteData {
    NoteData {
        note_type,
        lane_id,
        time_us,
        next_id,
        direction: 0,
        effect_type: 0,
        effect_parameter: 0,
    }
}

fn chart(notes: Vec<NoteData>) -> GameMap {
    GameMap {
        bar_line_list: vec![0, 3_000_000],
        soflan_data_list: vec![SoflanData { time_us: 0, time_scale: 1, left_right: 0 }],
        note_data_list: notes,
    }
}

fn sequential_ids(n: usize, start: usize) -> Vec<usize> {
    (0..n).map(|i| start + i).collect()
}

fn run(bpm: u16, notes: Vec<NoteData>) -> Result<EditorMap, ConvertError> {
    let n = notes.len();
    convert_with_ids(bpm, &chart(notes), &sequential_ids(n, 100), &sequential_ids(n, 200))
}

fn position(id: usize, offset: usize, lane: u8) -> TimedPosition {
    TimedPosition { id, timepoint: TIMEPOINT_ID, offset, lane }
}

#[test]
fn check_round_exact_and_near_values() {
    assert_eq!(check_round(7, 7), Some(1));
    assert_eq!(check_round(0, 5), Some(0));
    assert_eq!(check_round(101, 100), Some(1));
    assert_eq!(check_round(199, 100), Some(2));
    assert_eq!(check_round(102, 100), None);
    assert_eq!(check_round(150, 100), None);
    assert_eq!(check_round(u128::MAX, 1), Some(u128::MAX));
}

#[test]
fn two_second_bar_at_120_has_four_beats() {
    assert_eq!(beats_per_bar(&vec![0, 2_000_000], 120), Ok(4));
    let game = GameMap {
        bar_line_list: vec![0, 2_000_000],
        soflan_data_list: vec![],
        note_data_list: vec![],
    };
    let map = convert_with_ids(120, &game, &vec![], &vec![]).unwrap();
    assert_eq!(map.timepoints.len(), 1);
    let tp = map.timepoints[0];
    assert_eq!(tp.id, TIMEPOINT_ID);
    assert_eq!(tp.time, 0);
    assert_eq!(tp.bpm, 120);
    assert_eq!(tp.bpb, 4);
}

#[test]
fn bar_length_is_difference_of_first_two_bar_lines() {
    assert_eq!(beats_per_bar(&vec![1_000_000, 4_000_000, 9_000_000], 60), Ok(3));
}

#[test]
fn decreasing_bar_lines_give_zero_beats() {
    assert_eq!(beats_per_bar(&vec![2_000_000, 0], 120), Ok(0));
}

#[test]
fn fewer_than_two_bar_lines_is_too_short() {
    assert_eq!(beats_per_bar(&vec![], 120), Err(ConvertError::ChartTooShort));
    assert_eq!(beats_per_bar(&vec![0], 120), Err(ConvertError::ChartTooShort));
    let map = GameMap {
        bar_line_list: vec![0],
        soflan_data_list: vec![],
        note_data_list: vec![note(NoteType::Tap1, 0, 0, 0)],
    };
    assert!(matches!(convert(120, map), Err(ConvertError::ChartTooShort)));
}

#[test]
fn unroundable_beats_per_bar() {
    // 1.01 s at 120 bpm is 2.02 beats.
    assert_eq!(
        beats_per_bar(&vec![0, 1_010_000], 120),
        Err(ConvertError::UnroundableValue {
            numerator: 1_010_000 * 120,
            denominator: MICROS_PER_MINUTE,
            context: ValueContext::BeatsPerBar,
        })
    );
}

#[test]
fn beats_per_bar_within_tolerance() {
    // 2.005 s at 120 bpm is 4.01 beats.
    assert_eq!(beats_per_bar(&vec![0, 2_005_000], 120), Ok(4));
}

#[test]
fn tap_at_half_second_at_120_is_single_at_48() {
    assert_eq!(time_to_offset(120, 500_000), Ok(48));
    let map = run(120, vec![note(NoteType::Tap1, 3, 500_000, NO_SUCCESSOR)]).unwrap();
    assert!(map.slides.is_empty());
    assert_eq!(map.notes, vec![Note::Single(position(100, 48, 3))]);
}

#[test]
fn time_off_the_tick_grid_is_unroundable() {
    // 100 bpm, 0.31 s: 24.8 ticks.
    let expected = ConvertError::UnroundableValue {
        numerator: 100 * 310_000 * 48,
        denominator: MICROS_PER_MINUTE,
        context: ValueContext::Time { time_us: 310_000 },
    };
    assert_eq!(time_to_offset(100, 310_000), Err(expected));
    assert_eq!(run(100, vec![note(NoteType::Tap2, 0, 310_000, 0)]).unwrap_err(), expected);
}

#[test]
fn offset_tolerance_edges() {
    // At 125 bpm one tick is 10 ms.
    assert_eq!(time_to_offset(125, 10_100), Ok(1));
    assert_eq!(time_to_offset(125, 19_900), Ok(2));
    assert!(time_to_offset(125, 10_101).is_err());
    assert!(time_to_offset(125, 19_899).is_err());
    assert_eq!(time_to_offset(125, 0), Ok(0));
}

#[test]
fn largest_inputs_do_not_overflow() {
    assert_eq!(time_to_offset(u16::MAX, 18_446_744_073_708_750_000), Ok(967_125_898_296_402_345));
    assert_eq!(
        time_to_offset(u16::MAX, u64::MAX),
        Err(ConvertError::UnroundableValue {
            numerator: 65_535 * (u64::MAX as i128) * 48,
            denominator: MICROS_PER_MINUTE,
            context: ValueContext::Time { time_us: u64::MAX },
        })
    );
    assert_eq!(time_to_offset(u16::MAX, 0), Ok(0));
    assert_eq!(
        beats_per_bar(&vec![0, u64::MAX], u16::MAX),
        Err(ConvertError::UnroundableValue {
            numerator: (u64::MAX as i128) * 65_535,
            denominator: MICROS_PER_MINUTE,
            context: ValueContext::BeatsPerBar,
        })
    );
}

#[test]
fn timed_position_carries_id_lane_and_timepoint() {
    let n = note(NoteType::ScratchLeft, 5, 1_000_000, 0);
    assert_eq!(convert_to_timed_position(120, &n, 42), Ok(position(42, 96, 5)));
}

#[test]
fn taps_and_scratches_make_no_slides() {
    let notes = vec![
        note(NoteType::Tap1, 0, 0, 0),
        note(NoteType::ScratchRight, 1, 250_000, 0),
        note(NoteType::Tap2, 2, 500_000, 0),
        note(NoteType::ScratchLeft, 3, 750_000, 0),
    ];
    let map = run(120, notes).unwrap();
    assert!(map.slides.is_empty());
    assert_eq!(
        map.notes,
        vec![
            Note::Single(position(100, 0, 0)),
            Note::Flick(position(101, 24, 1)),
            Note::Single(position(102, 48, 2)),
            Note::Flick(position(103, 72, 3)),
        ]
    );
}

#[test]
fn linked_chain_makes_one_slide() {
    let notes = vec![
        note(NoteType::LongStart, 1, 0, 1),
        note(NoteType::Slide, 2, 250_000, 2),
        note(NoteType::LongEnd, 3, 500_000, NO_SUCCESSOR),
    ];
    let map = run(120, notes).unwrap();
    assert_eq!(map.slides.len(), 1);
    assert_eq!(map.slides[0].id, 200);
    assert_eq!(map.slides[0].notes, vec![100, 101, 102]);
    assert!(!map.slides[0].flickend);
    assert_eq!(
        map.notes,
        vec![
            Note::Slide(SlideNote { slide: 200, timed: position(100, 0, 1) }),
            Note::Slide(SlideNote { slide: 200, timed: position(101, 24, 2) }),
            Note::Slide(SlideNote { slide: 200, timed: position(102, 48, 3) }),
        ]
    );
}

#[test]
fn single_segment_closes_at_once() {
    let map = run(120, vec![note(NoteType::StopStart, 0, 0, NO_SUCCESSOR)]).unwrap();
    assert_eq!(map.slides.len(), 1);
    assert_eq!(map.slides[0].notes, vec![100]);
    assert_eq!(map.notes, vec![Note::Slide(SlideNote { slide: 200, timed: position(100, 0, 0) })]);
}

#[test]
fn chain_skips_unrelated_notes_and_interleaves() {
    let notes = vec![
        note(NoteType::StopStart, 0, 0, 3),
        note(NoteType::Slide, 1, 0, 2),
        note(NoteType::Slide, 1, 250_000, NO_SUCCESSOR),
        note(NoteType::StopEnd, 0, 500_000, NO_SUCCESSOR),
        note(NoteType::Tap1, 4, 500_000, NO_SUCCESSOR),
    ];
    let map = run(120, notes).unwrap();
    assert_eq!(map.slides.len(), 2);
    assert_eq!(map.slides[0].id, 201);
    assert_eq!(map.slides[0].notes, vec![101, 102]);
    assert_eq!(map.slides[1].id, 200);
    assert_eq!(map.slides[1].notes, vec![100, 103]);
    assert_eq!(map.notes.len(), 5);
    assert_eq!(map.notes[3], Note::Slide(SlideNote { slide: 200, timed: position(103, 48, 0) }));
    assert_eq!(map.notes[4], Note::Single(position(104, 48, 4)));
}

#[test]
fn unclosed_chain_yields_no_slide() {
    let notes = vec![note(NoteType::LongStart, 0, 0, 5), note(NoteType::Tap1, 0, 0, 0)];
    let map = run(120, notes).unwrap();
    assert!(map.slides.is_empty());
    assert_eq!(map.notes[0], Note::Slide(SlideNote { slide: 200, timed: position(100, 0, 0) }));
}

#[test]
fn failure_anywhere_aborts_conversion() {
    let notes = vec![
        note(NoteType::LongStart, 0, 0, 1),
        note(NoteType::LongEnd, 0, 310_000, NO_SUCCESSOR),
    ];
    assert_eq!(
        run(100, notes).unwrap_err(),
        ConvertError::UnroundableValue {
            numerator: 100 * 310_000 * 48,
            denominator: MICROS_PER_MINUTE,
            context: ValueContext::Time { time_us: 310_000 },
        }
    );
}

fn shape(map: &EditorMap) -> (Vec<(u8, usize, u8)>, Vec<usize>) {
    let notes = map
        .notes
        .iter()
        .map(|n| match n {
            Note::Single(p) => (0, p.offset, p.lane),
            Note::Slide(s) => (1, s.timed.offset, s.timed.lane),
            Note::Flick(p) => (2, p.offset, p.lane),
        })
        .collect();
    let sizes = map.slides.iter().map(|s| s.notes.len()).collect();
    (notes, sizes)
}

#[test]
fn repeated_conversion_differs_only_in_identifiers() {
    let notes = vec![
        note(NoteType::LongStart, 1, 0, 2),
        note(NoteType::Tap1, 2, 250_000, 0),
        note(NoteType::LongEnd, 1, 500_000, NO_SUCCESSOR),
        note(NoteType::ScratchRight, 0, 750_000, 0),
    ];
    let a = convert(120, chart(notes.clone())).unwrap();
    let b = convert(120, chart(notes)).unwrap();
    assert_eq!(shape(&a), shape(&b));
    assert_eq!(a.timepoints, b.timepoints);
    assert_eq!(shape(&a), (vec![(1, 0, 1), (0, 24, 2), (1, 48, 1), (2, 72, 0)], vec![2]));
    match (a.notes[0], a.notes[2]) {
        (Note::Slide(first), Note::Slide(last)) => {
            assert_eq!(first.slide, a.slides[0].id);
            assert_eq!(last.slide, a.slides[0].id);
            assert_eq!(a.slides[0].notes, vec![first.timed.id, last.timed.id]);
        }
        _ => panic!("chain segments must become slide notes"),
    }
}

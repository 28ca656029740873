use mtb::llpoint::LLPoint;
use mtb::overlay::{line_offsets, segment_starts};

fn a() -> LLPoint {
    LLPoint::new_point(451_000_000, 76_000_000)
}

fn b() -> LLPoint {
    LLPoint::new_point(452_000_000, 77_000_000)
}

#[test]
fn no_segment_across_a_break() {
    let all = vec![a(), LLPoint::new_break("next.gpx"), b()];
    assert_eq!(segment_starts(&all), Vec::<usize>::new());
}

#[test]
fn consecutive_positions_are_joined() {
    let all = vec![a(), b(), a(), b()];
    assert_eq!(segment_starts(&all), vec![0, 1, 2]);
}

#[test]
fn two_tracks_are_drawn_apart() {
    let all = vec![
        LLPoint::new_break("one.gpx"),
        a(),
        b(),
        a(),
        LLPoint::new_break("two.gpx"),
        b(),
        a(),
    ];
    assert_eq!(segment_starts(&all), vec![1, 2, 5]);
}

#[test]
fn short_sequences_have_no_segment() {
    assert_eq!(segment_starts(&[]), Vec::<usize>::new());
    assert_eq!(segment_starts(&[a()]), Vec::<usize>::new());
    assert_eq!(
        segment_starts(&[LLPoint::new_break("x"), LLPoint::new_break("y")]),
        Vec::<usize>::new()
    );
}

#[test]
fn break_at_either_end_joins_nothing() {
    let all = vec![LLPoint::new_break("one.gpx"), a(), LLPoint::new_break("two.gpx")];
    assert_eq!(segment_starts(&all), Vec::<usize>::new());
    let all = vec![a(), b(), LLPoint::new_break("two.gpx")];
    assert_eq!(segment_starts(&all), vec![0]);
}

#[test]
fn offsets_fill_a_square() {
    let offsets = line_offsets(4);
    assert_eq!(
        offsets,
        vec![
            (-2, -2),
            (-2, -1),
            (-2, 0),
            (-2, 1),
            (-1, -2),
            (-1, -1),
            (-1, 0),
            (-1, 1),
            (0, -2),
            (0, -1),
            (0, 0),
            (0, 1),
            (1, -2),
            (1, -1),
            (1, 0),
            (1, 1),
        ]
    );
}

#[test]
fn default_width_gives_sixty_four_copies() {
    let offsets = line_offsets(8);
    assert_eq!(offsets.len(), 64);
    assert_eq!(offsets[0], (-4, -4));
    assert_eq!(offsets[8], (-3, -4));
    assert_eq!(offsets[63], (3, 3));
}

#[test]
fn odd_width_rounds_down() {
    assert_eq!(line_offsets(3), vec![(-1, -1), (-1, 0), (0, -1), (0, 0)]);
    assert_eq!(line_offsets(2), vec![(-1, -1), (-1, 0), (0, -1), (0, 0)]);
}

#[test]
fn width_below_two_draws_nothing() {
    assert_eq!(line_offsets(0), Vec::<(i32, i32)>::new());
    assert_eq!(line_offsets(1), Vec::<(i32, i32)>::new());
}

#[test]
fn widest_line() {
    let offsets = line_offsets(255);
    assert_eq!(offsets.len(), 254 * 254);
    assert_eq!(offsets[0], (-127, -127));
    assert_eq!(offsets[254 * 254 - 1], (126, 126));
}

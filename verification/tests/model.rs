//! Pins and the boards they hang on.

use pinz::geometry::{WorldPoint, GRAIN};
use pinz::model::{Board, Color, Note, ParseColorError, CASCADE_X, CASCADE_Y, NOTE_H, NOTE_W};

/// A distance in world units, in the grains the board counts in.
fn grains(units: f64) -> i128 {
    (units * GRAIN as f64).round() as i128
}

fn note_at(x: i128, y: i128, z: u32, title: &str) -> Note {
    Note {
        id: 1,
        title: title.into(),
        body: String::new(),
        x,
        y,
        z,
        color: Color::Yellow,
    }
}

#[test]
fn note_contains_respects_its_edges() {
    let n = note_at(grains(10.0), grains(20.0), 0, "t");
    assert!(
        n.contains(WorldPoint { x: grains(10.0), y: grains(20.0) }),
        "top-left is inclusive"
    );
    assert!(n.contains(WorldPoint {
        x: grains(10.0) + NOTE_W - grains(0.1),
        y: grains(20.0)
    }));
    assert!(
        !n.contains(WorldPoint {
            x: grains(10.0) + NOTE_W,
            y: grains(20.0)
        }),
        "right edge is exclusive"
    );
    assert!(!n.contains(WorldPoint { x: grains(9.0), y: grains(20.0) }));
}

#[test]
fn note_at_returns_the_topmost_note() {
    let mut b = Board::new("t");
    b.notes.push(note_at(0, 0, 0, "under"));
    b.notes.push(note_at(0, 0, 5, "over"));
    assert_eq!(
        b.note_at(WorldPoint { x: grains(1.0), y: grains(1.0) }).unwrap().title,
        "over"
    );
    assert!(b.note_at(WorldPoint { x: grains(9999.0), y: grains(0.0) }).is_none());
}

#[test]
fn color_round_trips_through_str() {
    for c in Color::ALL {
        assert_eq!(Color::parse(c.as_str()), Ok(c));
    }
    assert_eq!(Color::parse("chartreuse"), Err(ParseColorError));
}

fn board_with(positions: &[(i128, i128)]) -> Board {
    let mut b = Board::new("t");
    for (i, (x, y)) in positions.iter().enumerate() {
        let mut n = note_at(*x, *y, i as u32, "pin");
        n.id = i as u64 + 1;
        b.notes.push(n);
    }
    b
}

#[test]
fn free_spot_leaves_a_clear_position_alone() {
    let b = board_with(&[(0, 0)]);
    let want = WorldPoint { x: grains(900.0), y: grains(900.0) };
    assert_eq!(b.free_spot(want, None), want);
}

#[test]
fn free_spot_on_an_empty_board_is_the_wanted_spot() {
    let b = Board::new("empty");
    let want = WorldPoint { x: grains(12.0), y: grains(34.0) };
    assert_eq!(b.free_spot(want, None), want);
}

#[test]
fn free_spot_cascades_past_a_pin_already_there() {
    let b = board_with(&[(0, 0)]);
    assert_eq!(
        b.free_spot(WorldPoint { x: grains(0.0), y: grains(0.0) }, None),
        WorldPoint {
            x: CASCADE_X,
            y: CASCADE_Y
        }
    );
}

#[test]
fn free_spot_cascades_past_a_whole_pile() {
    let b = board_with(&[
        (0, 0),
        (CASCADE_X, CASCADE_Y),
        (CASCADE_X * 2, CASCADE_Y * 2),
    ]);
    assert_eq!(
        b.free_spot(WorldPoint { x: grains(0.0), y: grains(0.0) }, None),
        WorldPoint {
            x: CASCADE_X * 3,
            y: CASCADE_Y * 3
        }
    );
}

#[test]
fn free_spot_ignores_the_pin_being_moved() {
    let b = board_with(&[(grains(50.0), grains(60.0))]);
    let here = WorldPoint { x: grains(50.0), y: grains(60.0) };
    assert_eq!(
        b.free_spot(here, Some(1)),
        here,
        "a pin dropped back where it already was must not run from itself"
    );
}

/// Positions are written to disk rounded to whole units, so a near miss is
/// an exact overlap after the next reload.
#[test]
fn free_spot_treats_a_near_miss_as_taken() {
    let b = board_with(&[(0, 0)]);
    let want = WorldPoint { x: grains(0.4), y: grains(0.4) };
    assert_eq!(
        b.free_spot(want, None),
        WorldPoint {
            x: grains(0.4) + CASCADE_X,
            y: grains(0.4) + CASCADE_Y
        }
    );
}

#[test]
fn bounds_cover_every_pin_on_the_board() {
    let b = board_with(&[(0, 0), (grains(-40.0), grains(25.0))]);
    let (min, max) = b.bounds().expect("a board with pins has bounds");
    assert_eq!(min, WorldPoint { x: grains(-40.0), y: grains(0.0) });
    assert_eq!(
        max,
        WorldPoint {
            x: NOTE_W,
            y: grains(25.0) + NOTE_H
        }
    );
}

#[test]
fn an_empty_board_has_no_bounds_and_is_centered_on_the_origin() {
    let b = Board::new("empty");
    assert_eq!(b.bounds(), None);
    assert_eq!(b.content_center(), WorldPoint { x: grains(0.0), y: grains(0.0) });
}

#[test]
fn content_center_is_the_middle_of_the_bounding_box() {
    let b = board_with(&[(0, 0), (NOTE_W, NOTE_H)]);
    assert_eq!(
        b.content_center(),
        WorldPoint {
            x: NOTE_W,
            y: NOTE_H
        }
    );
}

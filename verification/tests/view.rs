//! The board seen through a terminal: cells, and what lies under them.

use pinz::geometry::{Camera, WorldPoint, ZoomLevel, GRAIN};
use pinz::view::{CellRect, Rect, View, CELL_PARTS};

/// A distance in world units, in the grains the board counts in.
fn grains(units: f64) -> i128 {
    (units * GRAIN as f64).round() as i128
}

fn view(zoom: ZoomLevel) -> View {
    let cam = Camera {
        origin: WorldPoint { x: grains(0.0), y: grains(0.0) },
        zoom,
    };
    View::new(
        cam,
        Rect {
            x: 0,
            y: 0,
            width: 120,
            height: 40,
        },
    )
}

#[test]
fn cell_and_world_round_trip() {
    let v = view(ZoomLevel::Titles);
    let w = WorldPoint { x: grains(321.0), y: grains(210.0) };
    let (cx, cy) = v.cell_of(w);
    let back = v.world_of(cx, cy);
    assert_eq!(back, w);
}

#[test]
fn world_at_accounts_for_viewport_offset() {
    let cam = Camera {
        origin: WorldPoint { x: grains(0.0), y: grains(0.0) },
        zoom: ZoomLevel::Document,
    };
    // Same camera, viewport shifted down/right: the same world point must
    // land at a correspondingly shifted terminal cell.
    let a = View::new(
        cam,
        Rect {
            x: 0,
            y: 0,
            width: 80,
            height: 24,
        },
    );
    let b = View::new(
        cam,
        Rect {
            x: 10,
            y: 5,
            width: 80,
            height: 24,
        },
    );
    let w = WorldPoint { x: grains(50.0), y: grains(60.0) };
    let (ax, ay) = a.cell_of(w);
    let (ax, ay) = (ax / CELL_PARTS, ay / CELL_PARTS);
    assert!((b.world_at((ax as u16) + 10, (ay as u16) + 5).x - w.x).abs() < GRAIN);
}

#[test]
fn note_at_origin_is_visible_but_far_note_clips_out() {
    let v = view(ZoomLevel::Document);
    assert!(v.note_rect(WorldPoint { x: grains(0.0), y: grains(0.0) }).is_some());
    assert!(v
        .note_rect(WorldPoint {
            x: grains(99_000.0),
            y: grains(99_000.0)
        })
        .is_none());
}

#[test]
fn a_note_off_the_left_edge_keeps_its_full_width() {
    let v = view(ZoomLevel::Document);
    let on_screen = v.note_cells(WorldPoint { x: grains(400.0), y: grains(200.0) });
    // Same note, dragged well past the left edge of the viewport.
    let hanging = v.note_cells(WorldPoint {
        x: grains(-120.0),
        y: grains(200.0),
    });

    assert!(hanging.x < 0, "expected a negative origin, got {hanging:?}");
    assert_eq!(
        hanging.width, on_screen.width,
        "footprint must not shrink at the edge - that is what re-wraps the text"
    );

    // Only the clip is smaller, and it starts at the viewport edge.
    let visible = hanging.clip(v.area).unwrap();
    assert_eq!(visible.x, 0);
    assert!(visible.width < hanging.width);
}

#[test]
fn a_note_fully_outside_the_viewport_clips_to_nothing() {
    let area = Rect {
        x: 0,
        y: 0,
        width: 120,
        height: 40,
    };
    let cells = CellRect {
        x: -50,
        y: 0,
        width: 40,
        height: 15,
    };
    assert!(cells.clip(area).is_none());
}

#[test]
fn note_looks_wider_than_tall_in_cells() {
    // 200x150 world (ratio 1.33). In cells the aspect squash makes it read
    // much wider than tall, which is what keeps it square on screen.
    let v = view(ZoomLevel::Document);
    let (w, h) = v.note_size();
    assert!(w > h * 2, "expected a wide cell footprint, got {w}x{h}");
}

//! Zoom levels and the projection between the world and the screen.

use pinz::geometry::{Camera, Projection, WorldPoint, ZoomLevel, GRAIN};

/// A distance in world units, in the grains the board counts in.
fn grains(units: f64) -> i128 {
    (units * GRAIN as f64).round() as i128
}

#[test]
fn projection_round_trips_across_cameras_and_media() {
    let cameras = [
        Camera {
            origin: WorldPoint { x: grains(0.0), y: grains(0.0) },
            zoom: ZoomLevel::Document,
        },
        Camera {
            origin: WorldPoint { x: grains(137.5), y: grains(-42.0) },
            zoom: ZoomLevel::Titles,
        },
        Camera {
            origin: WorldPoint { x: grains(900.0), y: grains(610.0) },
            zoom: ZoomLevel::Cluster,
        },
    ];
    let w = WorldPoint { x: grains(321.0), y: grains(654.0) };
    for cam in cameras {
        for aspect in [100, 50] {
            let p = Projection::new(cam, aspect);
            let back = p.to_world(p.to_screen(w));
            assert!(
                back == w,
                "round trip failed for {cam:?} aspect {aspect}: got {back:?}"
            );
        }
    }
}

#[test]
fn zoom_steps_and_clamps_at_both_ends() {
    assert_eq!(ZoomLevel::Cluster.zoomed_out(), ZoomLevel::Cluster);
    assert_eq!(ZoomLevel::Document.zoomed_in(), ZoomLevel::Document);
    assert_eq!(ZoomLevel::Titles.zoomed_in(), ZoomLevel::Preview);
    assert_eq!(ZoomLevel::Titles.zoomed_out(), ZoomLevel::Cluster);
}

#[test]
fn scale_is_monotonic_with_zoom() {
    let mut prev = 0;
    for z in ZoomLevel::ALL {
        assert!(z.scale() > prev, "{z:?} broke monotonic scale");
        prev = z.scale();
    }
}

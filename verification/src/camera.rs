//! Where the camera goes: it follows what it is told to as far as the pins of the
//! board let it, and no further.

use crate::geometry::{WorldPoint, ZoomLevel};
use crate::model::{max_x, max_y, min_x, min_y, BoardView, NoteView};
use crate::state::{board_within, held, near, pin_limit, AppState, Glide};
use crate::view::{pitch_x, pitch_y, Rect};
use vstd::prelude::*;

verus! {

/// A view whose left edge is at `x` is nowhere past the pins: it starts no more
/// than 80 units left of some pin and ends no more than 80 units right of some
/// pin. A board with no pins has no edge.
pub open spec fn free_x(notes: Seq<NoteView>, width: int, x: int) -> bool {
    notes.len() == 0 || {
        &&& exists|i: int| 0 <= i < notes.len() && (#[trigger] notes[i]).x - 80 * 7140 <= x
        &&& exists|i: int|
            0 <= i < notes.len() && x + width <= (#[trigger] notes[i]).x + 200 * 7140 + 80 * 7140
    }
}

/// The same, from top to bottom.
pub open spec fn free_y(notes: Seq<NoteView>, height: int, y: int) -> bool {
    notes.len() == 0 || {
        &&& exists|i: int| 0 <= i < notes.len() && (#[trigger] notes[i]).y - 80 * 7140 <= y
        &&& exists|i: int|
            0 <= i < notes.len() && y + height <= (#[trigger] notes[i]).y + 150 * 7140 + 80 * 7140
    }
}

/// How wide a viewport is in the world.
pub open spec fn span_x(area: Rect, zoom: ZoomLevel) -> int {
    area.width * pitch_x(zoom)
}

/// How tall a viewport is in the world.
pub open spec fn span_y(area: Rect, zoom: ZoomLevel) -> int {
    area.height * pitch_y(zoom)
}

/// A corner is where some pin is, and no pin is past it.
pub proof fn law_bounds_are_some_pins(notes: Seq<NoteView>)
    requires
        notes.len() > 0,
    ensures
        exists|i: int| 0 <= i < notes.len() && (#[trigger] notes[i]).x == min_x(notes),
        exists|i: int| 0 <= i < notes.len() && (#[trigger] notes[i]).y == min_y(notes),
        exists|i: int| 0 <= i < notes.len() && (#[trigger] notes[i]).x + 200 * 7140 == max_x(notes),
        exists|i: int| 0 <= i < notes.len() && (#[trigger] notes[i]).y + 150 * 7140 == max_y(notes),
        forall|i: int| 0 <= i < notes.len() ==> min_x(notes) <= (#[trigger] notes[i]).x,
        forall|i: int| 0 <= i < notes.len() ==> min_y(notes) <= (#[trigger] notes[i]).y,
        forall|i: int| 0 <= i < notes.len() ==> (#[trigger] notes[i]).x + 200 * 7140 <= max_x(notes),
        forall|i: int| 0 <= i < notes.len() ==> (#[trigger] notes[i]).y + 150 * 7140 <= max_y(notes),
    decreases notes.len(),
{
    let last = notes.len() - 1;
    assert(notes[last] == notes.last());
    if notes.len() > 1 {
        let before = notes.drop_last();
        law_bounds_are_some_pins(before);
        let (a, b, c, d) = (
            choose|i: int| 0 <= i < before.len() && (#[trigger] before[i]).x == min_x(before),
            choose|i: int| 0 <= i < before.len() && (#[trigger] before[i]).y == min_y(before),
            choose|i: int|
                0 <= i < before.len() && (#[trigger] before[i]).x + 200 * 7140 == max_x(before),
            choose|i: int|
                0 <= i < before.len() && (#[trigger] before[i]).y + 150 * 7140 == max_y(before),
        );
        assert(notes[a] == before[a] && notes[b] == before[b] && notes[c] == before[c] && notes[d]
            == before[d]);
        assert forall|i: int| 0 <= i < notes.len() implies min_x(notes) <= (#[trigger] notes[i]).x
            && min_y(notes) <= notes[i].y && notes[i].x + 200 * 7140 <= max_x(notes) && notes[i].y
            + 150 * 7140 <= max_y(notes) by {
            if i < last {
                assert(notes[i] == before[i]);
            }
        }
    } else {
        assert(notes[0].x == min_x(notes));
    }
}

/// The camera goes where it is sent wherever the pins let it, on each axis by
/// itself; and where they do not it stops at the edge they make: no further left
/// than the leftmost pin and the margin, and no further right than the rightmost,
/// unless the whole board is narrower than the view.
pub proof fn law_the_camera_goes_where_it_may(b: BoardView, area: Rect, zoom: ZoomLevel, o: WorldPoint)
    requires
        board_within(b, 3 * pin_limit()),
    ensures
        ({
            let h = held(b, area, zoom, o);
            let (w, t) = (span_x(area, zoom), span_y(area, zoom));
            &&& free_x(b.notes, w, o.x as int) ==> h.x == o.x
            &&& free_y(b.notes, t, o.y as int) ==> h.y == o.y
            &&& free_x(b.notes, w, h.x as int) || forall|i: int|
                0 <= i < b.notes.len() ==> h.x <= (#[trigger] b.notes[i]).x - 80 * 7140
            &&& free_y(b.notes, t, h.y as int) || forall|i: int|
                0 <= i < b.notes.len() ==> h.y <= (#[trigger] b.notes[i]).y - 80 * 7140
            &&& b.notes.len() > 0 ==> {
                &&& exists|i: int|
                    0 <= i < b.notes.len() && (#[trigger] b.notes[i]).x - 80 * 7140 <= h.x
                &&& exists|i: int|
                    0 <= i < b.notes.len() && (#[trigger] b.notes[i]).y - 80 * 7140 <= h.y
            }
            &&& h.x > o.x ==> forall|i: int|
                0 <= i < b.notes.len() ==> h.x <= (#[trigger] b.notes[i]).x - 80 * 7140
            &&& h.y > o.y ==> forall|i: int|
                0 <= i < b.notes.len() ==> h.y <= (#[trigger] b.notes[i]).y - 80 * 7140
            &&& h.x < o.x ==> forall|i: int|
                0 <= i < b.notes.len() ==> (#[trigger] b.notes[i]).x + 200 * 7140 + 80 * 7140 <= h.x
                    + w
            &&& h.y < o.y ==> forall|i: int|
                0 <= i < b.notes.len() ==> (#[trigger] b.notes[i]).y + 150 * 7140 + 80 * 7140 <= h.y
                    + t
        }),
{
    reveal(held);
    let notes = b.notes;
    crate::app::lemma_span(area.width as int, zoom);
    crate::app::lemma_span(area.height as int, zoom);
    if notes.len() > 0 {
        crate::app::lemma_board_fits(b, 3 * pin_limit());
        law_bounds_are_some_pins(notes);
    }
}

/// A pin in the middle of a viewport has as much of the view on either side of it.
pub open spec fn in_the_middle(n: NoteView, area: Rect, zoom: ZoomLevel, o: WorldPoint) -> bool {
    &&& 2 * (n.x - o.x) + 200 * 7140 == span_x(area, zoom)
    &&& 2 * (n.y - o.y) + 150 * 7140 == span_y(area, zoom)
}

pub proof fn lemma_halves(area: Rect, zoom: ZoomLevel)
    ensures
        2 * crate::state::half_w(area, zoom) == span_x(area, zoom),
        2 * crate::state::half_h(area, zoom) == span_y(area, zoom),
        0 <= span_x(area, zoom) <= 65_535 * 148_750,
        0 <= span_y(area, zoom) <= 65_535 * 297_500,
{
    crate::app::lemma_span(area.width as int, zoom);
    crate::app::lemma_span(area.height as int, zoom);
    let (px, py) = (pitch_x(zoom), pitch_y(zoom));
    crate::view::lemma_pitch(zoom);
    let (w, h) = (area.width as int, area.height as int);
    assert(2 * (w * (px / 2)) == w * px) by (nonlinear_arith)
        requires
            px % 2 == 0,
    ;
    assert(2 * (h * (py / 2)) == h * py) by (nonlinear_arith)
        requires
            py % 2 == 0,
    ;
}

/// Centering on a pin sends the camera where the pin is in the middle of the
/// view, wherever the pins let it go; the target jumps there at once, and what is
/// on screen sets out for it from where it was.
pub proof fn law_centering_puts_a_pin_in_the_middle(s: AppState, id: u64)
    requires
        s.safe(),
        s.note(id) is Some,
    ensures
        ({
            let t = s.center_on_note(id);
            let n = s.note(id)->0;
            let (w, h) = (span_x(s.viewport, s.camera.zoom), span_y(s.viewport, s.camera.zoom));
            &&& t.camera.zoom == s.camera.zoom
            &&& t.boards == s.boards
            &&& exists|o: WorldPoint|
                {
                    &&& #[trigger] in_the_middle(n, s.viewport, s.camera.zoom, o)
                    &&& free_x(s.notes(), w, o.x as int) ==> t.camera.origin.x == o.x
                    &&& free_y(s.notes(), h, o.y as int) ==> t.camera.origin.y == o.y
                }
            &&& t.glide matches Some(g) ==> g.from == s.shown().origin && g.elapsed == 0
            &&& t.glide is None ==> t.camera.origin == s.shown().origin
        }),
{
    reveal(AppState::center_on_note);
    lemma_halves(s.viewport, s.camera.zoom);
    crate::app::lemma_find_from(s.notes(), id, 0);
    let n = s.note(id)->0;
    let o = s.centered_origin(id)->0;
    assert(board_within(s.boards[s.active as int], 3 * pin_limit()));
    assert(near(n.position(), 3 * pin_limit()));
    assert(in_the_middle(n, s.viewport, s.camera.zoom, o));
    law_the_camera_goes_where_it_may(s.board(), s.viewport, s.camera.zoom, o);
}

/// Bringing a pin into view moves nothing when all of it is in view already, and
/// otherwise centers on it.
pub proof fn law_only_a_pin_out_of_view_moves_the_camera(s: AppState, id: u64)
    requires
        s.note(id) is Some,
    ensures
        ({
            let n = s.note(id)->0;
            let o = s.camera.origin;
            let seen = o.x <= n.x && o.y <= n.y && n.x + 200 * 7140 <= o.x + span_x(
                s.viewport,
                s.camera.zoom,
            ) && n.y + 150 * 7140 <= o.y + span_y(s.viewport, s.camera.zoom);
            &&& seen ==> s.bring_into_view(id) == s
            &&& !seen ==> s.bring_into_view(id) == s.center_on_note(id)
        }),
{
    reveal(AppState::bring_into_view);
}

/// Panning by cells moves the camera by just as many, wherever the pins let it,
/// and at once.
pub proof fn law_panning_moves_by_cells(s: AppState, dx: int, dy: int)
    requires
        s.safe(),
        -100 <= dx <= 100,
        -100 <= dy <= 100,
    ensures
        ({
            let t = s.pan_cells(dx, dy);
            let (w, h) = (span_x(s.viewport, s.camera.zoom), span_y(s.viewport, s.camera.zoom));
            let x = s.camera.origin.x + dx * pitch_x(s.camera.zoom);
            let y = s.camera.origin.y + dy * pitch_y(s.camera.zoom);
            &&& free_x(s.notes(), w, x) ==> t.camera.origin.x == x
            &&& free_y(s.notes(), h, y) ==> t.camera.origin.y == y
            &&& t == (AppState { glide: None, camera: t.camera, ..s })
            &&& t.camera.zoom == s.camera.zoom
        }),
{
    reveal(AppState::pan_cells);
    let z = s.camera.zoom;
    let (px, py) = (pitch_x(z), pitch_y(z));
    crate::view::lemma_pitch(z);
    assert(-14_875_000 <= dx * px <= 14_875_000) by (nonlinear_arith)
        requires
            -100 <= dx <= 100,
            0 <= px <= 148_750,
    ;
    assert(-29_750_000 <= dy * py <= 29_750_000) by (nonlinear_arith)
        requires
            -100 <= dy <= 100,
            0 <= py <= 297_500,
    ;
    let o = WorldPoint {
        x: (s.camera.origin.x + dx * px) as i128,
        y: (s.camera.origin.y + dy * py) as i128,
    };
    assert(board_within(s.boards[s.active as int], 3 * pin_limit()));
    law_the_camera_goes_where_it_may(s.board(), s.viewport, z, o);
}

/// A zoom step goes to the next level in or out, of which there is none between,
/// and at the last stays where it is.
pub proof fn law_a_zoom_step_is_one_level(s: AppState)
    ensures
        ({
            let z = s.camera.zoom;
            let (closer, wider) = (s.next_zoom(true), s.next_zoom(false));
            &&& closer == z <==> z == ZoomLevel::Document
            &&& wider == z <==> z == ZoomLevel::Cluster
            &&& closer != z ==> pitch_x(closer) < pitch_x(z)
            &&& wider != z ==> pitch_x(z) < pitch_x(wider)
            &&& forall|other: ZoomLevel| !(pitch_x(closer) < #[trigger] pitch_x(other) < pitch_x(z))
            &&& forall|other: ZoomLevel| !(pitch_x(z) < #[trigger] pitch_x(other) < pitch_x(wider))
        }),
{
}

/// A zoom step over a cell keeps the point of the board under it there, on each
/// axis on which the pins let the camera go, and cuts a glide short.
pub proof fn law_zooming_keeps_the_point_under_the_cell(
    s: AppState,
    zoom_in: bool,
    col: u16,
    row: u16,
)
    requires
        s.safe(),
    ensures
        ({
            let t = s.zoom_at(zoom_in, col, row);
            let (z, u) = (s.camera.zoom, s.next_zoom(zoom_in));
            let (c, r) = (col - s.viewport.x, row - s.viewport.y);
            // Where the origin has to be for the point to stay.
            let x = s.camera.origin.x + c * pitch_x(z) - c * pitch_x(u);
            let y = s.camera.origin.y + r * pitch_y(z) - r * pitch_y(u);
            &&& t.camera.zoom == u
            &&& t.boards == s.boards
            &&& u == z ==> t == s
            &&& u != z ==> t.glide is None
            &&& u != z && free_x(s.notes(), span_x(s.viewport, u), x) ==> t.camera.origin.x + c
                * pitch_x(u) == s.camera.origin.x + c * pitch_x(z)
            &&& u != z && free_y(s.notes(), span_y(s.viewport, u), y) ==> t.camera.origin.y + r
                * pitch_y(u) == s.camera.origin.y + r * pitch_y(z)
        }),
{
    reveal(AppState::zoom_at);
    let (z, u) = (s.camera.zoom, s.next_zoom(zoom_in));
    let (c, r) = (col - s.viewport.x, row - s.viewport.y);
    lemma_cells_in_grains(c, r, z);
    lemma_cells_in_grains(c, r, u);
    let o = WorldPoint {
        x: (s.camera.origin.x + c * pitch_x(z) - c * pitch_x(u)) as i128,
        y: (s.camera.origin.y + r * pitch_y(z) - r * pitch_y(u)) as i128,
    };
    assert(board_within(s.boards[s.active as int], 3 * pin_limit()));
    law_the_camera_goes_where_it_may(s.board(), s.viewport, u, o);
}

pub proof fn lemma_cells_in_grains(cols: int, rows: int, z: ZoomLevel)
    requires
        -65_535 <= cols <= 65_535,
        -65_535 <= rows <= 65_535,
    ensures
        -65_535 * 148_750 <= cols * pitch_x(z) <= 65_535 * 148_750,
        -65_535 * 297_500 <= rows * pitch_y(z) <= 65_535 * 297_500,
{
    let (px, py) = (pitch_x(z), pitch_y(z));
    crate::view::lemma_pitch(z);
    assert(-65_535 * 148_750 <= cols * px <= 65_535 * 148_750) by (nonlinear_arith)
        requires
            -65_535 <= cols <= 65_535,
            0 <= px <= 148_750,
    ;
    assert(-65_535 * 297_500 <= rows * py <= 65_535 * 297_500) by (nonlinear_arith)
        requires
            -65_535 <= rows <= 65_535,
            0 <= py <= 297_500,
    ;
}

/// Zooming by key is about the selected pin, which it leaves in the middle of the
/// view wherever the pins let the camera go, and with none selected about the
/// middle of the view.
pub proof fn law_zooming_by_key_is_about_the_selected_pin(s: AppState, zoom_in: bool)
    requires
        s.safe(),
    ensures
        ({
            let t = s.zoom_at_center(zoom_in);
            let u = s.next_zoom(zoom_in);
            let (w, h) = (span_x(s.viewport, u), span_y(s.viewport, u));
            &&& t.camera.zoom == u
            &&& t.boards == s.boards
            &&& t.selected == s.selected
            &&& s.selected is None ==> t == s.zoom_at(
                zoom_in,
                (s.viewport.x + s.viewport.width / 2) as u16,
                (s.viewport.y + s.viewport.height / 2) as u16,
            )
            &&& (s.selected matches Some(id) && s.note(id) is Some) && u != s.camera.zoom ==> {
                &&& t.glide is None
                &&& exists|o: WorldPoint|
                    {
                        &&& #[trigger] in_the_middle(s.note(s.selected->0)->0, s.viewport, u, o)
                        &&& free_x(s.notes(), w, o.x as int) ==> t.camera.origin.x == o.x
                        &&& free_y(s.notes(), h, o.y as int) ==> t.camera.origin.y == o.y
                    }
            }
        }),
{
    reveal(AppState::zoom_at_center);
    reveal(AppState::zoom_onto_note);
    reveal(AppState::zoom_at);
    let u = s.next_zoom(zoom_in);
    assert(board_within(s.boards[s.active as int], 3 * pin_limit()));
    if let Some(id) = s.selected {
        crate::app::lemma_find_from(s.notes(), id, 0);
        if let Some(n) = s.note(id) {
            lemma_halves(s.viewport, u);
            assert(near(n.position(), 3 * pin_limit()));
            let at = AppState {
                glide: None,
                camera: crate::geometry::Camera { zoom: u, ..s.camera },
                ..s
            };
            assert(at.note(id) == s.note(id));
            let o = at.centered_origin(id)->0;
            assert(in_the_middle(n, s.viewport, u, o));
            law_the_camera_goes_where_it_may(s.board(), s.viewport, u, o);
        }
    }
}

/// A board seen for the first time is centered on its pins: as much of the view
/// is left of the leftmost pin as right of the rightmost, to the grain, wherever
/// the pins let the camera go.
pub proof fn law_a_board_opens_on_its_pins(s: AppState, area: Rect)
    requires
        s.safe(),
        !s.centered,
        area.width > 0,
        area.height > 0,
        s.notes().len() > 0,
    ensures
        ({
            let t = s.set_viewport(area);
            let z = s.camera.zoom;
            let (w, h) = (span_x(area, z), span_y(area, z));
            let (x0, x1) = (min_x(s.notes()), max_x(s.notes()));
            let (y0, y1) = (min_y(s.notes()), max_y(s.notes()));
            let o = t.camera.origin;
            &&& t.centered && t.viewport == area && t.glide is None && t.boards == s.boards
            &&& t.camera.zoom == z
            &&& free_x(s.notes(), w, (x0 + x1) / 2 - w / 2) ==> -1 <= (o.x - x0) + (o.x + w - x1)
                <= 1
            &&& free_y(s.notes(), h, (y0 + y1) / 2 - h / 2) ==> -1 <= (o.y - y0) + (o.y + h - y1)
                <= 1
        }),
{
    let z = s.camera.zoom;
    lemma_halves(area, z);
    assert(board_within(s.boards[s.active as int], 3 * pin_limit()));
    crate::app::lemma_board_fits(s.board(), 3 * pin_limit());
    law_bounds_are_some_pins(s.notes());
    let c = s.board().content_center();
    let o = WorldPoint {
        x: (c.0 - crate::state::half_w(area, z)) as i128,
        y: (c.1 - crate::state::half_h(area, z)) as i128,
    };
    law_the_camera_goes_where_it_may(s.board(), area, z, o);
}

/// Once a board has been centered, a new size of the viewport leaves the camera
/// alone.
pub proof fn law_a_resize_leaves_the_camera(s: AppState, area: Rect)
    requires
        s.centered,
    ensures
        s.set_viewport(area) == (AppState { viewport: area, ..s }),
{
}

/// A glide is on its way for 140 milliseconds: what is on screen starts where it
/// set out, and is where it is going once the time is up.
pub proof fn law_a_glide_arrives(s: AppState, g: Glide, dt: u64)
    requires
        s.glide == Some(g),
        g.elapsed < 140_000_000,
    ensures
        g.elapsed + dt >= 140_000_000 ==> s.tick(dt).shown() == s.camera,
        g.elapsed + dt < 140_000_000 ==> s.tick(dt).glide == Some(
            Glide { from: g.from, elapsed: (g.elapsed + dt) as u64 },
        ),
        g.elapsed == 0 ==> s.shown().origin == g.from,
        s.tick(dt).camera == s.camera,
{
    assert(14_000int * 14_000 * 14_000 == 2_744_000_000_000);
    let dx = s.camera.origin.x - g.from.x;
    let dy = s.camera.origin.y - g.from.y;
    assert(dx * 0 == 0 && dy * 0 == 0) by (nonlinear_arith);
}

} // verus!

//! The renderer's projection spine.
//!
//! [`crate::geometry`] owns the pure world/screen math ([`Projection`]); this
//! wraps it for the terminal medium. Two things the core deliberately leaves to
//! a renderer live here:
//!
//! - **cell aspect** - terminal cells are ~twice as tall as wide, so a
//!   world-square note must be squashed vertically to look square ([`CELL_ASPECT`]).
//! - **display unit** - the core's zoom scales are tuned as *ratios*; their
//!   absolute values are pixel-sized. One world unit at document zoom would be a
//!   whole cell, making a 200-wide note 200 columns across. [`CELL_UNIT`] is the
//!   single scalar that rescales the whole ladder to terminal proportions. It
//!   multiplies x and y equally, so it never disturbs the aspect correction the
//!   core already applied to y.
//!
//! Everything downstream - hit-testing, panning, note rects - goes through
//! [`View`], so the inverse ([`View::world_at`]) stays exactly consistent with
//! the forward projection.

use crate::geometry::{
    floor_div, on_map, Camera, Projection, ScreenPoint, WorldPoint, ZoomLevel, MAP_EDGE,
};
use crate::model::{NOTE_H, NOTE_W};
use vstd::prelude::*;

verus! {

/// `cell_width / cell_height` for a terminal, in hundredths: a text cell is
/// roughly half as wide as tall. Square-pixel media would use 100.
pub const CELL_ASPECT: i128 = 50;

/// Hundredths of a cell per world unit at document zoom, on top of the core's
/// ladder. Chosen so a note (200x150 world) is a comfortable ~40x15 cells fully
/// zoomed in and a small block when zoomed out.
pub const CELL_UNIT: i128 = 20;

/// Parts in one terminal cell: five screen units, at [`CELL_UNIT`].
pub const CELL_PARTS: i128 = 357_000_000;

/// No note on the map is as many cells away as this.
pub const FAR_CELL: i128 = 1_000_000_000_000_000_000_000_000_000;

/// A rectangle of terminal cells.
#[derive(Debug, Clone, Copy, PartialEq, Eq, Structural)]
pub struct Rect {
    pub x: u16,
    pub y: u16,
    pub width: u16,
    pub height: u16,
}

impl Default for Rect {
    fn default() -> (r: Rect)
        ensures
            r == (Rect { x: 0, y: 0, width: 0, height: 0 }),
    {
        Rect { x: 0, y: 0, width: 0, height: 0 }
    }
}

impl Rect {
    /// Whether a cell is inside: left and top edges inclusive, right and bottom
    /// exclusive. An edge past the last column or row there can be stops there.
    pub open spec fn holds(self, col: u16, row: u16) -> bool {
        &&& self.x <= col < self.x + self.width && col < u16::MAX
        &&& self.y <= row < self.y + self.height && row < u16::MAX
    }

    pub fn contains(&self, col: u16, row: u16) -> (r: bool)
        ensures
            r == self.holds(col, row),
    {
        let right: u16 = self.x.saturating_add(self.width);
        let bottom: u16 = self.y.saturating_add(self.height);
        col >= self.x && col < right && row >= self.y && row < bottom
    }

    /// Whether every cell of the rectangle has a column and a row.
    pub open spec fn fits(self) -> bool {
        self.x + self.width <= u16::MAX && self.y + self.height <= u16::MAX
    }
}

/// Whole cells, in parts of a cell.
pub open spec fn parts(cells: int) -> int {
    cells * 357_000_000
}

/// Parts of a cell rounded to the nearest whole cell, halves away from zero.
pub open spec fn rounded(n: int) -> int {
    if n >= 0 {
        (2 * n + 357_000_000) / 714_000_000
    } else {
        -((357_000_000 - 2 * n) / 714_000_000)
    }
}

/// Parts of a cell rounded to whole cells.
fn round_cells(n: i128) -> (r: i128)
    requires
        -0x2000_0000_0000_0000_0000_0000_0000_0000 < n
            < 0x2000_0000_0000_0000_0000_0000_0000_0000,
    ensures
        r == rounded(n as int),
{
    if n >= 0 {
        floor_div(2 * n + CELL_PARTS, 2 * CELL_PARTS)
    } else {
        -floor_div(CELL_PARTS - 2 * n, 2 * CELL_PARTS)
    }
}

/// The width of a cell in grains at a zoom level.
pub open spec fn pitch_x(z: ZoomLevel) -> int {
    match z {
        ZoomLevel::Cluster => 148_750,
        ZoomLevel::Titles => 85_000,
        ZoomLevel::Preview => 52_500,
        ZoomLevel::Document => 35_700,
    }
}

/// The height of a cell in grains at a zoom level: twice its width.
pub open spec fn pitch_y(z: ZoomLevel) -> int {
    2 * pitch_x(z)
}

/// A cell is a whole number of grains at every zoom level, and so is half a
/// cell.
pub proof fn lemma_pitch(z: ZoomLevel)
    ensures
        pitch_x(z) * (z.percent() * 100) == 357_000_000,
        pitch_y(z) * (z.percent() * 50) == 357_000_000,
        pitch_x(z) % 2 == 0,
        35_700 <= pitch_x(z) <= 148_750,
{
    match z {
        ZoomLevel::Cluster => {
            assert(148_750 * 2400 == 357_000_000 && 297_500 * 1200 == 357_000_000);
        },
        ZoomLevel::Titles => {
            assert(85_000 * 4200 == 357_000_000 && 170_000 * 2100 == 357_000_000);
        },
        ZoomLevel::Preview => {
            assert(52_500 * 6800 == 357_000_000 && 105_000 * 3400 == 357_000_000);
        },
        ZoomLevel::Document => {
            assert(35_700 * 10_000 == 357_000_000 && 71_400 * 5000 == 357_000_000);
        },
    }
}

/// The width and height of a cell, in grains.
pub fn pitch(z: ZoomLevel) -> (p: (i128, i128))
    ensures
        p.0 == pitch_x(z),
        p.1 == pitch_y(z),
{
    let sx: i128 = z.scale() * 100;
    let sy: i128 = z.scale() * CELL_ASPECT;
    proof {
        lemma_pitch(z);
        vstd::arithmetic::div_mod::lemma_div_multiples_vanish(pitch_x(z), sx as int);
        vstd::arithmetic::div_mod::lemma_div_multiples_vanish(pitch_y(z), sy as int);
        assert(sx * pitch_x(z) == pitch_x(z) * sx) by (nonlinear_arith);
        assert(sy * pitch_y(z) == pitch_y(z) * sy) by (nonlinear_arith);
    }
    (floor_div(CELL_PARTS, sx), floor_div(CELL_PARTS, sy))
}

/// A camera bound to a concrete viewport rectangle, ready to convert between
/// world coordinates and terminal cells.
#[derive(Debug, Clone, Copy, PartialEq, Eq, Structural)]
pub struct View {
    pub proj: Projection,
    /// The viewport in terminal coordinates; cell offsets are relative to its
    /// top-left corner.
    pub area: Rect,
}

/// The world point under an absolute terminal cell.
pub open spec fn world_under(cam: Camera, area: Rect, col: int, row: int) -> (int, int) {
    (
        cam.origin.x + (col - area.x) * pitch_x(cam.zoom),
        cam.origin.y + (row - area.y) * pitch_y(cam.zoom),
    )
}

/// Where a note's left edge falls, in parts of a cell from the terminal's left.
pub open spec fn left_edge(cam: Camera, area: Rect, x: int) -> int {
    parts(area.x as int) + (x - cam.origin.x) * (cam.zoom.percent() * 100)
}

/// Where a note's top edge falls, in parts of a cell from the terminal's top.
pub open spec fn top_edge(cam: Camera, area: Rect, y: int) -> int {
    parts(area.y as int) + (y - cam.origin.y) * (cam.zoom.percent() * 50)
}

/// A note's width on screen, in parts of a cell.
pub open spec fn note_parts_x(z: ZoomLevel) -> int {
    1_428_000 * (z.percent() * 100)
}

/// A note's height on screen, in parts of a cell.
pub open spec fn note_parts_y(z: ZoomLevel) -> int {
    1_071_000 * (z.percent() * 50)
}

/// The cells a note at `p` covers, unclipped: each edge is rounded on its own.
pub open spec fn cells_of(cam: Camera, area: Rect, p: WorldPoint) -> CellRect {
    let x0 = left_edge(cam, area, p.x as int);
    let y0 = top_edge(cam, area, p.y as int);
    CellRect {
        x: rounded(x0) as i128,
        y: rounded(y0) as i128,
        width: (rounded(x0 + note_parts_x(cam.zoom)) - rounded(x0)) as u16,
        height: (rounded(y0 + note_parts_y(cam.zoom)) - rounded(y0)) as u16,
    }
}

/// Rounding an edge and the edge a note further on gives between nothing and a
/// little more than a note.
proof fn lemma_rounded_span(n: int, w: int)
    requires
        0 <= w <= parts(40),
    ensures
        0 <= rounded(n + w) - rounded(n) <= 41,
{
}

proof fn lemma_edge_range(d: int, s: int, a: int)
    requires
        -2 * MAP_EDGE <= d <= 2 * MAP_EDGE,
        0 <= s <= 10_000,
        0 <= a <= 65_535,
    ensures
        -0x10_0000_0000_0000_0000_0000_0000_0000 < d * s,
        parts(a) + d * s < 0x10_0000_0000_0000_0000_0000_0000_0000,
        -FAR_CELL < rounded(parts(a) + d * s) < FAR_CELL,
{
    let far: int = 2 * MAP_EDGE;
    assert(d * s <= far * 10_000) by (nonlinear_arith)
        requires
            d <= far,
            0 <= far,
            0 <= s <= 10_000,
    ;
    assert(-(far * 10_000) <= d * s) by (nonlinear_arith)
        requires
            -far <= d,
            0 <= far,
            0 <= s <= 10_000,
    ;
}

impl View {
    pub fn new(camera: Camera, area: Rect) -> (v: Self)
        ensures
            v.proj == (Projection { camera, cell_aspect: CELL_ASPECT }),
            v.area == area,
    {
        View { proj: Projection::new(camera, CELL_ASPECT), area }
    }

    /// A view made for the terminal.
    pub open spec fn wf(self) -> bool {
        self.proj.cell_aspect == CELL_ASPECT
    }

    /// Parts of a cell per grain along each axis at the current zoom. Handy for
    /// turning a screen-space drag (in cells) back into a world delta.
    pub fn scale(&self) -> (s: (i128, i128))
        ensures
            s.0 == self.proj.camera.zoom.percent() * 100,
            s.1 == self.proj.camera.zoom.percent() * 50,
    {
        let s: i128 = self.proj.camera.zoom.scale();
        (s * 100, s * CELL_ASPECT)
    }

    /// World point -> cell offset from the viewport's top-left, in parts of a
    /// cell.
    pub fn cell_of(&self, w: WorldPoint) -> (c: (i128, i128))
        requires
            self.wf(),
            on_map(w),
            on_map(self.proj.camera.origin),
        ensures
            (c.0 as int, c.1 as int) == self.proj.screen_of(w),
    {
        let s = self.proj.to_screen(w);
        (s.x, s.y)
    }

    /// Cell offset from the viewport's top-left, in parts of a cell -> world
    /// point. The inverse of [`View::cell_of`].
    pub fn world_of(&self, cx: i128, cy: i128) -> (w: WorldPoint)
        requires
            self.wf(),
            i128::MIN <= self.proj.world_under(cx as int, cy as int).0 <= i128::MAX,
            i128::MIN <= self.proj.world_under(cx as int, cy as int).1 <= i128::MAX,
        ensures
            (w.x as int, w.y as int) == self.proj.world_under(cx as int, cy as int),
    {
        self.proj.to_world(ScreenPoint { x: cx, y: cy })
    }

    /// Absolute terminal cell (as a mouse reports positions) -> world point.
    /// This is what turns a click into "which note did I grab".
    pub fn world_at(&self, col: u16, row: u16) -> (w: WorldPoint)
        requires
            self.wf(),
            i128::MIN <= world_under(self.proj.camera, self.area, col as int, row as int).0
                <= i128::MAX,
            i128::MIN <= world_under(self.proj.camera, self.area, col as int, row as int).1
                <= i128::MAX,
        ensures
            (w.x as int, w.y as int) == world_under(
                self.proj.camera,
                self.area,
                col as int,
                row as int,
            ),
    {
        let cx: i128 = (col as i128 - self.area.x as i128) * CELL_PARTS;
        let cy: i128 = (row as i128 - self.area.y as i128) * CELL_PARTS;
        proof {
            let z = self.proj.camera.zoom;
            lemma_pitch(z);
            lemma_whole_cells(col - self.area.x, pitch_x(z), z.percent() * 100);
            lemma_whole_cells(row - self.area.y, pitch_y(z), z.percent() * 50);
        }
        self.world_of(cx, cy)
    }

    /// A note's on-screen size at the current zoom, in parts of a cell.
    pub fn note_size(&self) -> (s: (i128, i128))
        requires
            self.wf(),
        ensures
            s.0 == note_parts_x(self.proj.camera.zoom),
            s.1 == note_parts_y(self.proj.camera.zoom),
    {
        self.proj.scale_size(NOTE_W, NOTE_H)
    }

    /// The note's full terminal footprint, unclipped - the top-left may sit
    /// outside the viewport, or left of it entirely. This is the rect a note's
    /// *contents* are laid out in, so the layout doesn't change as the note
    /// slides past an edge.
    pub fn note_cells(&self, top_left: WorldPoint) -> (r: CellRect)
        requires
            self.wf(),
            on_map(top_left),
            on_map(self.proj.camera.origin),
        ensures
            r == cells_of(self.proj.camera, self.area, top_left),
            r.width <= 41,
            r.height <= 16,
            -FAR_CELL < r.x < FAR_CELL,
            -FAR_CELL < r.y < FAR_CELL,
    {
        let (cx, cy) = self.cell_of(top_left);
        let (w, h) = self.note_size();
        proof {
            let cam = self.proj.camera;
            let dx = top_left.x - cam.origin.x;
            let dy = top_left.y - cam.origin.y;
            lemma_edge_range(dx, cam.zoom.percent() * 100, self.area.x as int);
            lemma_edge_range(dy, cam.zoom.percent() * 50, self.area.y as int);
            lemma_rounded_span(parts(self.area.x as int) + cx, w as int);
            lemma_rounded_height(parts(self.area.y as int) + cy, h as int);
        }
        let x0: i128 = self.area.x as i128 * CELL_PARTS + cx;
        let y0: i128 = self.area.y as i128 * CELL_PARTS + cy;
        let left: i128 = round_cells(x0);
        let top: i128 = round_cells(y0);
        let right: i128 = round_cells(x0 + w);
        let bottom: i128 = round_cells(y0 + h);
        CellRect {
            x: left,
            y: top,
            width: (right - left) as u16,
            height: (bottom - top) as u16,
        }
    }

    /// The terminal rect a note occupies, clipped to the viewport. `None` when
    /// the note is fully off-screen. For anything with contents, prefer
    /// [`View::note_cells`] and clip at paint time instead.
    pub fn note_rect(&self, top_left: WorldPoint) -> (r: Option<Rect>)
        requires
            self.wf(),
            on_map(top_left),
            on_map(self.proj.camera.origin),
            self.area.fits(),
        ensures
            r == cells_of(self.proj.camera, self.area, top_left).clipped(self.area),
    {
        self.note_cells(top_left).clip(self.area)
    }
}

proof fn lemma_rounded_height(n: int, h: int)
    requires
        0 <= h <= parts(15),
    ensures
        0 <= rounded(n + h) - rounded(n) <= 16,
{
}

/// Whole cells are whole pitches.
proof fn lemma_whole_cells(n: int, pitch: int, s: int)
    requires
        s > 0,
        pitch * s == 357_000_000,
    ensures
        parts(n) / s == n * pitch,
{
    assert(n * 357_000_000 == s * (n * pitch)) by (nonlinear_arith)
        requires
            pitch * s == 357_000_000,
    ;
    vstd::arithmetic::div_mod::lemma_div_multiples_vanish(n * pitch, s);
}

/// A note's placement in terminal cells before clipping. Separate from [`Rect`],
/// whose unsigned origin can't express a note whose top-left has slid off the
/// left or top edge.
#[derive(Debug, Clone, Copy, PartialEq, Eq, Structural)]
pub struct CellRect {
    pub x: i128,
    pub y: i128,
    pub width: u16,
    pub height: u16,
}

impl CellRect {
    /// Whether a cell is inside.
    pub open spec fn holds(self, col: int, row: int) -> bool {
        self.x <= col < self.x + self.width && self.y <= row < self.y + self.height
    }

    /// The part inside `area`, or `None` if none of it is.
    pub open spec fn clipped(self, area: Rect) -> Option<Rect> {
        let x0 = if self.x > area.x { self.x as int } else { area.x as int };
        let y0 = if self.y > area.y { self.y as int } else { area.y as int };
        let x1 = if self.x + self.width < area.x + area.width {
            self.x + self.width
        } else {
            area.x + area.width
        };
        let y1 = if self.y + self.height < area.y + area.height {
            self.y + self.height
        } else {
            area.y + area.height
        };
        if x1 <= x0 || y1 <= y0 {
            None
        } else {
            Some(
                Rect {
                    x: x0 as u16,
                    y: y0 as u16,
                    width: (x1 - x0) as u16,
                    height: (y1 - y0) as u16,
                },
            )
        }
    }

    /// The part of this rect inside `area`, or `None` if none of it is.
    pub fn clip(&self, area: Rect) -> (r: Option<Rect>)
        requires
            area.fits(),
            self.x + self.width <= i128::MAX,
            self.y + self.height <= i128::MAX,
        ensures
            r == self.clipped(area),
    {
        let ax0: i128 = area.x as i128;
        let ay0: i128 = area.y as i128;
        let ax1: i128 = ax0 + area.width as i128;
        let ay1: i128 = ay0 + area.height as i128;
        let x1: i128 = self.x + self.width as i128;
        let y1: i128 = self.y + self.height as i128;
        let cx0: i128 = if self.x > ax0 {
            self.x
        } else {
            ax0
        };
        let cy0: i128 = if self.y > ay0 {
            self.y
        } else {
            ay0
        };
        let cx1: i128 = if x1 < ax1 {
            x1
        } else {
            ax1
        };
        let cy1: i128 = if y1 < ay1 {
            y1
        } else {
            ay1
        };
        if cx1 <= cx0 || cy1 <= cy0 {
            return None;
        }
        Some(
            Rect {
                x: cx0 as u16,
                y: cy0 as u16,
                width: (cx1 - cx0) as u16,
                height: (cy1 - cy0) as u16,
            },
        )
    }
}

// ---- laws ----

/// A clip is exactly the cells that are in both rectangles, and there is one
/// exactly when there is such a cell.
pub proof fn law_clip_is_the_intersection(c: CellRect, area: Rect, col: int, row: int)
    requires
        area.fits(),
        0 <= col,
        0 <= row,
    ensures
        match c.clipped(area) {
            Some(r) => (r.x <= col < r.x + r.width && r.y <= row < r.y + r.height) <==> (c.holds(
                col,
                row,
            ) && area.x <= col < area.x + area.width && area.y <= row < area.y + area.height),
            None => !(c.holds(col, row) && area.x <= col < area.x + area.width && area.y <= row
                < area.y + area.height),
        },
{
}

/// Turning a point into cells and back gives the same point.
pub proof fn law_cell_and_world_round_trip(v: View, w: WorldPoint)
    requires
        v.wf(),
    ensures
        v.proj.world_under(v.proj.screen_of(w).0, v.proj.screen_of(w).1) == (w.x as int, w.y as int),
{
    crate::geometry::law_projection_round_trips(v.proj, w);
}

/// The point under a cell is drawn at exactly that cell, with nothing over.
pub proof fn law_world_under_is_exact(cam: Camera, area: Rect, col: int, row: int)
    ensures
        left_edge(cam, area, world_under(cam, area, col, row).0) == parts(col),
        top_edge(cam, area, world_under(cam, area, col, row).1) == parts(row),
{
    let z = cam.zoom;
    lemma_pitch(z);
    let px = pitch_x(z);
    let py = pitch_y(z);
    let sx = z.percent() * 100;
    let sy = z.percent() * 50;
    assert(((col - area.x) * px) * sx == (col - area.x) * 357_000_000) by (nonlinear_arith)
        requires
            px * sx == 357_000_000,
    ;
    assert(((row - area.y) * py) * sy == (row - area.y) * 357_000_000) by (nonlinear_arith)
        requires
            py * sy == 357_000_000,
    ;
}

} // verus!

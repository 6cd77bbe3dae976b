//! Spatial math: the world/screen projection every renderer shares.
//!
//! pinz is a tiny 2D engine. The board is a **world**; a **camera** looks at a
//! rectangular slice of it. Getting the projection and its inverse right is the
//! whole ballgame - panning, zooming, and mouse hit-testing are all
//! applications of these two functions.
//!
//! World coordinates are counted in **grains**, [`GRAIN`] to the world unit.
//! The number is chosen so that at every zoom level a terminal cell, and half a
//! terminal cell, is a whole number of grains. The projection is then exact in
//! both directions: no rounding stands between a click and the pin under it.

use vstd::prelude::*;

verus! {

/// Grains in one world unit.
pub const GRAIN: i128 = 7140;

/// A point in board (world) space, in grains. Independent of zoom and of the
/// medium.
#[derive(Debug, Clone, Copy, PartialEq, Eq, Structural)]
pub struct WorldPoint {
    pub x: i128,
    pub y: i128,
}

/// How far from the origin, in grains, a point can be mapped to a screen without
/// the arithmetic running out of bits.
pub const MAP_EDGE: i128 = 1_000_000_000_000_000_000_000_000_000_000;

/// A point that can be mapped to a screen.
pub open spec fn on_map(p: WorldPoint) -> bool {
    -MAP_EDGE <= p.x <= MAP_EDGE && -MAP_EDGE <= p.y <= MAP_EDGE
}

/// A point in the visible surface, finely enough divided that the projection
/// loses nothing: see [`SCREEN_PARTS`]. The caller rounds to whole cells only at
/// the very edge.
#[derive(Debug, Clone, Copy, PartialEq, Eq, Structural)]
pub struct ScreenPoint {
    pub x: i128,
    pub y: i128,
}

/// Parts in one screen unit. A grain at scale one and aspect one is ten
/// thousand parts: a hundred for the scale's hundredths, a hundred for the
/// aspect's.
pub const SCREEN_PARTS: i128 = 71_400_000;

/// `a / b` rounded down.
pub fn floor_div(a: i128, b: i128) -> (q: i128)
    requires
        b > 0,
    ensures
        q == a as int / b as int,
{
    if a >= 0 {
        let q: u128 = (a as u128) / (b as u128);
        proof {
            assert(0 <= a as int / b as int <= a) by (nonlinear_arith)
                requires
                    a >= 0,
                    b > 0,
            ;
        }
        q as i128
    } else {
        let n: u128 = (-(a + 1)) as u128;
        let q: u128 = n / (b as u128);
        proof {
            let ai = a as int;
            let bi = b as int;
            let m = -ai - 1;
            assert(n == m);
            let k = m / bi;
            assert(q == k);
            assert(0 <= k <= m && m == bi * k + m % bi && 0 <= m % bi < bi) by (nonlinear_arith)
                requires
                    m >= 0,
                    bi > 0,
                    k == m / bi,
            ;
            assert(bi * (-k - 1) == -(bi * k) - bi) by (nonlinear_arith);
            vstd::arithmetic::div_mod::lemma_fundamental_div_mod_converse(
                ai,
                bi,
                -k - 1,
                bi - 1 - m % bi,
            );
        }
        -(q as i128) - 1
    }
}

/// Discrete zoom steps. There is no continuous zoom: a terminal is a grid of
/// cells, so we snap to four levels of detail. The variant also decides how a
/// note is *rendered*, not merely its size.
#[derive(Debug, Clone, Copy, PartialEq, Eq, Structural)]
pub enum ZoomLevel {
    /// Solid colored blocks, no text: the whole-board overview.
    Cluster,
    /// Title only.
    Titles,
    /// Title plus a body preview.
    Preview,
    /// Full note, editable.
    Document,
}

impl ZoomLevel {
    /// Every level, ordered from most zoomed out to most zoomed in.
    pub const ALL: [ZoomLevel; 4] = [
        ZoomLevel::Cluster,
        ZoomLevel::Titles,
        ZoomLevel::Preview,
        ZoomLevel::Document,
    ];

    /// World-units-to-screen scale of a level, in hundredths.
    pub open spec fn percent(self) -> int {
        match self {
            ZoomLevel::Cluster => 24,
            ZoomLevel::Titles => 42,
            ZoomLevel::Preview => 68,
            ZoomLevel::Document => 100,
        }
    }

    /// Position from most zoomed out to most zoomed in.
    pub open spec fn rank(self) -> int {
        match self {
            ZoomLevel::Cluster => 0,
            ZoomLevel::Titles => 1,
            ZoomLevel::Preview => 2,
            ZoomLevel::Document => 3,
        }
    }

    /// The level at a position, clamped at both ends.
    pub open spec fn ranked(i: int) -> ZoomLevel {
        if i <= 0 {
            ZoomLevel::Cluster
        } else if i == 1 {
            ZoomLevel::Titles
        } else if i == 2 {
            ZoomLevel::Preview
        } else {
            ZoomLevel::Document
        }
    }

    /// World-units-to-screen scale for this level, in hundredths. Larger means
    /// more zoomed in. These are tuned constants, not a formula; the ratios are
    /// what matter.
    pub fn scale(self) -> (s: i128)
        ensures
            s == self.percent(),
    {
        match self {
            ZoomLevel::Cluster => 24,
            ZoomLevel::Titles => 42,
            ZoomLevel::Preview => 68,
            ZoomLevel::Document => 100,
        }
    }

    /// The short label of a level.
    pub open spec fn name(self) -> Seq<char> {
        match self {
            ZoomLevel::Cluster => "cluster"@,
            ZoomLevel::Titles => "titles"@,
            ZoomLevel::Preview => "preview"@,
            ZoomLevel::Document => "document"@,
        }
    }

    /// Short label for the zoom indicator in the header.
    pub fn label(self) -> (s: &'static str)
        ensures
            s@ == self.name(),
    {
        match self {
            ZoomLevel::Cluster => "cluster",
            ZoomLevel::Titles => "titles",
            ZoomLevel::Preview => "preview",
            ZoomLevel::Document => "document",
        }
    }

    /// Position in `ALL`, i.e. 0 for `Cluster` up to 3 for `Document`.
    pub fn index(self) -> (i: usize)
        ensures
            i == self.rank(),
            i < 4,
            ZoomLevel::ALL@[i as int] == self,
    {
        match self {
            ZoomLevel::Cluster => 0,
            ZoomLevel::Titles => 1,
            ZoomLevel::Preview => 2,
            ZoomLevel::Document => 3,
        }
    }

    fn from_index(i: isize) -> (z: ZoomLevel)
        ensures
            z == ZoomLevel::ranked(i as int),
    {
        if i <= 0 {
            ZoomLevel::Cluster
        } else if i == 1 {
            ZoomLevel::Titles
        } else if i == 2 {
            ZoomLevel::Preview
        } else {
            ZoomLevel::Document
        }
    }

    /// One step more zoomed in, clamped at `Document`.
    pub fn zoomed_in(self) -> (z: ZoomLevel)
        ensures
            z == ZoomLevel::ranked(self.rank() + 1),
    {
        ZoomLevel::from_index(self.index() as isize + 1)
    }

    /// One step more zoomed out, clamped at `Cluster`.
    pub fn zoomed_out(self) -> (z: ZoomLevel)
        ensures
            z == ZoomLevel::ranked(self.rank() - 1),
    {
        ZoomLevel::from_index(self.index() as isize - 1)
    }
}

/// Where the camera is and how far it is zoomed.
#[derive(Debug, Clone, Copy, PartialEq, Eq, Structural)]
pub struct Camera {
    /// World coordinate shown at the viewport's top-left corner.
    pub origin: WorldPoint,
    pub zoom: ZoomLevel,
}

/// A camera plus the renderer's cell aspect ratio: a concrete projection.
///
/// `cell_aspect` is `cell_width / cell_height` in the target medium, in
/// hundredths. Terminal cells are roughly twice as tall as wide (50); square
/// pixels use 100. Without this correction a note that is square in world space
/// would look stretched in the terminal.
#[derive(Debug, Clone, Copy, PartialEq, Eq, Structural)]
pub struct Projection {
    pub camera: Camera,
    pub cell_aspect: i128,
}

/// The widest and the narrowest cell a projection is made for, in hundredths.
pub open spec fn usable_aspect(aspect: i128) -> bool {
    1 <= aspect <= 10_000
}

impl Projection {
    pub fn new(camera: Camera, cell_aspect: i128) -> (p: Self)
        ensures
            p == (Projection { camera, cell_aspect }),
    {
        Projection { camera, cell_aspect }
    }

    /// Screen parts per grain, horizontally.
    pub open spec fn factor_x(self) -> int {
        self.camera.zoom.percent() * 100
    }

    /// Screen parts per grain, vertically.
    pub open spec fn factor_y(self) -> int {
        self.camera.zoom.percent() * self.cell_aspect
    }

    fn scale_x(&self) -> (s: i128)
        ensures
            s == self.factor_x(),
            2400 <= s <= 10_000,
    {
        self.camera.zoom.scale() * 100
    }

    fn scale_y(&self) -> (s: i128)
        requires
            usable_aspect(self.cell_aspect),
        ensures
            s == self.factor_y(),
            24 <= s <= 1_000_000,
    {
        proof {
            assert(24 <= self.camera.zoom.percent() * self.cell_aspect <= 1_000_000)
                by (nonlinear_arith)
                requires
                    24 <= self.camera.zoom.percent() <= 100,
                    1 <= self.cell_aspect <= 10_000,
            ;
        }
        self.camera.zoom.scale() * self.cell_aspect
    }

    /// World -> screen.
    pub open spec fn screen_of(self, w: WorldPoint) -> (int, int) {
        (
            (w.x - self.camera.origin.x) * self.factor_x(),
            (w.y - self.camera.origin.y) * self.factor_y(),
        )
    }

    /// Screen -> world, rounded down to the grain.
    pub open spec fn world_under(self, x: int, y: int) -> (int, int) {
        (
            self.camera.origin.x + x / self.factor_x(),
            self.camera.origin.y + y / self.factor_y(),
        )
    }

    /// World -> screen.
    pub fn to_screen(&self, w: WorldPoint) -> (s: ScreenPoint)
        requires
            usable_aspect(self.cell_aspect),
            on_map(w),
            on_map(self.camera.origin),
        ensures
            (s.x as int, s.y as int) == self.screen_of(w),
    {
        let sx: i128 = self.scale_x();
        let sy: i128 = self.scale_y();
        let dx: i128 = w.x - self.camera.origin.x;
        let dy: i128 = w.y - self.camera.origin.y;
        proof {
            lemma_small_product(dx as int, sx as int);
            lemma_small_product(dy as int, sy as int);
        }
        ScreenPoint { x: dx * sx, y: dy * sy }
    }

    /// Screen -> world. The inverse mouse hit-testing depends on: given a click
    /// at a screen cell, this returns the world point (and thus the note) under
    /// it.
    pub fn to_world(&self, s: ScreenPoint) -> (w: WorldPoint)
        requires
            usable_aspect(self.cell_aspect),
            i128::MIN <= self.world_under(s.x as int, s.y as int).0 <= i128::MAX,
            i128::MIN <= self.world_under(s.x as int, s.y as int).1 <= i128::MAX,
        ensures
            (w.x as int, w.y as int) == self.world_under(s.x as int, s.y as int),
    {
        let qx: i128 = floor_div(s.x, self.scale_x());
        let qy: i128 = floor_div(s.y, self.scale_y());
        WorldPoint {
            x: self.camera.origin.x + qx,
            y: self.camera.origin.y + qy,
        }
    }

    /// Screen size of something with fixed world-space dimensions (e.g. a note).
    pub fn scale_size(&self, world_w: i128, world_h: i128) -> (size: (i128, i128))
        requires
            usable_aspect(self.cell_aspect),
            on_map((WorldPoint { x: world_w, y: world_h })),
        ensures
            size.0 == world_w * self.factor_x(),
            size.1 == world_h * self.factor_y(),
    {
        let sx: i128 = self.scale_x();
        let sy: i128 = self.scale_y();
        proof {
            lemma_small_product(world_w as int, sx as int);
            lemma_small_product(world_h as int, sy as int);
        }
        (world_w * sx, world_h * sy)
    }
}

proof fn lemma_small_product(d: int, s: int)
    requires
        -2 * MAP_EDGE <= d <= 2 * MAP_EDGE,
        0 <= s <= 1_000_000,
    ensures
        -0x4000_0000_0000_0000_0000_0000_0000_0000 <= d * s
            <= 0x4000_0000_0000_0000_0000_0000_0000_0000,
{
    let far: int = 2 * MAP_EDGE;
    assert(d * s <= far * 1_000_000) by (nonlinear_arith)
        requires
            d <= far,
            0 <= far,
            0 <= s <= 1_000_000,
    ;
    assert(-(far * 1_000_000) <= d * s) by (nonlinear_arith)
        requires
            -far <= d,
            0 <= far,
            0 <= s <= 1_000_000,
    ;
}

// ---- laws ----

/// Projecting a point to the screen and back gives the same point, for every
/// camera and every medium.
pub proof fn law_projection_round_trips(p: Projection, w: WorldPoint)
    requires
        usable_aspect(p.cell_aspect),
    ensures
        p.world_under(p.screen_of(w).0, p.screen_of(w).1) == (w.x as int, w.y as int),
{
    let fx = p.factor_x();
    let fy = p.factor_y();
    assert(fy > 0) by (nonlinear_arith)
        requires
            fy == p.camera.zoom.percent() * p.cell_aspect,
            p.camera.zoom.percent() >= 24,
            p.cell_aspect >= 1,
    ;
    vstd::arithmetic::div_mod::lemma_div_multiples_vanish(w.x - p.camera.origin.x, fx);
    vstd::arithmetic::div_mod::lemma_div_multiples_vanish(w.y - p.camera.origin.y, fy);
    assert(fx * (w.x - p.camera.origin.x) == (w.x - p.camera.origin.x) * fx) by (nonlinear_arith);
    assert(fy * (w.y - p.camera.origin.y) == (w.y - p.camera.origin.y) * fy) by (nonlinear_arith);
}

/// A step in and a step back out undo each other, except against the end of the
/// ladder, where the zoom stays put.
pub proof fn law_zoom_steps(z: ZoomLevel)
    ensures
        z != ZoomLevel::Document ==> ZoomLevel::ranked(ZoomLevel::ranked(z.rank() + 1).rank() - 1)
            == z,
        z != ZoomLevel::Cluster ==> ZoomLevel::ranked(ZoomLevel::ranked(z.rank() - 1).rank() + 1)
            == z,
        ZoomLevel::ranked(ZoomLevel::Document.rank() + 1) == ZoomLevel::Document,
        ZoomLevel::ranked(ZoomLevel::Cluster.rank() - 1) == ZoomLevel::Cluster,
{
}

/// More zoomed in is larger.
pub proof fn law_scale_is_monotonic(a: ZoomLevel, b: ZoomLevel)
    requires
        a.rank() < b.rank(),
    ensures
        0 < a.percent() < b.percent(),
{
}

} // verus!

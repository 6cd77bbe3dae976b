//! Where everything goes on the terminal: the rows of the screen, the order the
//! pins are drawn in, the grid under them, the window each one shows of its
//! text, and the bars that say where the camera is.

use crate::app::App;
use crate::geometry::{Camera, WorldPoint, ZoomLevel, MAP_EDGE};
use crate::model::{notes_view, top_at, Color, Note, NoteView};
use crate::paint::{
    bold, cells_in, editor_lines, editor_row, lines_cells, pieces_view, plain_lines, plain_row,
    strong, tint, tinted, Look, Piece, Tint,
};
use crate::state::{near, pin_limit, AppState};
use crate::view::{cells_of, pitch, pitch_x, pitch_y, CellRect, Rect};
use crate::wrap::RowView;
use vstd::prelude::*;

verus! {

// ---- the rows of the screen ----

/// What a strip of the screen asks for.
#[derive(Debug, Clone, Copy, PartialEq, Eq, Structural)]
pub enum Want {
    /// Exactly this many cells.
    Length(u16),
    /// At least this many.
    Min(u16),
}

/// How much the first `n` wants ask for together.
pub open spec fn asked(wants: Seq<Want>, n: int) -> int
    decreases n,
{
    if n <= 0 {
        0
    } else {
        asked(wants, n - 1) + match wants[n - 1] {
            Want::Length(cells) => cells as int,
            Want::Min(cells) => cells as int,
        }
    }
}

/// Wants that an extent has room for, all fixed but one.
pub open spec fn room_for(wants: Seq<Want>, extent: int) -> bool {
    &&& asked(wants, wants.len() as int) <= extent <= i16::MAX
    &&& exists|m: int| #[trigger] grows(wants, m)
}

/// The `m`-th want is the only one that may grow.
pub open spec fn grows(wants: Seq<Want>, m: int) -> bool {
    &&& 0 <= m < wants.len()
    &&& forall|i: int| 0 <= i < wants.len() ==> (#[trigger] wants[i] is Min <==> i == m)
}

/// Strips `(start, size)` of an extent, one behind the other from one end to the
/// other, each of the size it asks for.
pub open spec fn shared_out(
    wants: Seq<Want>,
    strips: Seq<(int, int)>,
    start: int,
    extent: int,
) -> bool {
    &&& forall|i: int|
        0 <= i < wants.len() ==> match #[trigger] wants[i] {
            Want::Length(cells) => strips[i].1 == cells,
            Want::Min(cells) => strips[i].1 >= cells,
        }
    &&& forall|i: int|
        0 <= i < wants.len() ==> (#[trigger] strips[i]).0 == (if i == 0 {
            start
        } else {
            strips[i - 1].0 + strips[i - 1].1
        })
    &&& wants.len() > 0 ==> strips.last().0 + strips.last().1 == start + extent
}

/// Calls ratatui's `Layout::vertical(..).split(..)`, which cuts an area into rows
/// from top to bottom, and hands back the rectangles it answers with.
///
/// Claimed of it: there is one row for each thing asked for; every row is as wide
/// as the area, starts at its left edge and lies inside it. Where the area has
/// room for everything that is asked, and one thing asked for may grow, every row
/// gets what it asks for, the rows follow one another without a gap, and the one
/// that may grow takes up the rest: sizes are met in order of priority, nothing
/// is put between rows, and space left over goes to a minimum before it goes to
/// the end. How a smaller area is shared out is left unsaid: the constraint
/// solver may choose there, and need not choose the same way twice.
#[verifier::external_body]
fn split_rows(area: Rect, wants: &[Want]) -> (out: Vec<Rect>)
    ensures
        out@.len() == wants@.len(),
        forall|i: int|
            0 <= i < out@.len() ==> (#[trigger] out@[i]).x == area.x && out@[i].width == area.width
                && area.y <= out@[i].y && out@[i].y + out@[i].height <= area.y + area.height,
        area.fits() && room_for(wants@, area.height as int) ==> shared_out(
            wants@,
            Seq::new(out@.len(), |i: int| (out@[i].y as int, out@[i].height as int)),
            area.y as int,
            area.height as int,
        ),
{
    let whole = ratatui::layout::Rect { x: area.x, y: area.y, width: area.width, height: area.height };
    let rows = ratatui::layout::Layout::vertical(
        wants.iter().map(
            |w| match w {
                Want::Length(n) => ratatui::layout::Constraint::Length(*n),
                Want::Min(n) => ratatui::layout::Constraint::Min(*n),
            },
        ),
    ).split(whole);
    rows.iter().map(|r| Rect { x: r.x, y: r.y, width: r.width, height: r.height }).collect()
}

/// Calls ratatui's `Layout::horizontal(..).split(..)`, which cuts an area into
/// columns from left to right, and hands back the rectangles it answers with.
///
/// Claimed of it is what [`split_rows`] claims of rows, with columns for rows and
/// widths for heights.
#[verifier::external_body]
fn split_columns(area: Rect, wants: &[Want]) -> (out: Vec<Rect>)
    ensures
        out@.len() == wants@.len(),
        forall|i: int|
            0 <= i < out@.len() ==> (#[trigger] out@[i]).y == area.y && out@[i].height
                == area.height && area.x <= out@[i].x && out@[i].x + out@[i].width <= area.x
                + area.width,
        area.fits() && room_for(wants@, area.width as int) ==> shared_out(
            wants@,
            Seq::new(out@.len(), |i: int| (out@[i].x as int, out@[i].width as int)),
            area.x as int,
            area.width as int,
        ),
{
    let whole = ratatui::layout::Rect { x: area.x, y: area.y, width: area.width, height: area.height };
    let columns = ratatui::layout::Layout::horizontal(
        wants.iter().map(
            |w| match w {
                Want::Length(n) => ratatui::layout::Constraint::Length(*n),
                Want::Min(n) => ratatui::layout::Constraint::Min(*n),
            },
        ),
    ).split(whole);
    columns.iter().map(|r| Rect { x: r.x, y: r.y, width: r.width, height: r.height }).collect()
}

/// The strips of the screen, top to bottom.
#[derive(Debug, Clone, Copy, PartialEq, Eq, Structural)]
pub struct Panes {
    pub header: Rect,
    pub tabs: Rect,
    pub board: Rect,
    pub footer: Rect,
}

/// The app told where things landed.
pub open spec fn told(s: AppState, panes: Panes) -> AppState {
    AppState { tabs: panes.tabs, ..s.set_viewport(panes.board) }
}

/// Let the app know where things landed (this also triggers first-time
/// centering) before drawing them. An area that has cells with no column or row
/// to name them is left alone.
pub fn tell(app: &mut App, panes: &Panes) -> (r: bool)
    requires
        old(app)@.safe(),
    ensures
        r == (panes.board.fits() && panes.tabs.fits()),
        r ==> final(app)@ == told(old(app)@, *panes),
        !r ==> final(app)@ == old(app)@,
        final(app)@.safe(),
{
    let fits = room(&panes.board) && room(&panes.tabs);
    if fits {
        app.set_viewport(panes.board);
        app.set_tabs_area(panes.tabs);
    }
    fits
}

fn room(r: &Rect) -> (b: bool)
    ensures
        b == r.fits(),
{
    r.x as u32 + r.width as u32 <= u16::MAX as u32 && r.y as u32 + r.height as u32
        <= u16::MAX as u32
}

/// A strip across an area.
pub open spec fn strip(area: Rect, from: int, rows: int) -> Rect {
    Rect { x: area.x, y: (area.y + from) as u16, width: area.width, height: rows as u16 }
}

/// An area that lies inside another.
pub open spec fn inside(r: Rect, area: Rect) -> bool {
    &&& area.x <= r.x && r.x + r.width <= area.x + area.width
    &&& area.y <= r.y && r.y + r.height <= area.y + area.height
}

/// The strips of the screen: one row each for the header, the tabs and the
/// footer, and the rest for the board. On a terminal too small for that they are
/// what the layout makes of it, inside the terminal all the same.
pub fn panes(area: Rect) -> (p: Panes)
    ensures
        area.fits() && 6 <= area.height <= i16::MAX ==> p == (Panes {
            header: strip(area, 0, 1),
            tabs: strip(area, 1, 1),
            board: strip(area, 2, area.height - 3),
            footer: strip(area, area.height - 1, 1),
        }),
        inside(p.header, area),
        inside(p.tabs, area),
        inside(p.board, area),
        inside(p.footer, area),
{
    let mut wants: Vec<Want> = Vec::new();
    wants.push(Want::Length(1));
    wants.push(Want::Length(1));
    wants.push(Want::Min(3));
    wants.push(Want::Length(1));
    let rows = split_rows(area, &wants);
    proof {
        reveal_with_fuel(asked, 5);
        assert(grows(wants@, 2));
        let strips = Seq::new(rows@.len(), |i: int| (rows@[i].y as int, rows@[i].height as int));
        if area.fits() && 6 <= area.height <= i16::MAX {
            assert(shared_out(wants@, strips, area.y as int, area.height as int));
            assert(wants@[0] == Want::Length(1) && wants@[1] == Want::Length(1));
            assert(wants@[2] == Want::Min(3) && wants@[3] == Want::Length(1));
            assert(strips[0] == (area.y as int, 1int));
            assert(strips[1] == (area.y + 1, 1int));
            assert(strips[2].0 == area.y + 2);
            assert(strips[3].0 == strips[2].0 + strips[2].1 && strips[3].1 == 1);
        }
    }
    Panes { header: rows[0], tabs: rows[1], board: rows[2], footer: rows[3] }
}

/// The halves of the header: the name, and the zoom dots on the right.
pub fn header_halves(area: Rect) -> (h: (Rect, Rect))
    ensures
        area.fits() && 20 <= area.width <= i16::MAX ==> {
            &&& h.0 == (Rect { width: (area.width - 10) as u16, ..area })
            &&& h.1 == (Rect { x: (area.x + area.width - 10) as u16, width: 10, ..area })
        },
        inside(h.0, area),
        inside(h.1, area),
{
    let mut wants: Vec<Want> = Vec::new();
    wants.push(Want::Min(10));
    wants.push(Want::Length(10));
    let cols = split_columns(area, &wants);
    proof {
        reveal_with_fuel(asked, 3);
        assert(grows(wants@, 0));
        let strips = Seq::new(cols@.len(), |i: int| (cols@[i].x as int, cols@[i].width as int));
        if area.fits() && 20 <= area.width <= i16::MAX {
            assert(shared_out(wants@, strips, area.x as int, area.width as int));
            assert(wants@[0] == Want::Min(10) && wants@[1] == Want::Length(10));
            assert(strips[0].0 == area.x);
            assert(strips[1].0 == strips[0].0 + strips[0].1 && strips[1].1 == 10);
        }
    }
    (cols[0], cols[1])
}

// ---- the order of the pins ----

/// Whether a pin is drawn before another: lower in the stack, or earlier on the
/// board at the same height.
pub open spec fn under(notes: Seq<NoteView>, i: int, j: int) -> bool {
    notes[i].z < notes[j].z || (notes[i].z == notes[j].z && i < j)
}

/// A pin is in an order.
pub open spec fn is_in(order: Seq<usize>, i: int) -> bool {
    exists|k: int| 0 <= k < order.len() && #[trigger] order[k] == i
}

/// An order to draw pins in: each once, the lower before the higher.
pub open spec fn draws(notes: Seq<NoteView>, order: Seq<usize>) -> bool {
    &&& order.len() == notes.len()
    &&& forall|k: int| 0 <= k < order.len() ==> (#[trigger] order[k]) < notes.len()
    &&& forall|i: int| 0 <= i < notes.len() ==> #[trigger] is_in(order, i)
    &&& forall|k: int, l: int|
        0 <= k < l < order.len() ==> under(notes, #[trigger] order[k] as int, #[trigger] order[l]
            as int)
}

/// The pins bottom-of-stack first, so higher ones overlap lower ones.
pub fn drawing_order(notes: &[Note]) -> (order: Vec<usize>)
    ensures
        draws(notes_view(notes@), order@),
{
    let ghost all = notes_view(notes@);
    let mut order: Vec<usize> = Vec::new();
    let mut i: usize = 0;
    proof {
        assert(draws(all.take(0), order@));
    }
    while i < notes.len()
        invariant
            i <= notes@.len(),
            all == notes_view(notes@),
            draws(all.take(i as int), order@),
        decreases notes@.len() - i,
    {
        let mut at: usize = order.len();
        let ghost before = order@;
        while at > 0 && notes[order[at - 1]].z > notes[i].z
            invariant
                i < notes@.len(),
                all == notes_view(notes@),
                at <= order@.len(),
                order@ == before,
                draws(all.take(i as int), before),
                forall|k: int| at <= k < before.len() ==> all[(#[trigger] before[k]) as int].z
                    > all[i as int].z,
            decreases at,
        {
            assert(order@[at - 1] < all.take(i as int).len());
            at -= 1;
        }
        order.insert(at, i);
        proof {
            lemma_insert_draws(all, before, i as int, at as int, order@);
        }
        i += 1;
    }
    proof {
        assert(all.take(i as int) =~= all);
    }
    order
}

proof fn lemma_insert_draws(
    all: Seq<NoteView>,
    before: Seq<usize>,
    i: int,
    at: int,
    after: Seq<usize>,
)
    requires
        0 <= i < all.len(),
        i <= usize::MAX,
        draws(all.take(i), before),
        0 <= at <= before.len(),
        after == before.insert(at, i as usize),
        forall|k: int|
            at <= k < before.len() ==> all[(#[trigger] before[k]) as int].z > all[i].z,
        at > 0 ==> all[before[at - 1] as int].z <= all[i].z,
    ensures
        draws(all.take(i + 1), after),
{
    let some = all.take(i);
    let more = all.take(i + 1);
    assert forall|k: int| 0 <= k < before.len() implies (#[trigger] before[k]) < i by {
        assert(before[k] < some.len());
    }
    assert forall|k: int| 0 <= k < at implies all[(#[trigger] before[k]) as int].z <= all[i].z by {
        if k < at - 1 {
            assert(under(some, before[k] as int, before[at - 1] as int));
            assert(some[before[k] as int] == all[before[k] as int]);
            assert(some[before[at - 1] as int] == all[before[at - 1] as int]);
        }
    }
    assert forall|k: int| 0 <= k < after.len() implies (#[trigger] after[k]) < more.len() by {
        if k < at {
            assert(before[k] < i);
        } else if k > at {
            assert(before[k - 1] < i);
        }
    }
    assert forall|j: int| 0 <= j < more.len() implies #[trigger] is_in(after, j) by {
        if j < i {
            assert(is_in(before, j));
            let k = choose|k: int| 0 <= k < before.len() && #[trigger] before[k] == j;
            if k < at {
                assert(after[k] == j);
            } else {
                assert(after[k + 1] == j);
            }
        } else {
            assert(after[at] == j);
        }
    }
    assert forall|k: int, l: int| 0 <= k < l < after.len() implies under(
        more,
        #[trigger] after[k] as int,
        #[trigger] after[l] as int,
    ) by {
        let a = if k < at {
            k
        } else {
            k - 1
        };
        let b = if l < at {
            l
        } else {
            l - 1
        };
        if k != at && l != at {
            assert(under(some, before[a] as int, before[b] as int));
            assert(before[a] < i && before[b] < i);
            assert(some[before[a] as int] == more[before[a] as int]);
            assert(some[before[b] as int] == more[before[b] as int]);
        } else if k == at {
            assert(all[before[b] as int].z > all[i].z);
            assert(before[b] < i);
            assert(more[before[b] as int] == all[before[b] as int]);
        } else {
            assert(all[before[a] as int].z <= all[i].z);
            assert(before[a] < i);
            assert(more[before[a] as int] == all[before[a] as int]);
        }
    }
}

/// What you see is what you grab: of the pins at a point, the one drawn last is
/// the one a click there takes.
pub proof fn law_the_pin_on_top_is_grabbed(notes: Seq<NoteView>, p: WorldPoint, i: int, j: int)
    requires
        top_at(notes, p, notes.len() as int) == Some(i),
        0 <= j < notes.len(),
        notes[j].contains(p),
        j != i,
    ensures
        0 <= i < notes.len(),
        notes[i].contains(p),
        under(notes, j, i),
{
    crate::model::law_top_at(notes, p, notes.len() as int);
}

// ---- the grid ----

/// World units between two lines of the grid, in grains.
pub const GRID: i128 = 342_720;

/// How far past `origin` the first line of the grid is.
pub open spec fn first_line_after(origin: int) -> int {
    (342_720 - origin % 342_720) % 342_720
}

/// How many lines of the grid there are in a stretch of the world.
pub open spec fn grid_count(origin: int, stretch: int) -> int {
    if stretch > first_line_after(origin) {
        (stretch - first_line_after(origin) + 342_719) / 342_720
    } else {
        0
    }
}

/// The cells the lines of the grid fall on along an axis `cells` long. Aligned to
/// the world, so the grid slides under the notes as you pan.
pub open spec fn grid_cells(origin: int, pitch: int, cells: int) -> Seq<u16> {
    Seq::new(
        grid_count(origin, cells * pitch) as nat,
        |k: int| ((first_line_after(origin) + k * 342_720) / pitch) as u16,
    )
}

/// The cells the lines of the grid fall on along an axis.
fn grid_axis(origin: i128, pitch: i128, cells: u16) -> (out: Vec<u16>)
    requires
        35_700 <= pitch <= 297_500,
    ensures
        out@ == grid_cells(origin as int, pitch as int, cells as int),
{
    let shifted: i128 = if origin < 0 {
        origin + 342_720
    } else {
        origin
    };
    let over: i128 = crate::geometry::floor_div(shifted, 342_720);
    proof {
        vstd::arithmetic::div_mod::lemma_fundamental_div_mod(shifted as int, 342_720);
    }
    let past: i128 = shifted - over * 342_720;
    let first: i128 = if past == 0 {
        0
    } else {
        342_720 - past
    };
    proof {
        assert(past == origin as int % 342_720);
        assert(first == first_line_after(origin as int));
        assert(0 <= cells * pitch <= 65_535 * 297_500) by (nonlinear_arith)
            requires
                0 <= cells <= 65_535,
                35_700 <= pitch <= 297_500,
        ;
    }
    let stretch: i128 = cells as i128 * pitch;
    let mut out: Vec<u16> = Vec::new();
    let mut at: i128 = first;
    let ghost mut k: int = 0;
    while at < stretch
        invariant
            35_700 <= pitch <= 297_500,
            0 <= first < 342_720,
            first == first_line_after(origin as int),
            stretch == cells * pitch,
            stretch <= 65_535 * 297_500,
            0 <= at < stretch + 342_720,
            0 <= k,
            at == first + k * 342_720,
            out@.len() == k,
            forall|j: int|
                0 <= j < k ==> #[trigger] out@[j] == ((first + j * 342_720) / pitch as int) as u16,
            k > 0 ==> first + (k - 1) * 342_720 < stretch,
        decreases stretch + 342_720 - at,
    {
        proof {
            assert(0 <= (at as int) / (pitch as int) < 65_536) by (nonlinear_arith)
                requires
                    0 <= at < stretch,
                    stretch == cells * pitch,
                    cells <= 65_535,
                    pitch >= 35_700,
            ;
        }
        out.push((at / pitch) as u16);
        at = at + 342_720;
        proof {
            k = k + 1;
        }
    }
    proof {
        let n = grid_count(origin as int, stretch as int);
        assert(n == k);
        assert(out@ =~= grid_cells(origin as int, pitch as int, cells as int));
    }
    out
}

/// Whether the grid is sparse enough to read at a zoom level.
pub open spec fn grid_shows(z: ZoomLevel) -> bool {
    342_720 >= 3 * pitch_x(z)
}

/// The dot grid, aligned to world coordinates so it slides under the notes as
/// you pan - a cheap sense of place: the columns and the rows of its dots, from
/// the corner of the board. Left out when the grid would be too dense to read.
pub fn grid(camera: Camera, area: Rect) -> (g: Option<(Vec<u16>, Vec<u16>)>)
    ensures
        g is Some <==> grid_shows(camera.zoom),
        g matches Some((cols, rows)) ==> {
            &&& cols@ == grid_cells(
                camera.origin.x as int,
                pitch_x(camera.zoom),
                area.width as int,
            )
            &&& rows@ == grid_cells(
                camera.origin.y as int,
                pitch_y(camera.zoom),
                area.height as int,
            )
        },
{
    let (px, py) = pitch(camera.zoom);
    proof {
        crate::view::lemma_pitch(camera.zoom);
    }
    if GRID < 3 * px {
        return None;
    }
    Some((grid_axis(camera.origin.x, px, area.width), grid_axis(camera.origin.y, py, area.height)))
}

// ---- a pin at the edge ----

/// The part of a pin that is on the board, and how far into the pin it starts.
pub open spec fn window(cells: CellRect, area: Rect) -> Option<(Rect, (u16, u16))> {
    match cells.clipped(area) {
        Some(seen) => Some((seen, ((seen.x - cells.x) as u16, (seen.y - cells.y) as u16))),
        None => None,
    }
}

/// The part of a pin that is on the board. A pin is laid out at its full size and
/// only then cut down, which is what makes it behave like paper sliding under
/// the window frame instead of a box that reflows its text as it reaches the
/// edge.
pub fn visible(cells: &CellRect, area: Rect) -> (w: Option<(Rect, (u16, u16))>)
    requires
        area.fits(),
        cells.x + cells.width <= i128::MAX,
        cells.y + cells.height <= i128::MAX,
    ensures
        w == window(*cells, area),
{
    match cells.clip(area) {
        Some(seen) => {
            let dx: i128 = seen.x as i128 - cells.x;
            let dy: i128 = seen.y as i128 - cells.y;
            Some((seen, (dx as u16, dy as u16)))
        },
        None => None,
    }
}

/// The cells of the window are cells of the pin: what is drawn at the edge is a
/// cut of the whole pin, never a smaller pin.
pub proof fn law_the_edge_only_cuts(cells: CellRect, area: Rect)
    requires
        area.fits(),
        window(cells, area) is Some,
    ensures
        ({
            let (seen, (dx, dy)) = window(cells, area)->0;
            &&& cells.x + dx == seen.x
            &&& cells.y + dy == seen.y
            &&& dx + seen.width <= cells.width
            &&& dy + seen.height <= cells.height
        }),
{
}

// ---- a pin's text ----

/// A row of a pin's text: live while it is being edited, plain otherwise.
pub open spec fn text_row(s: AppState, id: u64, rows: Seq<RowView>, i: int) -> Seq<(char, Look)> {
    if s.editing(id) {
        editor_row(s.editor->0, rows, i)
    } else {
        plain_row(rows[i])
    }
}

/// The rows of a pin's text that its window shows: from as far down as it is
/// scrolled, as many as fit.
pub open spec fn shown_rows(s: AppState, n: NoteView) -> Seq<Seq<(char, Look)>> {
    let id = n.id;
    let layout = if s.editing(id) {
        s.edit_layout()
    } else {
        s.layout_of(n)
    };
    match layout {
        Some((cells, rows)) => {
            let height = if cells.height > 2 {
                cells.height - 2
            } else {
                0
            };
            let from = s.scroll_of(id);
            let to = if from + height < rows.len() {
                from + height
            } else {
                rows.len() as int
            };
            Seq::new(
                (if to > from {
                    to - from
                } else {
                    0
                }) as nat,
                |i: int| text_row(s, id, rows, from + i),
            )
        },
        None => Seq::empty(),
    }
}

/// The text a pin shows, through the window it is scrolled to. One layout for
/// reading and for editing, so scrolling, hit-testing and drawing agree.
pub fn face(app: &App, note: &Note) -> (out: Vec<Vec<Piece>>)
    requires
        app@.safe(),
        near(note@.position(), 3 * pin_limit()),
    ensures
        lines_cells(out@) == shown_rows(app@, note@),
{
    let id: u64 = note.id;
    let layout = if app.editing(id) {
        app.edit_layout()
    } else {
        app.layout_of(note)
    };
    let (cells, text) = match layout {
        Some(layout) => layout,
        None => {
            let none: Vec<Vec<Piece>> = Vec::new();
            proof {
                assert(lines_cells(none@) =~= Seq::empty());
            }
            return none;
        },
    };
    let ghost rows = text@;
    let all: Vec<Vec<Piece>> = if app.editing(id) {
        match &app.editor {
            Some(editor) => editor_lines(editor, (cells.width - 2) as usize),
            None => Vec::new(),
        }
    } else {
        plain_lines(&text)
    };
    proof {
        assert(lines_cells(all@) =~= Seq::new(rows.len(), |i: int| text_row(app@, id, rows, i)));
        assert(all@.len() == rows.len());
    }
    let from: usize = app.scroll_of(id);
    let height: usize = if cells.height > 2 {
        (cells.height - 2) as usize
    } else {
        0
    };
    let to: usize = if from < all.len() && height < all.len() - from {
        from + height
    } else {
        all.len()
    };
    let mut out: Vec<Vec<Piece>> = Vec::new();
    let mut i: usize = 0;
    while i < to
        invariant
            i <= to <= all@.len(),
            lines_cells(out@) == lines_cells(all@).subrange(
                if i < from {
                    i as int
                } else {
                    from as int
                },
                i as int,
            ),
        decreases to - i,
    {
        if i >= from {
            let ghost before = out@;
            let line = copy_line(&all[i]);
            out.push(line);
            proof {
                assert(lines_cells(out@) =~= lines_cells(before).push(
                    cells_in(pieces_view(line@)),
                ));
                assert(lines_cells(out@) =~= lines_cells(all@).subrange(from as int, i + 1));
            }
        } else {
            proof {
                assert(lines_cells(out@) =~= lines_cells(all@).subrange(i + 1, i + 1));
            }
        }
        i += 1;
    }
    proof {
        assert(lines_cells(out@) =~= shown_rows(app@, note@));
    }
    out
}

fn copy_line(line: &Vec<Piece>) -> (out: Vec<Piece>)
    ensures
        pieces_view(out@) == pieces_view(line@),
{
    let mut out: Vec<Piece> = Vec::new();
    let mut i: usize = 0;
    proof {
        assert(pieces_view(out@) =~= pieces_view(line@).take(0));
    }
    while i < line.len()
        invariant
            i <= line@.len(),
            pieces_view(out@) == pieces_view(line@).take(i as int),
        decreases line@.len() - i,
    {
        crate::paint::push_piece(&mut out, &line[i].text, line[i].look);
        proof {
            assert(pieces_view(line@).take(i + 1) =~= pieces_view(line@).take(i as int).push(
                line@[i as int]@,
            ));
        }
        i += 1;
    }
    proof {
        assert(pieces_view(line@).take(i as int) =~= pieces_view(line@));
    }
    out
}

// ---- the pins on the board ----

/// The border of a pin: the selected one stands out.
pub open spec fn border_look(selected: bool) -> Look {
    if selected {
        strong(Tint::Accent)
    } else {
        tinted(Tint::NoteFg)
    }
}

/// A pin as it is drawn.
#[derive(Debug)]
pub struct PinDrawn {
    /// The part of it that is on the board.
    pub seen: Rect,
    pub color: Color,
    /// What is on it. Nothing when zoomed all the way out, where a pin is a solid
    /// block.
    pub paper: Option<Paper>,
}

/// A pin close enough to read: a bordered note, laid out at its full size.
#[derive(Debug)]
pub struct Paper {
    pub width: u16,
    pub height: u16,
    /// How far into the pin the part on the board starts.
    pub offset: (u16, u16),
    pub border: Look,
    /// The rows of text inside the border.
    pub lines: Vec<Vec<Piece>>,
    /// The thumb on the right border.
    pub thumb: Option<(u16, u16)>,
}

/// A [`PinDrawn`] as a value.
pub struct PinShown {
    pub seen: Rect,
    pub color: Color,
    pub paper: Option<PaperShown>,
}

/// A [`Paper`] as a value.
pub struct PaperShown {
    pub width: u16,
    pub height: u16,
    pub offset: (u16, u16),
    pub border: Look,
    pub lines: Seq<Seq<(char, Look)>>,
    pub thumb: Option<(int, int)>,
}

impl View for PinDrawn {
    type V = PinShown;

    open spec fn view(&self) -> PinShown {
        PinShown {
            seen: self.seen,
            color: self.color,
            paper: match self.paper {
                Some(p) => Some(
                    PaperShown {
                        width: p.width,
                        height: p.height,
                        offset: p.offset,
                        border: p.border,
                        lines: lines_cells(p.lines@),
                        thumb: bar_view(p.thumb),
                    },
                ),
                None => None,
            },
        }
    }
}

/// How a pin is drawn, if any of it is on the board.
pub open spec fn shown_pin(s: AppState, n: NoteView) -> Option<PinShown> {
    let cells = cells_of(s.shown(), s.viewport, n.position());
    match window(cells, s.viewport) {
        None => None,
        Some((seen, offset)) => Some(
            PinShown {
                seen,
                color: n.color,
                paper: if s.camera.zoom == ZoomLevel::Cluster {
                    None
                } else {
                    Some(
                        PaperShown {
                            width: cells.width,
                            height: cells.height,
                            offset,
                            border: border_look(s.selected == Some(n.id)),
                            lines: shown_rows(s, n),
                            thumb: pin_thumb(s, n.id),
                        },
                    )
                },
            },
        ),
    }
}

/// The first `n` pins of an order, as far as they are on the board.
pub open spec fn shown_pins(s: AppState, order: Seq<usize>, n: int) -> Seq<PinShown>
    decreases n,
{
    if n <= 0 {
        Seq::empty()
    } else {
        match shown_pin(s, s.board().notes[order[n - 1] as int]) {
            Some(p) => shown_pins(s, order, n - 1).push(p),
            None => shown_pins(s, order, n - 1),
        }
    }
}

pub open spec fn drawn_view(pins: Seq<PinDrawn>) -> Seq<PinShown> {
    Seq::new(pins.len(), |i: int| pins[i]@)
}

fn draw_pin(app: &App, note: &Note) -> (p: Option<PinDrawn>)
    requires
        app@.safe(),
        near(note@.position(), 3 * pin_limit()),
    ensures
        match p {
            Some(p) => shown_pin(app@, note@) == Some(p@),
            None => shown_pin(app@, note@) is None,
        },
{
    let cells = app.screen_view().note_cells(note.position());
    let (seen, offset) = match visible(&cells, app.viewport) {
        Some(w) => w,
        None => return None,
    };
    if app.camera.zoom == ZoomLevel::Cluster {
        return Some(PinDrawn { seen, color: note.color, paper: None });
    }
    let selected = match app.selected {
        Some(id) => id == note.id,
        None => false,
    };
    let border = if selected {
        bold(Tint::Accent)
    } else {
        tint(Tint::NoteFg)
    };
    Some(
        PinDrawn {
            seen,
            color: note.color,
            paper: Some(
                Paper {
                    width: cells.width,
                    height: cells.height,
                    offset,
                    border,
                    lines: face(app, note),
                    thumb: thumb(app, note.id),
                },
            ),
        },
    )
}

/// The pins of the open world as they are drawn, the lowest first. Zoomed out
/// they are cheap shapes; zoomed in they are real bordered notes with text.
pub fn pins_drawn(app: &App) -> (out: Vec<PinDrawn>)
    requires
        app@.safe(),
    ensures
        exists|order: Seq<usize>|
            #[trigger] draws(app@.board().notes, order) && drawn_view(out@) == shown_pins(
                app@,
                order,
                order.len() as int,
            ),
{
    let board = app.active_board();
    let order = drawing_order(&board.notes);
    let mut out: Vec<PinDrawn> = Vec::new();
    let mut k: usize = 0;
    proof {
        assert(drawn_view(out@) =~= Seq::empty());
    }
    while k < order.len()
        invariant
            k <= order@.len(),
            app@.safe(),
            board@ == app@.board(),
            draws(board@.notes, order@),
            drawn_view(out@) == shown_pins(app@, order@, k as int),
        decreases order@.len() - k,
    {
        assert(order@[k as int] < board@.notes.len());
        let note = &board.notes[order[k]];
        assert(board@.notes[order@[k as int] as int] == note@);
        proof {
            assert(crate::state::board_within(
                app@.boards[app@.active as int],
                3 * pin_limit(),
            ));
            assert(near(board@.notes[order@[k as int] as int].position(), 3 * pin_limit()));
        }
        if let Some(p) = draw_pin(app, note) {
            let ghost before = out@;
            out.push(p);
            proof {
                assert(drawn_view(out@) =~= drawn_view(before).push(p@));
            }
        }
        k += 1;
    }
    out
}

// ---- bars ----

/// A quotient rounded to the nearest whole number, halves up.
pub open spec fn nearest(a: int, b: int) -> int {
    (2 * a + b) / (2 * b)
}

/// How long a bar is, for a view onto a larger world: the share of it that is in
/// view, never less than a twentieth of the track, and never nothing.
pub open spec fn bar_len(track: int, view: int, world: int) -> int {
    let n = if 20 * view < world {
        nearest(track, 20)
    } else {
        nearest(view * track, world)
    };
    if n < 1 {
        1
    } else {
        n
    }
}

/// Where a bar starts: as far along as the view is, held to the track.
pub open spec fn bar_start(track: int, view: int, world: int, offset: int) -> int {
    if offset <= 0 {
        0
    } else if 20 * view < world {
        if 20 * offset > 19 * world {
            nearest(19 * track, 20)
        } else {
            nearest(offset * track, world)
        }
    } else if offset > world - view {
        nearest((world - view) * track, world)
    } else {
        nearest(offset * track, world)
    }
}

/// A bar along a track: where it starts and how many cells it covers, cut off at
/// the end of the track.
pub open spec fn bar(track: int, view: int, world: int, offset: int) -> (int, int) {
    let start = bar_start(track, view, world, offset);
    let len = bar_len(track, view, world);
    (
        start,
        if start + len > track {
            track - start
        } else {
            len
        },
    )
}

fn rounded_share(a: i128, b: i128) -> (q: i128)
    requires
        0 <= a <= 0x0fff_ffff_ffff_ffff_ffff_ffff_ffff_ffff,
        0 < b <= 0x0fff_ffff_ffff_ffff_ffff_ffff_ffff_ffff,
    ensures
        q == nearest(a as int, b as int),
{
    crate::geometry::floor_div(2 * a + b, 2 * b)
}

proof fn lemma_nearest(a: int, b: int, m: int)
    requires
        0 <= a <= m * b,
        0 < b,
        0 <= m,
    ensures
        0 <= nearest(a, b) <= m,
{
    assert(0 <= (2 * a + b) / (2 * b) < m + 1) by (nonlinear_arith)
        requires
            0 <= a <= m * b,
            0 < b,
            0 <= m,
    ;
}

fn bar_on(track: u16, view: i128, world: i128, offset: i128) -> (b: (u16, u16))
    requires
        0 < view < world,
        world <= MAP_EDGE,
        offset <= MAP_EDGE,
    ensures
        (b.0 as int, b.1 as int) == bar(track as int, view as int, world as int, offset as int),
{
    let t: i128 = track as i128;
    let small = 20 * view < world;
    proof {
        assert(0 <= view * t <= world * 65_536) by (nonlinear_arith)
            requires
                0 < view < world,
                0 <= t <= 65_535,
        ;
        assert(0 <= (world - view) * t <= world * 65_536) by (nonlinear_arith)
            requires
                0 < view < world,
                0 <= t <= 65_535,
        ;
        let edge: int = MAP_EDGE as int;
        assert(offset > 0 ==> 0 <= offset * t <= edge * 65_536) by (nonlinear_arith)
            requires
                offset <= edge,
                0 <= t <= 65_535,
        ;
        assert(view * t <= t * world) by (nonlinear_arith)
            requires
                0 < view < world,
                0 <= t,
        ;
        assert((world - view) * t <= t * world) by (nonlinear_arith)
            requires
                0 < view < world,
                0 <= t,
        ;
        lemma_nearest(t as int, 20, t as int);
        lemma_nearest(19 * t as int, 20, t as int);
        lemma_nearest(view * t, world as int, t as int);
        lemma_nearest((world - view) * t, world as int, t as int);
    }
    let share: i128 = if small {
        rounded_share(t, 20)
    } else {
        rounded_share(view * t, world)
    };
    let len: i128 = if share < 1 {
        1
    } else {
        share
    };
    let start: i128 = if offset <= 0 {
        0
    } else if small {
        if 20 * offset > 19 * world {
            rounded_share(19 * t, 20)
        } else {
            proof {
                assert(offset * t <= t * world) by (nonlinear_arith)
                    requires
                        0 < offset,
                        20 * offset <= 19 * world,
                        0 <= t,
                ;
                lemma_nearest(offset * t, world as int, t as int);
            }
            rounded_share(offset * t, world)
        }
    } else if offset > world - view {
        rounded_share((world - view) * t, world)
    } else {
        proof {
            assert(offset * t <= t * world) by (nonlinear_arith)
                requires
                    0 < offset <= world - view,
                    0 < view,
                    0 <= t,
            ;
            lemma_nearest(offset * t, world as int, t as int);
        }
        rounded_share(offset * t, world)
    };
    let len: i128 = if start + len > t {
        t - start
    } else {
        len
    };
    (start as u16, len as u16)
}

/// The bars along the right and bottom edges of the board, where there is more
/// than fits: they show where the camera sits in the note cloud.
pub open spec fn board_bars(s: AppState, area: Rect) -> (Option<(int, int)>, Option<(int, int)>) {
    let cam = s.shown();
    match s.board().bounds() {
        None => (None, None),
        Some((min, max)) => {
            let view_w = area.width * pitch_x(cam.zoom);
            let view_h = area.height * pitch_y(cam.zoom);
            (
                if view_h < max.1 - min.1 && area.height > 2 {
                    Some(
                        bar(area.height as int, view_h, max.1 - min.1, cam.origin.y - min.1),
                    )
                } else {
                    None
                },
                if view_w < max.0 - min.0 && area.width > 2 {
                    Some(bar(area.width as int, view_w, max.0 - min.0, cam.origin.x - min.0))
                } else {
                    None
                },
            )
        },
    }
}

/// A bar as a value.
pub open spec fn bar_view(b: Option<(u16, u16)>) -> Option<(int, int)> {
    match b {
        Some((start, len)) => Some((start as int, len as int)),
        None => None,
    }
}

/// Thin position indicators along the right and bottom edges: where each starts,
/// from the corner of the board, and how long it is. Absent on an axis when
/// everything already fits.
pub fn scrollbars(app: &App, area: Rect) -> (bars: (Option<(u16, u16)>, Option<(u16, u16)>))
    requires
        app@.safe(),
    ensures
        (bar_view(bars.0), bar_view(bars.1)) == board_bars(app@, area),
{
    let board = app.active_board();
    proof {
        assert(crate::state::board_within(
            app@.boards[app@.active as int],
            3 * pin_limit(),
        ));
        crate::app::lemma_board_fits(app@.board(), 3 * pin_limit());
    }
    let (min, max) = match board.bounds() {
        Some(b) => b,
        None => return (None, None),
    };
    let cam = app.camera();
    let (px, py) = pitch(cam.zoom);
    proof {
        crate::view::lemma_pitch(cam.zoom);
        assert(0 <= area.width * px <= 65_535 * 297_500) by (nonlinear_arith)
            requires
                0 <= area.width <= 65_535,
                0 < px <= 297_500,
        ;
        assert(0 <= area.height * py <= 65_535 * 297_500) by (nonlinear_arith)
            requires
                0 <= area.height <= 65_535,
                0 < py <= 297_500,
        ;
    }
    let view_w: i128 = area.width as i128 * px;
    let view_h: i128 = area.height as i128 * py;
    let world_w: i128 = max.x - min.x;
    let world_h: i128 = max.y - min.y;
    let down = if view_h < world_h && area.height > 2 {
        proof {
            assert(view_h > 0) by (nonlinear_arith)
                requires
                    view_h == area.height * py,
                    area.height > 2,
                    py > 0,
            ;
        }
        Some(bar_on(area.height, view_h, world_h, cam.origin.y - min.y))
    } else {
        None
    };
    let across = if view_w < world_w && area.width > 2 {
        proof {
            assert(view_w > 0) by (nonlinear_arith)
                requires
                    view_w == area.width * px,
                    area.width > 2,
                    px > 0,
            ;
        }
        Some(bar_on(area.width, view_w, world_w, cam.origin.x - min.x))
    } else {
        None
    };
    (down, across)
}

/// The thumb on a pin's right border, for a pin that holds more than it shows.
pub open spec fn pin_thumb(s: AppState, id: u64) -> Option<(int, int)> {
    match s.text_extent(id) {
        Some((height, rows)) => if rows > height {
            Some(bar(height, height, rows, s.scroll_of(id)))
        } else {
            None
        },
        None => None,
    }
}

/// A thumb on the pin's right border, sized to the fraction of the text on screen
/// and placed by how far it is scrolled. Absent whenever the text fits: a pin
/// hiding something should say so before you open it.
pub fn thumb(app: &App, id: u64) -> (t: Option<(u16, u16)>)
    requires
        app@.safe(),
    ensures
        bar_view(t) == pin_thumb(app@, id),
{
    match app.text_extent(id) {
        Some((height, rows)) => if rows > height {
            let at: usize = app.scroll_of(id);
            Some(bar_on(height as u16, height as i128, rows as i128, at as i128))
        } else {
            None
        },
        None => None,
    }
}

/// A bar lies on its track and covers at least a cell of it.
pub proof fn law_a_bar_is_on_its_track(track: int, view: int, world: int, offset: int)
    requires
        20 <= track,
        0 < view < world,
    ensures
        0 <= bar(track, view, world, offset).0,
        1 <= bar(track, view, world, offset).1,
        bar(track, view, world, offset).0 + bar(track, view, world, offset).1 <= track,
{
    let last = track - 1;
    lemma_nearest(19 * track, 20, last);
    if 20 * view >= world {
        assert(0 <= (world - view) * track <= last * world) by (nonlinear_arith)
            requires
                0 < view < world,
                20 * view >= world,
                20 <= track,
                last == track - 1,
        ;
        lemma_nearest((world - view) * track, world, last);
        if 0 < offset <= world - view {
            assert(0 <= offset * track <= (world - view) * track) by (nonlinear_arith)
                requires
                    0 < offset <= world - view,
                    20 <= track,
            ;
            lemma_nearest(offset * track, world, last);
        }
    } else if 0 < offset && 20 * offset <= 19 * world {
        assert(0 <= offset * track <= last * world) by (nonlinear_arith)
            requires
                0 < offset,
                20 * offset <= 19 * world,
                20 <= track,
                last == track - 1,
        ;
        lemma_nearest(offset * track, world, last);
    }
}

} // verus!

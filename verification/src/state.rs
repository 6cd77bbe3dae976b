//! What the application is at any moment, and what each event makes of it.
//!
//! [`AppState`] is the whole state as a value. Every transition is a function
//! from one state to the next, and [`crate::app::App`] is proved to perform
//! exactly these.

use crate::editor::{Cursor, EditorState, Motion};
use crate::geometry::{Camera, WorldPoint, ZoomLevel};
use crate::input::{KeyCode, KeyEvent, MouseButton, MouseEvent, MouseEventKind};
use crate::model::{free_spot, top_at, BoardView, Color, NoteView};
use crate::text::{decimal, split, trim};
use crate::theme::{next_theme, theme_named};
use crate::view::{cells_of, pitch_x, pitch_y, world_under, CellRect, Rect};
use crate::wrap::{located, placed, wrapped, RowView};
use vstd::prelude::*;

verus! {

/// What the keyboard is doing right now.
#[derive(Debug, Clone, Copy, PartialEq, Eq, Structural)]
pub enum Mode {
    /// Navigating the board.
    Nav,
    /// Editing the selected note as one buffer: line 1 is the title, the rest
    /// is the body.
    Edit,
    /// Answering a prompt. Not everything should be one keystroke away - naming
    /// a world is worth a moment's thought and an escape hatch.
    Prompt,
}

/// What an answered prompt does.
#[derive(Debug, Clone, Copy, PartialEq, Eq, Structural)]
pub enum PromptKind {
    /// Make a world with the name that was typed.
    NewWorld,
    /// Delete the world you are on, if the name that was typed is its own.
    DeleteWorld,
}

/// Where a dragged pin would land if the button were released now.
///
/// The cursor column rides along with the world so the renderer can put the
/// pin glyph under the cursor without a second, separately-updated field to
/// keep in step with this one.
#[derive(Debug, Clone, Copy, PartialEq, Eq, Structural)]
pub struct DropTarget {
    pub world: usize,
    pub col: u16,
}

/// A drag in progress, started on mouse-down.
#[derive(Debug, Clone, Copy, PartialEq, Eq, Structural)]
pub enum Drag {
    /// Moving a note: its id plus the grab point's offset from the note's
    /// top-left, so the note tracks the cursor without jumping.
    Note { id: u64, off_x: i128, off_y: i128 },
    /// Panning the board: the anchor cell and the camera origin at grab time.
    Pan { col: u16, row: u16, origin: WorldPoint },
    /// Sweeping a text selection inside the note being edited. The anchor lives
    /// in the editor, so there is nothing to carry here.
    Text,
}

/// A camera glide in flight: where the view was when it started, and how far
/// through it we are, in nanoseconds. Only the origin travels; zoom cuts.
#[derive(Debug, Clone, Copy, PartialEq, Eq, Structural)]
pub struct Glide {
    pub from: WorldPoint,
    pub elapsed: u64,
}

/// One step of keyboard selection, in board directions.
#[derive(Debug, Clone, Copy, PartialEq, Eq, Structural)]
pub enum Step {
    Left,
    Right,
    Up,
    Down,
}

/// How long the camera takes to travel to a jump's destination: 140
/// milliseconds, in nanoseconds.
pub const GLIDE: u64 = 140_000_000;

/// Longest world name we will take. A world is a directory, so this is about
/// keeping paths sane rather than anything deeper.
pub const BOARD_NAME_MAX: usize = 40;

/// How many worlds you may have.
///
/// The number is not arbitrary: `1`-`9` are how you reach a world, so a tenth
/// could only be got to by tabbing past the others. A limit you can see in the
/// tab strip beats a world you can only reach the long way round.
pub const MAX_WORLDS: usize = 9;

/// How many board states undo remembers.
pub const UNDO_DEPTH: usize = 50;

/// Width of the `+` tab, drawn as " + ".
pub const NEW_TAB_WIDTH: u16 = 3;

/// A prompt as a value: see [`crate::app::Prompt`].
#[verifier::ext_equal]
pub struct PromptView {
    pub kind: PromptKind,
    pub title: Seq<char>,
    pub hint: Seq<char>,
    pub input: Seq<char>,
    pub error: Option<Seq<char>>,
}

/// A remembered workspace as a value: see [`crate::app::Snapshot`].
#[verifier::ext_equal]
pub struct SnapshotView {
    pub boards: Seq<BoardView>,
    pub active: usize,
    pub selected: Option<u64>,
}

/// One tab as a value: a world by its index, name, note count and whether it is
/// the active one, or the `+`; where it starts; how wide it is.
#[verifier::ext_equal]
pub enum TabKindView {
    World { index: usize, name: Seq<char>, notes: usize, active: bool },
    New,
}

#[verifier::ext_equal]
pub struct TabView {
    pub kind: TabKindView,
    pub x: u16,
    pub width: u16,
}

/// The whole application: see the fields of [`crate::app::App`].
#[verifier::ext_equal]
pub struct AppState {
    pub boards: Seq<BoardView>,
    pub active: usize,
    pub camera: Camera,
    pub selected: Option<u64>,
    pub mode: Mode,
    pub glide: Option<Glide>,
    pub help: bool,
    pub editor: Option<EditorState>,
    pub scroll: Map<u64, usize>,
    pub drag: Option<Drag>,
    pub viewport: Rect,
    pub tabs: Rect,
    pub prompt: Option<PromptView>,
    pub centered: bool,
    pub next_id: u64,
    pub color_tick: usize,
    pub theme_index: usize,
    pub revision: u64,
    pub pending_copy: Option<Seq<char>>,
    pub pending_deletes: Seq<Seq<char>>,
    pub status: Option<Seq<char>>,
    pub warning: Option<Seq<char>>,
    pub read_only: bool,
    pub undo: Seq<SnapshotView>,
    pub redo: Seq<SnapshotView>,
    pub pending: Option<SnapshotView>,
    pub drop_target: Option<DropTarget>,
    pub should_quit: bool,
}

// ---- invariants ----

/// Whether a point is within `limit` grains of the origin on both axes.
pub open spec fn near(p: WorldPoint, limit: int) -> bool {
    -limit <= p.x <= limit && -limit <= p.y <= limit
}

/// Every pin of a board is within `limit` grains of the origin, and there are no
/// more of them than a list can hold.
pub open spec fn board_within(b: BoardView, limit: int) -> bool {
    &&& b.notes.len() <= usize::MAX
    &&& forall|i: int| 0 <= i < b.notes.len() ==> near((#[trigger] b.notes[i]).position(), limit)
}

pub open spec fn boards_within(boards: Seq<BoardView>, limit: int) -> bool {
    forall|i: int| 0 <= i < boards.len() ==> board_within(#[trigger] boards[i], limit)
}

pub open spec fn snapshot_ok(s: SnapshotView, limit: int) -> bool {
    s.active < s.boards.len() && boards_within(s.boards, limit)
}

pub open spec fn snapshots_ok(s: Seq<SnapshotView>, limit: int) -> bool {
    forall|i: int| 0 <= i < s.len() ==> snapshot_ok(#[trigger] s[i], limit)
}

/// A list can hold one more pin.
pub open spec fn roomy(notes: Seq<NoteView>) -> bool {
    notes.len() < usize::MAX
}

pub open spec fn all_roomy(boards: Seq<BoardView>) -> bool {
    forall|i: int| 0 <= i < boards.len() ==> roomy((#[trigger] boards[i]).notes)
}

/// How far from the origin, in grains, a pin may be when an event arrives.
pub open spec fn pin_limit() -> int {
    7_000_000_000_000_000_000_000_000
}

impl AppState {
    /// What every state keeps: there is a world to be on; an editor is open
    /// exactly while editing and a prompt exactly while prompting; undo does
    /// not outgrow its depth; a dragged pin is held somewhere on it.
    pub open spec fn wf(self) -> bool {
        &&& self.boards.len() >= 1
        &&& self.active < self.boards.len()
        &&& self.theme_index < 5
        &&& self.mode == Mode::Edit <==> self.editor is Some
        &&& self.mode == Mode::Prompt <==> self.prompt is Some
        &&& self.editor matches Some(e) ==> e.wf()
        &&& self.undo.len() <= UNDO_DEPTH
        &&& self.glide matches Some(g) ==> g.elapsed < GLIDE
        &&& self.drag matches Some(Drag::Note { id: _, off_x, off_y }) ==> 0 <= off_x
            < crate::model::NOTE_W && 0 <= off_y < crate::model::NOTE_H
        &&& forall|i: int|
            0 <= i < self.undo.len() ==> (#[trigger] self.undo[i]).active < self.undo[i].boards.len()
        &&& forall|i: int|
            0 <= i < self.redo.len() ==> (#[trigger] self.redo[i]).active < self.redo[i].boards.len()
        &&& self.pending matches Some(s) ==> s.active < s.boards.len()
    }

    /// Between gestures nothing waits to be recorded.
    pub open spec fn at_rest(self) -> bool {
        self.drag is None ==> self.pending is None
    }

    /// The state is within a machine's reach: no coordinate is so far out that
    /// arithmetic on it would overflow.
    pub open spec fn reach(self, pins: int, origin: int) -> bool {
        &&& boards_within(self.boards, pins)
        &&& snapshots_ok(self.undo, pins)
        &&& snapshots_ok(self.redo, pins)
        &&& self.pending matches Some(s) ==> snapshot_ok(s, pins)
        &&& near(self.camera.origin, origin)
        &&& self.glide matches Some(g) ==> near(g.from, origin)
        &&& self.drag matches Some(Drag::Pan { col: _, row: _, origin: o }) ==> near(o, origin)
        &&& self.viewport.fits()
        &&& self.tabs.fits()
    }

    /// What holds in the middle of handling an event.
    pub open spec fn safe(self) -> bool {
        &&& self.wf()
        &&& self.reach(3 * pin_limit(), 4 * pin_limit())
    }

    /// There is room to let go of whatever is in hand.
    pub open spec fn can_let_go(self) -> bool {
        &&& self.safe()
        &&& self.revision < u64::MAX
        &&& self.drag matches Some(Drag::Note { id: _, off_x: _, off_y: _ }) ==> board_within(
            self.board(),
            pin_limit(),
        )
    }

    /// What has to hold for an event to be handled: every counter can still
    /// count, every board can take one more pin, the tab strip has columns for
    /// its tabs, and the coordinates leave room to move.
    pub open spec fn has_room(self) -> bool {
        &&& self.wf()
        &&& self.reach(pin_limit(), 2 * pin_limit())
        &&& all_roomy(self.boards)
        &&& self.revision <= u64::MAX - 8
        &&& self.next_id < u64::MAX
        &&& self.color_tick < usize::MAX
        &&& strip_end(self.boards, self.boards.len() as int) + NEW_TAB_WIDTH <= u16::MAX
        &&& self.prompt matches Some(p) ==> p.kind == PromptKind::DeleteWorld ==> self.boards.len()
            >= 2
    }
}

// ---- tabs ----

/// How wide a world's tab is: a marker, the name, a space, the number of pins,
/// and two more spaces.
pub open spec fn tab_width(b: BoardView) -> int {
    4 + b.name.len() as int + decimal(b.notes.len()).len()
}

/// Where the first `n` tabs end. The strip opens with a space.
pub open spec fn strip_end(boards: Seq<BoardView>, n: int) -> int
    decreases n,
{
    if n <= 0 {
        1
    } else {
        strip_end(boards, n - 1) + tab_width(boards[n - 1])
    }
}

/// The tab of the world at `i`.
pub open spec fn world_tab(boards: Seq<BoardView>, active: usize, i: int) -> TabView {
    TabView {
        kind: TabKindView::World {
            index: i as usize,
            name: boards[i].name,
            notes: boards[i].notes.len() as usize,
            active: i == active,
        },
        x: strip_end(boards, i) as u16,
        width: tab_width(boards[i]) as u16,
    }
}

/// The tab strip: one tab per world, each starting where the one before it
/// ends, then the `+` while there is room for another world.
pub open spec fn tabs_of(boards: Seq<BoardView>, active: usize) -> Seq<TabView> {
    let worlds = Seq::new(boards.len(), |i: int| world_tab(boards, active, i));
    if boards.len() < MAX_WORLDS {
        worlds.push(
            TabView {
                kind: TabKindView::New,
                x: strip_end(boards, boards.len() as int) as u16,
                width: NEW_TAB_WIDTH,
            },
        )
    } else {
        worlds
    }
}

/// The first tab from `i` on that covers a column of the strip.
pub open spec fn tab_covering(tabs: Seq<TabView>, offset: int, i: int) -> Option<TabKindView>
    decreases tabs.len() - i,
{
    if i < 0 || i >= tabs.len() {
        None
    } else if tabs[i].x <= offset < tabs[i].x + tabs[i].width {
        Some(tabs[i].kind)
    } else {
        tab_covering(tabs, offset, i + 1)
    }
}

// ---- notes ----

/// The first of `notes[from..]` with an id.
pub open spec fn find_from(notes: Seq<NoteView>, id: u64, from: int) -> Option<int>
    decreases notes.len() - from,
{
    if from < 0 || from >= notes.len() {
        None
    } else if notes[from].id == id {
        Some(from)
    } else {
        find_from(notes, id, from + 1)
    }
}

/// The note with an id.
pub open spec fn note_with(notes: Seq<NoteView>, id: u64) -> Option<NoteView> {
    match find_from(notes, id, 0) {
        Some(i) => Some(notes[i]),
        None => None,
    }
}

/// The highest place in the stack, zero when there are no notes.
pub open spec fn top_z(notes: Seq<NoteView>) -> int
    decreases notes.len(),
{
    if notes.len() == 0 {
        0
    } else {
        let below = top_z(notes.drop_last());
        if notes.last().z > below {
            notes.last().z as int
        } else {
            below
        }
    }
}

/// The place in the stack above another. The last place there is has none above
/// it.
pub open spec fn above(z: int) -> u32 {
    if z < u32::MAX {
        (z + 1) as u32
    } else {
        u32::MAX
    }
}

/// The notes without the ones that have an id.
pub open spec fn without_id(notes: Seq<NoteView>, id: u64) -> Seq<NoteView>
    decreases notes.len(),
{
    if notes.len() == 0 {
        Seq::empty()
    } else if notes.last().id == id {
        without_id(notes.drop_last(), id)
    } else {
        without_id(notes.drop_last(), id).push(notes.last())
    }
}

/// A note's text as one buffer: the title, then the body under it.
pub open spec fn whole_text(n: NoteView) -> Seq<char> {
    if n.body.len() == 0 {
        n.title
    } else {
        n.title.push('\n') + n.body
    }
}

/// Where a text's first newline is.
pub open spec fn first_newline(text: Seq<char>, from: int) -> Option<int>
    decreases text.len() - from,
{
    if from < 0 || from >= text.len() {
        None
    } else if text[from] == '\n' {
        Some(from)
    } else {
        first_newline(text, from + 1)
    }
}

/// A buffer as a title and a body: the first line, and everything under it.
pub open spec fn title_of(text: Seq<char>) -> Seq<char> {
    match first_newline(text, 0) {
        Some(i) => text.take(i),
        None => text,
    }
}

pub open spec fn body_of(text: Seq<char>) -> Seq<char> {
    match first_newline(text, 0) {
        Some(i) => text.skip(i + 1),
        None => Seq::empty(),
    }
}

/// A note's text as logical lines, the way it reads when it is not being
/// edited: the title, and from preview zoom up a blank line and the body.
pub open spec fn note_lines(n: NoteView, zoom: ZoomLevel) -> Seq<Seq<char>> {
    if (zoom == ZoomLevel::Preview || zoom == ZoomLevel::Document) && n.body.len() > 0 {
        seq![n.title, Seq::empty()] + split(n.body, '\n')
    } else {
        seq![n.title]
    }
}

// ---- camera ----

/// `v` pulled into `lo..=hi`.
pub open spec fn clamp(v: int, lo: int, hi: int) -> int {
    if v < lo {
        lo
    } else if v > hi {
        hi
    } else {
        v
    }
}

/// How far past the note cloud you may pan, in grains: 80 world units.
pub open spec fn pan_margin() -> int {
    571_200
}

/// How far through its journey a glide is, out of [`journey`]: it eases out, so
/// what is left of the way is the cube of what is left of the time.
pub open spec fn travelled(elapsed: u64) -> int {
    let left = 14_000 - elapsed as int / 10_000;
    journey() - left * left * left
}

/// A glide's whole journey.
pub open spec fn journey() -> int {
    2_744_000_000_000
}

/// One coordinate of a glide: `part` out of [`journey`] of the way there.
pub open spec fn blend(from: int, to: int, part: int) -> int {
    from + ((to - from) * part) / journey()
}

/// An origin kept where the pins of a board are in sight, give or take a
/// margin. With no pins there is nothing to hold onto.
#[verifier::opaque]
pub open spec fn held(b: BoardView, viewport: Rect, zoom: ZoomLevel, o: WorldPoint) -> WorldPoint {
    match b.bounds() {
        None => o,
        Some((min, max)) => {
            let lo_x = min.0 - pan_margin();
            let lo_y = min.1 - pan_margin();
            let far_x = max.0 + pan_margin() - viewport.width * pitch_x(zoom);
            let far_y = max.1 + pan_margin() - viewport.height * pitch_y(zoom);
            WorldPoint {
                x: clamp(o.x as int, lo_x, if far_x > lo_x { far_x } else { lo_x }) as i128,
                y: clamp(o.y as int, lo_y, if far_y > lo_y { far_y } else { lo_y }) as i128,
            }
        },
    }
}

/// Half the viewport's width, in grains.
pub open spec fn half_w(viewport: Rect, zoom: ZoomLevel) -> int {
    viewport.width * (pitch_x(zoom) / 2)
}

/// Half the viewport's height, in grains.
pub open spec fn half_h(viewport: Rect, zoom: ZoomLevel) -> int {
    viewport.height * (pitch_y(zoom) / 2)
}

/// How far a step in a direction would go to reach a point: how far along, plus
/// twice how far off. `None` when the point is not ahead.
pub open spec fn step_cost(step: Step, from: WorldPoint, to: WorldPoint) -> Option<int> {
    let dx = to.x - from.x;
    let dy = to.y - from.y;
    let (along, off) = match step {
        Step::Left => (-dx, dy),
        Step::Right => (dx, dy),
        Step::Up => (-dy, dx),
        Step::Down => (dy, dx),
    };
    if along > 0 {
        Some(along + 2 * if off < 0 { -off } else { off })
    } else {
        None
    }
}

/// The cheaper of two candidates; between equals, the lower id.
pub open spec fn better(a: Option<(int, u64)>, b: Option<(int, u64)>) -> Option<(int, u64)> {
    match (a, b) {
        (None, _) => b,
        (_, None) => a,
        (Some((ca, ia)), Some((cb, ib))) => if cb < ca || (cb == ca && ib < ia) {
            b
        } else {
            a
        },
    }
}

/// The best of the first `n` notes a step could land on.
pub open spec fn best_step(notes: Seq<NoteView>, current: NoteView, step: Step, n: int) -> Option<
    (int, u64),
>
    decreases n,
{
    if n <= 0 {
        None
    } else {
        let note = notes[n - 1];
        let cost = step_cost(step, current.position(), note.position());
        better(
            best_step(notes, current, step, n - 1),
            if note.id != current.id && cost is Some {
                Some((cost->0, note.id))
            } else {
                None
            },
        )
    }
}

/// The square of a note's distance, middle to point.
pub open spec fn distance2(note: NoteView, x: int, y: int) -> int {
    let dx = note.x + 714_000 - x;
    let dy = note.y + 535_500 - y;
    dx * dx + dy * dy
}

/// The nearest of the first `n` notes to a point.
pub open spec fn nearest(notes: Seq<NoteView>, x: int, y: int, n: int) -> Option<(int, u64)>
    decreases n,
{
    if n <= 0 {
        None
    } else {
        better(
            nearest(notes, x, y, n - 1),
            Some((distance2(notes[n - 1], x, y), notes[n - 1].id)),
        )
    }
}

// ---- reading the state ----

impl AppState {
    /// The world you are on.
    pub open spec fn board(self) -> BoardView {
        self.boards[self.active as int]
    }

    /// The pins of the world you are on.
    pub open spec fn notes(self) -> Seq<NoteView> {
        self.board().notes
    }

    /// A pin of the world you are on.
    pub open spec fn note(self, id: u64) -> Option<NoteView> {
        note_with(self.notes(), id)
    }

    /// The camera as it appears on screen, which is the target camera only when
    /// nothing is travelling.
    pub open spec fn shown(self) -> Camera {
        match self.glide {
            None => self.camera,
            Some(g) => {
                let part = travelled(g.elapsed);
                let to = self.camera.origin;
                Camera {
                    origin: WorldPoint {
                        x: blend(g.from.x as int, to.x as int, part) as i128,
                        y: blend(g.from.y as int, to.y as int, part) as i128,
                    },
                    zoom: self.camera.zoom,
                }
            },
        }
    }

    /// The world point under a terminal cell.
    pub open spec fn world_at(self, col: u16, row: u16) -> WorldPoint {
        let w = world_under(self.shown(), self.viewport, col as int, row as int);
        WorldPoint { x: w.0 as i128, y: w.1 as i128 }
    }

    /// The pin under a terminal cell, topmost first.
    pub open spec fn pin_at(self, col: u16, row: u16) -> Option<NoteView> {
        match top_at(self.notes(), self.world_at(col, row), self.notes().len() as int) {
            Some(i) => Some(self.notes()[i]),
            None => None,
        }
    }

    /// The tab under a column of the strip.
    pub open spec fn tab_at(self, col: u16) -> Option<TabKindView> {
        if col < self.tabs.x {
            None
        } else {
            tab_covering(tabs_of(self.boards, self.active), col - self.tabs.x, 0)
        }
    }

    /// The world whose tab is under a cell.
    pub open spec fn world_at_point(self, col: u16, row: u16) -> Option<usize> {
        if !self.tabs.holds(col, row) {
            None
        } else {
            match self.tab_at(col) {
                Some(TabKindView::World { index, name: _, notes: _, active: _ }) => Some(index),
                _ => None,
            }
        }
    }

    /// The edited note's cells, and its text laid out in them.
    pub open spec fn edit_layout(self) -> Option<(CellRect, Seq<RowView>)> {
        match (self.editor, self.selected) {
            (Some(e), Some(id)) => match self.note(id) {
                Some(n) => {
                    let cells = cells_of(self.shown(), self.viewport, n.position());
                    if cells.width < 2 {
                        None
                    } else {
                        Some((cells, wrapped(e.lines, cells.width - 2)))
                    }
                },
                None => None,
            },
            _ => None,
        }
    }

    /// A note's cells, and its saved text laid out in them.
    pub open spec fn layout_of(self, n: NoteView) -> Option<(CellRect, Seq<RowView>)> {
        let cells = cells_of(self.shown(), self.viewport, n.position());
        if cells.width < 2 {
            None
        } else {
            Some((cells, wrapped(note_lines(n, self.camera.zoom), cells.width - 2)))
        }
    }

    /// The layout of the note with an id.
    pub open spec fn note_layout(self, id: u64) -> Option<(CellRect, Seq<RowView>)> {
        match self.note(id) {
            Some(n) => self.layout_of(n),
            None => None,
        }
    }

    pub open spec fn editing(self, id: u64) -> bool {
        self.mode == Mode::Edit && self.selected == Some(id) && self.editor is Some
    }

    /// The layout a note's window moves over: the live buffer when it is the
    /// note being edited, its saved text otherwise.
    pub open spec fn text_layout(self, id: u64) -> Option<(CellRect, Seq<RowView>)> {
        if self.editing(id) {
            self.edit_layout()
        } else {
            self.note_layout(id)
        }
    }

    /// How many rows of text a note shows at once, and how many it has.
    pub open spec fn text_extent(self, id: u64) -> Option<(int, int)> {
        match self.text_layout(id) {
            Some((cells, rows)) => if cells.height <= 2 {
                None
            } else {
                Some((cells.height - 2, rows.len() as int))
            },
            None => None,
        }
    }

    /// The furthest a note can scroll.
    pub open spec fn max_scroll_of(self, id: u64) -> int {
        match self.text_extent(id) {
            Some((height, rows)) => if rows > height {
                rows - height
            } else {
                0
            },
            None => 0,
        }
    }

    /// How many rows of a note's text sit above its window.
    pub open spec fn scroll_of(self, id: u64) -> int {
        let at = if self.scroll.contains_key(id) {
            self.scroll[id] as int
        } else {
            0
        };
        if at <= self.max_scroll_of(id) {
            at
        } else {
            self.max_scroll_of(id)
        }
    }

    /// The position in the buffer that a terminal cell points at. Outside the
    /// text area it points nowhere, unless clamped to the nearest cell.
    pub open spec fn edit_cursor_at(self, col: u16, row: u16, nearest: bool) -> Option<Cursor> {
        match self.edit_layout() {
            None => None,
            Some((cells, rows)) => {
                let width = cells.width - 2;
                let height = cells.height - 2;
                let dx = col - (cells.x + 1);
                let dy = row - (cells.y + 1);
                if width <= 0 || height <= 0 {
                    None
                } else if nearest {
                    Some(
                        located(
                            rows,
                            clamp(dy, 0, height - 1) + self.scroll_of(self.selected->0),
                            clamp(dx, 0, width - 1),
                        ),
                    )
                } else if 0 <= dx < width && 0 <= dy < height {
                    Some(located(rows, dy + self.scroll_of(self.selected->0), dx))
                } else {
                    None
                }
            },
        }
    }

    /// The pin one step away: from the selected pin, the best one that way; with
    /// none selected, the one nearest the middle of the view.
    pub open spec fn step_target(self, step: Step) -> Option<u64> {
        let notes = self.notes();
        let current = match self.selected {
            Some(id) => self.note(id),
            None => None,
        };
        let found = match current {
            Some(c) => best_step(notes, c, step, notes.len() as int),
            None => nearest(
                notes,
                self.camera.origin.x + half_w(self.viewport, self.camera.zoom),
                self.camera.origin.y + half_h(self.viewport, self.camera.zoom),
                notes.len() as int,
            ),
        };
        match found {
            Some((_, id)) => Some(id),
            None => None,
        }
    }

    /// The origin that puts a pin in the middle of the viewport.
    pub open spec fn centered_origin(self, id: u64) -> Option<WorldPoint> {
        match self.note(id) {
            Some(n) => Some(
                WorldPoint {
                    x: (n.x + 714_000 - half_w(self.viewport, self.camera.zoom)) as i128,
                    y: (n.y + 535_500 - half_h(self.viewport, self.camera.zoom)) as i128,
                },
            ),
            None => None,
        }
    }

    /// Whether a pin is wholly in view where the camera is headed.
    pub open spec fn in_view(self, n: NoteView) -> bool {
        let o = self.camera.origin;
        &&& o.x <= n.x
        &&& n.x + 1_428_000 <= o.x + self.viewport.width * pitch_x(self.camera.zoom)
        &&& o.y <= n.y
        &&& n.y + 1_071_000 <= o.y + self.viewport.height * pitch_y(self.camera.zoom)
    }

    pub open spec fn snapshot(self) -> SnapshotView {
        SnapshotView { boards: self.boards, active: self.active, selected: self.selected }
    }

    pub open spec fn has_selection(self) -> bool {
        self.editor matches Some(e) && e.selection() is Some
    }
}

// ---- camera transitions ----

impl AppState {
    pub open spec fn with_status(self, text: Seq<char>) -> AppState {
        AppState { status: Some(text), ..self }
    }

    /// The camera moved to an origin, as far as the board lets it.
    pub open spec fn with_origin(self, o: WorldPoint) -> AppState {
        AppState {
            camera: Camera {
                origin: held(self.board(), self.viewport, self.camera.zoom, o),
                ..self.camera
            },
            ..self
        }
    }

    pub open spec fn clamp_origin(self) -> AppState {
        self.with_origin(self.camera.origin)
    }

    /// Time passing: a glide moves on, and ends when its time is up.
    pub open spec fn tick(self, dt: u64) -> AppState {
        match self.glide {
            None => self,
            Some(g) => AppState {
                glide: if g.elapsed + dt >= GLIDE {
                    None
                } else {
                    Some(Glide { elapsed: (g.elapsed + dt) as u64, ..g })
                },
                ..self
            },
        }
    }

    /// A jump: the target moves at once, and the view sets out for it from
    /// where it is on screen.
    pub open spec fn glide_to(self, o: WorldPoint) -> AppState {
        let from = self.shown().origin;
        let s = self.with_origin(o);
        AppState {
            glide: if s.camera.origin != from {
                Some(Glide { from, elapsed: 0 })
            } else {
                None
            },
            ..s
        }
    }

    #[verifier::opaque]
    pub open spec fn center_on_note(self, id: u64) -> AppState {
        match self.centered_origin(id) {
            Some(o) => self.glide_to(o),
            None => self,
        }
    }

    #[verifier::opaque]
    pub open spec fn bring_into_view(self, id: u64) -> AppState {
        match self.note(id) {
            Some(n) => if self.in_view(n) {
                self
            } else {
                self.center_on_note(id)
            },
            None => self,
        }
    }

    /// Pan by whole cells. A manipulation, not a jump: it cuts.
    #[verifier::opaque]
    pub open spec fn pan_cells(self, dx: int, dy: int) -> AppState {
        let o = self.camera.origin;
        AppState { glide: None, ..self }.with_origin(
            WorldPoint {
                x: (o.x + dx * pitch_x(self.camera.zoom)) as i128,
                y: (o.y + dy * pitch_y(self.camera.zoom)) as i128,
            },
        )
    }

    pub open spec fn center_on_content(self) -> AppState {
        let c = self.board().content_center();
        AppState { glide: None, ..self }.with_origin(
            WorldPoint {
                x: (c.0 - half_w(self.viewport, self.camera.zoom)) as i128,
                y: (c.1 - half_h(self.viewport, self.camera.zoom)) as i128,
            },
        )
    }

    pub open spec fn set_viewport(self, area: Rect) -> AppState {
        let s = AppState { viewport: area, ..self };
        if !self.centered && area.width > 0 && area.height > 0 {
            AppState { centered: true, ..s.center_on_content() }
        } else {
            s
        }
    }

    /// One step in or out of the zoom.
    pub open spec fn next_zoom(self, zoom_in: bool) -> ZoomLevel {
        ZoomLevel::ranked(
            if zoom_in {
                self.camera.zoom.rank() + 1
            } else {
                self.camera.zoom.rank() - 1
            },
        )
    }

    /// One zoom step that keeps what is under a cell under it.
    #[verifier::opaque]
    pub open spec fn zoom_at(self, zoom_in: bool, col: u16, row: u16) -> AppState {
        let target = self.next_zoom(zoom_in);
        if target == self.camera.zoom {
            self
        } else {
            let then = world_under(self.camera, self.viewport, col as int, row as int);
            let cam = Camera { zoom: target, ..self.camera };
            let now = world_under(cam, self.viewport, col as int, row as int);
            AppState { glide: None, camera: cam, ..self }.with_origin(
                WorldPoint {
                    x: (cam.origin.x + (then.0 - now.0)) as i128,
                    y: (cam.origin.y + (then.1 - now.1)) as i128,
                },
            )
        }
    }

    /// One zoom step that leaves a pin in the middle.
    #[verifier::opaque]
    pub open spec fn zoom_onto_note(self, zoom_in: bool, id: u64) -> AppState {
        let target = self.next_zoom(zoom_in);
        if target == self.camera.zoom {
            self
        } else {
            let s = AppState {
                glide: None,
                camera: Camera { zoom: target, ..self.camera },
                ..self
            };
            match s.centered_origin(id) {
                Some(o) => s.with_origin(o),
                None => s,
            }
        }
    }

    #[verifier::opaque]
    pub open spec fn zoom_at_center(self, zoom_in: bool) -> AppState {
        match self.selected {
            Some(id) => self.zoom_onto_note(zoom_in, id),
            None => self.zoom_at(
                zoom_in,
                (self.viewport.x + self.viewport.width / 2) as u16,
                (self.viewport.y + self.viewport.height / 2) as u16,
            ),
        }
    }

    #[verifier::opaque]
    pub open spec fn select_toward(self, step: Step) -> AppState {
        match self.step_target(step) {
            None => self,
            Some(id) => {
                let s = AppState { selected: Some(id), ..self }.bring_into_view(id);
                match s.note(id) {
                    Some(n) => s.with_status(
                        if trim(n.title).len() == 0 {
                            "untitled pin"@
                        } else {
                            n.title
                        },
                    ),
                    None => s,
                }
            },
        }
    }

    // ---- scrolling ----

    /// A note's window moved by a number of rows, clamped to its text.
    pub open spec fn scroll_note(self, id: u64, rows: int) -> AppState {
        AppState {
            scroll: self.scroll.insert(
                id,
                clamp(self.scroll_of(id) + rows, 0, self.max_scroll_of(id)) as usize,
            ),
            ..self
        }
    }

    #[verifier::opaque]
    pub open spec fn page_selected(self, down: bool) -> AppState {
        match self.selected {
            None => self,
            Some(id) => match self.text_extent(id) {
                None => self,
                Some((height, _)) => {
                    let page = if height > 2 {
                        height - 1
                    } else {
                        1
                    };
                    self.scroll_note(
                        id,
                        if down {
                            page
                        } else {
                            -page
                        },
                    )
                },
            },
        }
    }

    /// The note the wheel belongs to: the one being edited; otherwise, where a
    /// note shows its body, the one under the pointer.
    pub open spec fn wheel_target(self, col: u16, row: u16) -> Option<u64> {
        if self.mode == Mode::Edit {
            self.selected
        } else if self.camera.zoom != ZoomLevel::Preview && self.camera.zoom
            != ZoomLevel::Document {
            None
        } else {
            match self.pin_at(col, row) {
                Some(n) => Some(n.id),
                None => None,
            }
        }
    }

    /// On a note the wheel moves its text three rows; on the board it zooms.
    #[verifier::opaque]
    pub open spec fn wheel(self, down: bool, col: u16, row: u16) -> AppState {
        match self.wheel_target(col, row) {
            Some(id) => self.scroll_note(
                id,
                if down {
                    3
                } else {
                    -3
                },
            ),
            None => self.zoom_at(!down, col, row),
        }
    }

    /// The edited note's window moved just far enough that the caret is in it,
    /// and no further down than its text goes.
    #[verifier::opaque]
    pub open spec fn follow_caret(self) -> AppState {
        match (self.edit_layout(), self.selected, self.editor) {
            (Some((cells, rows)), Some(id), Some(e)) => if cells.height <= 2 {
                self
            } else {
                let height = cells.height - 2;
                let row = placed(rows, e.cursor()).0;
                let at = self.scroll_of(id);
                let to = if row < at {
                    row
                } else if row >= at + height {
                    row + 1 - height
                } else {
                    at
                };
                let max = if rows.len() > height {
                    rows.len() - height
                } else {
                    0
                };
                AppState {
                    scroll: self.scroll.insert(
                        id,
                        (if to < max {
                            to
                        } else {
                            max
                        }) as usize,
                    ),
                    ..self
                }
            },
            _ => self,
        }
    }
}

// ---- board transitions ----

/// What to say when another pinz owns the board.
pub open spec fn read_only_message() -> Seq<char> {
    "read-only: another pinz owns this board"@
}

/// Why a name cannot be a world's, if it cannot. A world is a directory, so its
/// name has to survive being one.
pub open spec fn name_error(name: Seq<char>) -> Option<Seq<char>> {
    if name.len() == 0 {
        Some("give it a name"@)
    } else if name[0] == '.' {
        Some("cannot start with a dot"@)
    } else if name.contains('/') || name.contains('\\') {
        Some("no slashes - a world is one directory"@)
    } else if name.len() > BOARD_NAME_MAX {
        Some("keep it under 40 characters"@)
    } else {
        None
    }
}

/// Whether a world has a name.
pub open spec fn named_world(boards: Seq<BoardView>, name: Seq<char>) -> bool {
    exists|i: int| 0 <= i < boards.len() && (#[trigger] boards[i]).name == name
}

/// The first line of a text.
pub open spec fn first_line(text: Seq<char>) -> Seq<char> {
    let lines = crate::text::lines_of(text);
    if lines.len() == 0 {
        Seq::empty()
    } else {
        lines[0]
    }
}

/// An editor just opened on a text: nothing selected, the caret at the end.
pub open spec fn fresh_editor(text: Seq<char>) -> EditorState {
    let lines = split(text, '\n');
    EditorState {
        lines,
        row: (lines.len() - 1) as usize,
        col: lines.last().len() as usize,
        anchor: None,
    }
}

impl AppState {
    /// The board's change counter, moved on.
    pub open spec fn touched(self) -> AppState {
        AppState { revision: (self.revision + 1) as u64, ..self }
    }

    /// The pins of the active world replaced.
    pub open spec fn with_notes(self, notes: Seq<NoteView>) -> AppState {
        AppState {
            boards: self.boards.update(self.active as int, BoardView { notes, ..self.board() }),
            ..self
        }
    }

    /// One pin of the active world replaced, counted as a change whether or not
    /// the pin is there.
    pub open spec fn with_note(self, id: u64, note: NoteView) -> AppState {
        match find_from(self.notes(), id, 0) {
            Some(i) => self.touched().with_notes(self.notes().update(i, note)),
            None => self.touched(),
        }
    }

    pub open spec fn begin_step(self) -> AppState {
        if self.pending is None {
            AppState { pending: Some(self.snapshot()), ..self }
        } else {
            self
        }
    }

    /// A remembered workspace put back.
    #[verifier::opaque]
    pub open spec fn restore(self, snap: SnapshotView) -> AppState {
        AppState {
            boards: snap.boards,
            active: if snap.active < snap.boards.len() {
                snap.active
            } else {
                (snap.boards.len() - 1) as usize
            },
            selected: snap.selected,
            ..self
        }.touched().clamp_origin()
    }

    /// The undo stack with one more state on it, the oldest dropped when full.
    pub open spec fn push_undo(self, snap: SnapshotView) -> AppState {
        AppState {
            undo: if self.undo.len() == UNDO_DEPTH {
                self.undo.drop_first().push(snap)
            } else {
                self.undo.push(snap)
            },
            ..self
        }
    }

    /// The end of an event. Mid-drag nothing is settled. Otherwise, if the
    /// boards are not what they were: on a read-only board they are put back,
    /// and on one's own the old state becomes an undo step and the undone
    /// future is forgotten.
    #[verifier::opaque]
    pub open spec fn end_step(self) -> AppState {
        if self.drag is Some {
            self
        } else {
            match self.pending {
                None => self,
                Some(snap) => {
                    let s = AppState { pending: None, ..self };
                    if snap.boards == self.boards {
                        s
                    } else if self.read_only {
                        s.restore(snap).with_status(read_only_message())
                    } else {
                        AppState { redo: Seq::empty(), ..s.push_undo(snap) }
                    }
                },
            }
        }
    }

    /// The last change taken back. A pin being dragged is let go first, so redo
    /// has it where it settled.
    #[verifier::opaque]
    pub open spec fn undo_step(self) -> AppState {
        if self.read_only {
            self.with_status(read_only_message())
        } else if self.undo.len() == 0 {
            self.with_status("nothing to undo"@)
        } else {
            let now = self.let_go();
            let s = AppState { undo: self.undo.drop_last(), ..now }.restore(self.undo.last());
            AppState { redo: self.redo.push(now.snapshot()), pending: None, ..s }
        }
    }

    #[verifier::opaque]
    pub open spec fn redo_step(self) -> AppState {
        if self.read_only {
            self.with_status(read_only_message())
        } else if self.redo.len() == 0 {
            self.with_status("nothing to redo"@)
        } else {
            let now = self.let_go();
            let s = AppState { redo: self.redo.drop_last(), ..now }.restore(self.redo.last());
            AppState { pending: None, ..s.push_undo(now.snapshot()) }
        }
    }

    pub open spec fn set_copied(self, text: Seq<char>) -> AppState {
        AppState { pending_copy: Some(text), ..self }.with_status(
            "copied "@ + decimal(text.len()) + " chars"@,
        )
    }

    #[verifier::opaque]
    pub open spec fn copy_selection(self, cut: bool) -> AppState {
        match self.editor {
            None => self,
            Some(e) => match e.selected_text() {
                None => self,
                Some(text) => AppState {
                    editor: Some(
                        if cut {
                            e.without_selection()
                        } else {
                            e
                        },
                    ),
                    ..self
                }.set_copied(text),
            },
        }
    }

    #[verifier::opaque]
    pub open spec fn yank_note(self) -> AppState {
        match self.selected {
            None => self,
            Some(id) => match self.note(id) {
                None => self,
                Some(n) => self.set_copied(whole_text(n)),
            },
        }
    }

    /// The open note written back - first line the title, the rest the body -
    /// and back to navigating.
    #[verifier::opaque]
    pub open spec fn commit_edit(self) -> AppState {
        let written = match (self.selected, self.editor) {
            (Some(id), Some(e)) => match self.note(id) {
                Some(n) => self.with_note(
                    id,
                    NoteView { title: title_of(e.text()), body: body_of(e.text()), ..n },
                ),
                None => self.touched(),
            },
            _ => self,
        };
        AppState {
            editor: None,
            prompt: None,
            mode: Mode::Nav,
            scroll: match self.selected {
                Some(id) => self.scroll.remove(id),
                None => self.scroll,
            },
            ..written
        }
    }

    /// Leaving: a pin being dragged is let go, and what is being written is kept.
    #[verifier::opaque]
    pub open spec fn quit(self) -> AppState {
        AppState { should_quit: true, ..self.let_go().commit_edit() }
    }

    #[verifier::opaque]
    pub open spec fn begin_edit(self) -> AppState {
        if self.read_only {
            self.with_status(read_only_message())
        } else {
            match self.selected {
                None => self,
                Some(id) => match self.note(id) {
                    None => self,
                    Some(n) => AppState {
                        editor: Some(fresh_editor(whole_text(n))),
                        scroll: self.scroll.remove(id),
                        mode: Mode::Edit,
                        camera: Camera { zoom: ZoomLevel::Document, ..self.camera },
                        ..self
                    }.center_on_note(id),
                },
            }
        }
    }

    /// Where a fresh note wants to sit: its middle in the middle of the view.
    pub open spec fn fresh_wanted(self) -> WorldPoint {
        let zoom = ZoomLevel::Document;
        let o = self.camera.origin;
        WorldPoint {
            x: (o.x + half_w(self.viewport, zoom) - 714_000) as i128,
            y: (o.y + half_h(self.viewport, zoom) - 535_500) as i128,
        }
    }

    /// The pin a fresh note is.
    pub open spec fn fresh_note(self) -> NoteView {
        let spot = free_spot(self.notes(), self.fresh_wanted(), None);
        NoteView {
            id: self.next_id,
            title: "new note"@,
            body: Seq::empty(),
            x: spot.x,
            y: spot.y,
            z: above(top_z(self.notes())),
            color: Color::ALL@[self.color_tick as int % 8],
        }
    }

    /// A note in the middle of the view, opened for writing.
    #[verifier::opaque]
    pub open spec fn new_note(self) -> AppState {
        let note = self.fresh_note();
        AppState {
            camera: Camera { zoom: ZoomLevel::Document, ..self.camera },
            color_tick: (self.color_tick + 1) as usize,
            next_id: (self.next_id + 1) as u64,
            selected: Some(note.id),
            ..self
        }.touched().with_notes(self.notes().push(note)).clamp_origin().begin_edit()
    }

    #[verifier::opaque]
    pub open spec fn delete_selected(self) -> AppState {
        match self.selected {
            None => self,
            Some(id) => AppState {
                selected: None,
                editor: None,
                mode: Mode::Nav,
                ..self
            }.touched().with_notes(without_id(self.notes(), id)),
        }
    }

    pub open spec fn cycle_theme(self, forward: bool) -> AppState {
        AppState { theme_index: next_theme(self.theme_index as int, forward) as usize, ..self }
    }

    pub open spec fn set_theme_by_name(self, name: Seq<char>) -> AppState {
        match theme_named(name, 0) {
            Some(i) => AppState { theme_index: i as usize, ..self },
            None => self,
        }
    }

    #[verifier::opaque]
    pub open spec fn cycle_note_color(self, forward: bool) -> AppState {
        match self.selected {
            None => self,
            Some(id) => match self.note(id) {
                None => self.touched(),
                Some(n) => self.with_note(id, NoteView { color: n.color.stepped(forward), ..n }),
            },
        }
    }

    /// Another world opened, counting round the end. A pin being dragged is let go
    /// first: it stays on the world it is on.
    #[verifier::opaque]
    pub open spec fn switch_world(self, index: int) -> AppState {
        let to = index % (self.boards.len() as int);
        if to == self.active {
            self
        } else {
            AppState {
                active: to as usize,
                selected: None,
                mode: Mode::Nav,
                editor: None,
                prompt: None,
                centered: false,
                ..self.let_go()
            }
        }
    }

    // ---- prompts ----

    pub open spec fn with_prompt(self, kind: PromptKind, title: Seq<char>, hint: Seq<char>) -> AppState {
        AppState {
            prompt: Some(
                PromptView { kind, title, hint, input: Seq::empty(), error: None },
            ),
            mode: Mode::Prompt,
            ..self
        }
    }

    /// Ask for a new world's name. A note being edited is written back first.
    #[verifier::opaque]
    pub open spec fn begin_new_world(self) -> AppState {
        if self.read_only {
            self.with_status(read_only_message())
        } else if self.boards.len() >= MAX_WORLDS {
            self.with_status("9 worlds is the limit"@)
        } else {
            (if self.mode == Mode::Edit {
                self.commit_edit()
            } else {
                self
            }).with_prompt(
                PromptKind::NewWorld,
                "new world"@,
                "enter to create · esc to cancel"@,
            )
        }
    }

    #[verifier::opaque]
    pub open spec fn begin_delete_world(self) -> AppState {
        if self.read_only {
            self.with_status(read_only_message())
        } else if self.boards.len() == 1 {
            self.with_status(self.board().name + " is the last world"@)
        } else if self.notes().len() == 0 {
            self.delete_active_world()
        } else {
            self.with_prompt(
                PromptKind::DeleteWorld,
                "delete world"@,
                "type its name to confirm · esc to cancel"@,
            )
        }
    }

    /// The active world dropped, and its directory queued for removal. The tab
    /// that slides into its place is the one to show.
    #[verifier::opaque]
    pub open spec fn delete_active_world(self) -> AppState {
        let left = self.boards.remove(self.active as int);
        let gone = self.board().name;
        AppState {
            boards: left,
            pending_deletes: self.pending_deletes.push(gone),
            active: if self.active < left.len() {
                self.active
            } else {
                (left.len() - 1) as usize
            },
            selected: None,
            centered: false,
            ..self
        }.touched().with_status("deleted "@ + gone)
    }

    /// Why a typed name would not make a world, if it would not.
    pub open spec fn create_error(self, name: Seq<char>) -> Option<Seq<char>> {
        match name_error(name) {
            Some(why) => Some(why),
            None => if named_world(self.boards, name) {
                Some(name + " already exists"@)
            } else {
                None
            },
        }
    }

    pub open spec fn create_world(self, name: Seq<char>) -> AppState {
        AppState {
            boards: self.boards.push(BoardView { name, notes: Seq::empty() }),
            ..self
        }.touched().with_status(
            "created "@ + name + " · press "@ + decimal(self.boards.len() + 1) + " to open it"@,
        )
    }

    /// The prompt answered. A refusal keeps what was typed and says why.
    #[verifier::opaque]
    pub open spec fn confirm_prompt(self) -> AppState {
        match self.prompt {
            None => self,
            Some(p) => {
                let answer = trim(p.input);
                let name = self.board().name;
                let why = match p.kind {
                    PromptKind::NewWorld => self.create_error(answer),
                    PromptKind::DeleteWorld => if answer == name {
                        None
                    } else {
                        Some("type "@ + name + " to delete it"@)
                    },
                };
                match why {
                    Some(why) => AppState {
                        prompt: Some(PromptView { error: Some(why), ..p }),
                        ..self
                    },
                    None => AppState {
                        prompt: None,
                        mode: Mode::Nav,
                        ..match p.kind {
                            PromptKind::NewWorld => self.create_world(answer),
                            PromptKind::DeleteWorld => self.delete_active_world(),
                        }
                    },
                }
            },
        }
    }

    /// The prompt's text changed.
    pub open spec fn with_input(self, p: PromptView, input: Seq<char>) -> AppState {
        AppState { prompt: Some(PromptView { input, error: None, ..p }), ..self }
    }

    #[verifier::opaque]
    pub open spec fn prompt_key(self, k: KeyEvent) -> AppState {
        let ctrl = k.modifiers.control;
        let alt = k.modifiers.alt;
        match self.prompt {
            None => AppState { mode: Mode::Nav, ..self },
            Some(p) => match k.code {
                KeyCode::Esc => AppState { prompt: None, mode: Mode::Nav, ..self },
                KeyCode::Enter => self.confirm_prompt(),
                KeyCode::Backspace => self.with_input(
                    p,
                    if ctrl || alt || p.input.len() == 0 {
                        Seq::empty()
                    } else {
                        p.input.drop_last()
                    },
                ),
                KeyCode::Char(c) => if c == 'u' && ctrl {
                    self.with_input(p, Seq::empty())
                } else if ctrl || alt {
                    self
                } else if p.input.len() < BOARD_NAME_MAX {
                    self.with_input(p, p.input.push(c))
                } else {
                    self.with_input(p, p.input)
                },
                _ => self,
            },
        }
    }

    /// Text arriving as one lump: into the note being edited, or, its first
    /// line and no more than fits, into the prompt.
    #[verifier::opaque]
    pub open spec fn paste(self, text: Seq<char>) -> AppState {
        let s = AppState { status: None, ..self };
        if self.help {
            s
        } else {
            match self.mode {
                Mode::Edit => AppState {
                    editor: match self.editor {
                        Some(e) => Some(e.insert_str(text)),
                        None => None,
                    },
                    ..s
                },
                Mode::Prompt => match self.prompt {
                    None => s,
                    Some(p) => {
                        let line = first_line(text);
                        let room = BOARD_NAME_MAX - p.input.len();
                        s.with_input(
                            p,
                            p.input + line.take(
                                clamp(room, 0, line.len() as int),
                            ),
                        )
                    },
                },
                Mode::Nav => s,
            }
        }
    }
}

// ---- keys ----

/// The cursor movement a key means while editing, if it means one at all.
pub open spec fn motion_for(code: KeyCode, ctrl: bool, alt: bool, sup: bool) -> Option<Motion> {
    match code {
        KeyCode::Left => Some(
            if ctrl || alt {
                Motion::LeftWord
            } else if sup {
                Motion::Home
            } else {
                Motion::Left
            },
        ),
        KeyCode::Right => Some(
            if ctrl || alt {
                Motion::RightWord
            } else if sup {
                Motion::End
            } else {
                Motion::Right
            },
        ),
        KeyCode::Char(c) => if alt && (c == 'b' || c == 'B') {
            Some(Motion::LeftWord)
        } else if alt && (c == 'f' || c == 'F') {
            Some(Motion::RightWord)
        } else {
            None
        },
        KeyCode::Up => Some(Motion::Up),
        KeyCode::Down => Some(Motion::Down),
        KeyCode::Home => Some(Motion::Home),
        KeyCode::End => Some(Motion::End),
        _ => None,
    }
}

/// What a key does to the note being edited.
pub open spec fn edited(e: EditorState, k: KeyEvent) -> EditorState {
    let ctrl = k.modifiers.control;
    let alt = k.modifiers.alt;
    let sup = k.modifiers.sup;
    match motion_for(k.code, ctrl, alt, sup) {
        Some(m) => e.step(m, k.modifiers.shift),
        None => match k.code {
            KeyCode::Backspace => if ctrl || alt {
                e.delete_word()
            } else {
                e.backspace()
            },
            KeyCode::Enter => e.insert_newline(),
            KeyCode::Delete => e.delete(),
            KeyCode::Char(c) => if c == 'w' && ctrl {
                e.delete_word()
            } else if c == 'u' && ctrl {
                e.kill_line()
            } else if (c == 'a' || c == 'A') && (ctrl || sup) {
                e.select_all()
            } else if ctrl || alt || sup {
                e
            } else {
                e.insert_char(c)
            },
            _ => e,
        },
    }
}

/// Whether a key is a copy chord (`Some(false)`) or a cut chord (`Some(true)`).
pub open spec fn copy_chord(k: KeyEvent) -> Option<bool> {
    if !k.modifiers.control && !k.modifiers.sup {
        None
    } else {
        match k.code {
            KeyCode::Char(c) => if c == 'c' || c == 'C' {
                Some(false)
            } else if c == 'x' || c == 'X' {
                Some(true)
            } else {
                None
            },
            _ => None,
        }
    }
}

impl AppState {
    #[verifier::opaque]
    pub open spec fn edit_key(self, k: KeyEvent) -> AppState {
        if k.code == KeyCode::Esc {
            self.commit_edit()
        } else {
            match self.editor {
                None => AppState { mode: Mode::Nav, ..self },
                Some(e) => AppState { editor: Some(edited(e, k)), ..self },
            }
        }
    }

    /// What a letter does while navigating.
    #[verifier::opaque]
    pub open spec fn nav_char(self, c: char, ctrl: bool) -> AppState {
        if c == 'r' && ctrl {
            self.redo_step()
        } else if c == 'u' {
            self.undo_step()
        } else if c == '?' {
            AppState { help: true, ..self }
        } else if c == 'q' {
            self.quit()
        } else if c == '+' || c == '=' {
            self.zoom_at_center(true)
        } else if c == '-' || c == '_' {
            self.zoom_at_center(false)
        } else if c == 'n' {
            self.new_note()
        } else if c == 'd' || c == 'x' {
            self.delete_selected()
        } else if c == 'e' {
            self.begin_edit()
        } else if c == 't' {
            self.cycle_theme(true)
        } else if c == 'T' {
            self.cycle_theme(false)
        } else if c == 'c' {
            self.cycle_note_color(true)
        } else if c == 'C' {
            self.cycle_note_color(false)
        } else if c == 'w' {
            self.begin_new_world()
        } else if c == 'W' {
            self.begin_delete_world()
        } else if c == 'y' {
            self.yank_note()
        } else if '1' <= c <= '9' {
            self.switch_world(c as int - '1' as int)
        } else if c == 'H' {
            self.select_toward(Step::Left)
        } else if c == 'L' {
            self.select_toward(Step::Right)
        } else if c == 'K' {
            self.select_toward(Step::Up)
        } else if c == 'J' {
            self.select_toward(Step::Down)
        } else {
            self
        }
    }

    /// What a key does while navigating.
    #[verifier::opaque]
    pub open spec fn nav_key(self, k: KeyEvent) -> AppState {
        let shift = k.modifiers.shift;
        match k.code {
            KeyCode::Char(c) => self.nav_char(c, k.modifiers.control),
            KeyCode::Esc => AppState { selected: None, ..self },
            KeyCode::PageDown => self.page_selected(true),
            KeyCode::PageUp => self.page_selected(false),
            KeyCode::Delete => self.delete_selected(),
            KeyCode::Enter => self.begin_edit(),
            KeyCode::Tab => self.switch_world(self.active + 1),
            KeyCode::BackTab => self.switch_world(self.active + self.boards.len() - 1),
            KeyCode::Left => if shift {
                self.select_toward(Step::Left)
            } else {
                self.pan_cells(-4, 0)
            },
            KeyCode::Right => if shift {
                self.select_toward(Step::Right)
            } else {
                self.pan_cells(4, 0)
            },
            KeyCode::Up => if shift {
                self.select_toward(Step::Up)
            } else {
                self.pan_cells(0, -4)
            },
            KeyCode::Down => if shift {
                self.select_toward(Step::Down)
            } else {
                self.pan_cells(0, 4)
            },
            _ => self,
        }
    }

    /// What a key does. It clears the last message. The one that closes the key
    /// list is spent doing so, and F1 opens the list anywhere. Then come the
    /// copy and cut chords - copying when there is a selection to copy, and
    /// otherwise, for Ctrl-C alone, quitting - and then the mode decides.
    #[verifier::opaque]
    pub open spec fn key(self, k: KeyEvent) -> AppState {
        let s = AppState { status: None, ..self };
        if self.help {
            AppState { help: false, ..s }
        } else if k.code == KeyCode::F(1) {
            AppState { help: true, ..s }
        } else {
            match copy_chord(k) {
                Some(cut) => if self.mode == Mode::Edit && self.has_selection() {
                    s.copy_selection(cut)
                } else if k.modifiers.control && !cut {
                    s.quit()
                } else {
                    s
                },
                None => match self.mode {
                    Mode::Edit => s.edit_key(k),
                    Mode::Prompt => s.prompt_key(k),
                    Mode::Nav => s.nav_key(k),
                },
            }
        }
    }

    /// A key press, start to finish.
    pub open spec fn on_key(self, k: KeyEvent) -> AppState {
        self.begin_step().key(k).follow_caret().end_step()
    }

    /// A paste, start to finish.
    pub open spec fn on_paste(self, text: Seq<char>) -> AppState {
        self.begin_step().paste(text).follow_caret().end_step()
    }

    // ---- mouse ----

    #[verifier::opaque]
    pub open spec fn click_tab(self, col: u16) -> AppState {
        match self.tab_at(col) {
            None => self,
            Some(kind) => {
                let s = if self.mode == Mode::Prompt {
                    AppState { prompt: None, mode: Mode::Nav, ..self }
                } else {
                    self
                };
                match kind {
                    TabKindView::World { index, name: _, notes: _, active: _ } => (if s.mode
                        == Mode::Edit {
                        s.commit_edit()
                    } else {
                        s
                    }).switch_world(index as int),
                    TabKindView::New => s.begin_new_world(),
                }
            },
        }
    }

    /// A pin raised above the rest, unless nothing is above it.
    #[verifier::opaque]
    pub open spec fn bring_to_front(self, id: u64) -> AppState {
        let top = top_z(self.notes());
        match self.note(id) {
            None => self.touched(),
            Some(n) => if n.z == top {
                self.touched()
            } else {
                self.with_note(id, NoteView { z: above(top), ..n })
            },
        }
    }

    /// A press on the board: on a pin it selects, raises and grabs it; on the
    /// cork it lets go of the selection and grabs the board.
    #[verifier::opaque]
    pub open spec fn press_board(self, col: u16, row: u16) -> AppState {
        let world = self.world_at(col, row);
        match self.pin_at(col, row) {
            Some(n) => AppState {
                drag: Some(
                    Drag::Note {
                        id: n.id,
                        off_x: (world.x - n.x) as i128,
                        off_y: (world.y - n.y) as i128,
                    },
                ),
                ..AppState { selected: Some(n.id), ..self }.bring_to_front(n.id)
            },
            None => AppState {
                selected: None,
                drag: Some(Drag::Pan { col, row, origin: self.camera.origin }),
                ..self
            },
        }
    }

    /// A press. It ends a drag whose release never arrived.
    #[verifier::opaque]
    pub open spec fn mouse_down(self, col: u16, row: u16) -> AppState {
        self.let_go().pressed(col, row)
    }

    /// A press, with nothing in hand.
    #[verifier::opaque]
    pub open spec fn pressed(self, col: u16, row: u16) -> AppState {
        if self.tabs.holds(col, row) {
            self.click_tab(col)
        } else if !self.viewport.holds(col, row) {
            self
        } else if self.mode == Mode::Edit {
            match (self.edit_cursor_at(col, row, false), self.editor) {
                (Some(at), Some(e)) => AppState {
                    editor: Some(e.set_cursor(at, false)),
                    drag: Some(Drag::Text),
                    ..self
                },
                _ => self.commit_edit().press_board(col, row),
            }
        } else {
            self.press_board(col, row)
        }
    }

    /// A pin moved to another world: it lands in the middle of what is there,
    /// clear of it and on top of it. The view stays where it is.
    #[verifier::opaque]
    pub open spec fn move_note_to_board(self, id: u64, target: usize) -> AppState {
        match find_from(self.notes(), id, 0) {
            Some(at) => if target == self.active || target >= self.boards.len() {
                self
            } else {
                let there = self.boards[target as int];
                let c = there.content_center();
                let spot = free_spot(
                    there.notes,
                    WorldPoint { x: (c.0 - 714_000) as i128, y: (c.1 - 535_500) as i128 },
                    None,
                );
                let moved = NoteView {
                    x: spot.x,
                    y: spot.y,
                    z: above(top_z(there.notes)),
                    ..self.notes()[at]
                };
                let here = self.with_notes(self.notes().remove(at));
                AppState {
                    boards: here.boards.update(
                        target as int,
                        BoardView { notes: there.notes.push(moved), ..there },
                    ),
                    selected: None,
                    ..here
                }.touched().with_status("moved to "@ + there.name)
            },
            None => self,
        }
    }

    /// A just-dropped pin nudged clear of anything it would hide.
    #[verifier::opaque]
    pub open spec fn settle_note(self, id: u64) -> AppState {
        match self.note(id) {
            None => self,
            Some(n) => {
                let spot = free_spot(self.notes(), n.position(), Some(id));
                if spot == n.position() {
                    self
                } else {
                    self.with_note(id, NoteView { x: spot.x, y: spot.y, ..n })
                }
            },
        }
    }

    /// The pin that is being dragged, if one is, let go where it is: it settles,
    /// and the drag is over.
    #[verifier::opaque]
    pub open spec fn let_go(self) -> AppState {
        match self.drag {
            Some(Drag::Note { id, off_x: _, off_y: _ }) => AppState {
                drag: None,
                drop_target: None,
                ..self.settle_note(id)
            },
            _ => self,
        }
    }

    /// Release: a pin let go over another world's tab lands there, and one let
    /// go anywhere else settles. A click on text leaves no empty selection.
    #[verifier::opaque]
    pub open spec fn mouse_up(self, col: u16, row: u16) -> AppState {
        let s = match self.drag {
            Some(Drag::Note { id, off_x: _, off_y: _ }) => match self.world_at_point(col, row) {
                Some(world) => self.move_note_to_board(id, world),
                None => self.settle_note(id),
            },
            Some(Drag::Text) => AppState {
                editor: match self.editor {
                    Some(e) => Some(e.rested()),
                    None => None,
                },
                ..self
            },
            _ => self,
        };
        AppState { drag: None, drop_target: None, ..s }
    }

    /// A drag moved on: the pin follows the pointer, or arms the tab it is over
    /// and stays where it is; the board follows the pointer; a text selection
    /// grows to it.
    #[verifier::opaque]
    pub open spec fn mouse_drag(self, col: u16, row: u16) -> AppState {
        match self.drag {
            Some(Drag::Note { id, off_x, off_y }) => {
                let s = AppState {
                    drop_target: match self.world_at_point(col, row) {
                        Some(world) => Some(DropTarget { world, col }),
                        None => None,
                    },
                    ..self
                };
                if self.tabs.holds(col, row) {
                    s
                } else {
                    let world = self.world_at(col, row);
                    match self.note(id) {
                        Some(n) => s.with_note(
                            id,
                            NoteView {
                                x: (world.x - off_x) as i128,
                                y: (world.y - off_y) as i128,
                                ..n
                            },
                        ),
                        None => s.touched(),
                    }
                }
            },
            Some(Drag::Text) => match (self.edit_cursor_at(col, row, true), self.editor) {
                (Some(at), Some(e)) => AppState { editor: Some(e.set_cursor(at, true)), ..self },
                _ => self,
            },
            Some(Drag::Pan { col: c0, row: r0, origin }) => AppState {
                glide: None,
                ..self
            }.with_origin(
                WorldPoint {
                    x: (origin.x - (col - c0) * pitch_x(self.camera.zoom)) as i128,
                    y: (origin.y - (row - r0) * pitch_y(self.camera.zoom)) as i128,
                },
            ),
            None => self,
        }
    }

    #[verifier::opaque]
    pub open spec fn mouse(self, m: MouseEvent) -> AppState {
        let s = AppState { status: None, ..self };
        if self.help {
            s
        } else {
            match m.kind {
                MouseEventKind::ScrollUp => s.wheel(false, m.column, m.row),
                MouseEventKind::ScrollDown => s.wheel(true, m.column, m.row),
                MouseEventKind::Down(MouseButton::Left) => s.mouse_down(m.column, m.row),
                MouseEventKind::Drag(MouseButton::Left) => s.mouse_drag(m.column, m.row),
                MouseEventKind::Up(MouseButton::Left) => s.mouse_up(m.column, m.row),
                _ => s,
            }
        }
    }

    /// A mouse event, start to finish.
    pub open spec fn on_mouse(self, m: MouseEvent) -> AppState {
        self.begin_step().mouse(m).end_step()
    }
}

// ---- the first state ----

/// The highest id of the first `n` notes, zero when there are none.
pub open spec fn top_id(notes: Seq<NoteView>, n: int) -> int
    decreases n,
{
    if n <= 0 {
        0
    } else {
        let below = top_id(notes, n - 1);
        if notes[n - 1].id > below {
            notes[n - 1].id as int
        } else {
            below
        }
    }
}

/// The highest id on the first `n` boards, zero when there are none.
pub open spec fn top_id_on(boards: Seq<BoardView>, n: int) -> int
    decreases n,
{
    if n <= 0 {
        0
    } else {
        let below = top_id_on(boards, n - 1);
        let here = top_id(boards[n - 1].notes, boards[n - 1].notes.len() as int);
        if here > below {
            here
        } else {
            below
        }
    }
}

impl AppState {
    /// A session just opened: on the first world, looking at titles, with
    /// nothing selected, nothing remembered and nothing pending.
    pub open spec fn opened(boards: Seq<BoardView>) -> AppState {
        AppState {
            boards,
            active: 0,
            camera: Camera { origin: WorldPoint { x: 0, y: 0 }, zoom: ZoomLevel::Titles },
            selected: None,
            mode: Mode::Nav,
            glide: None,
            help: false,
            editor: None,
            scroll: Map::empty(),
            drag: None,
            viewport: Rect { x: 0, y: 0, width: 0, height: 0 },
            tabs: Rect { x: 0, y: 0, width: 0, height: 0 },
            prompt: None,
            centered: false,
            next_id: (top_id_on(boards, boards.len() as int) + 1) as u64,
            color_tick: 0,
            theme_index: 0,
            revision: 0,
            pending_copy: None,
            pending_deletes: Seq::empty(),
            status: None,
            warning: None,
            read_only: false,
            undo: Seq::empty(),
            redo: Seq::empty(),
            pending: None,
            drop_target: None,
            should_quit: false,
        }
    }
}

} // verus!

//! Application state and the input -> state transitions that drive it.
//!
//! Kept free of drawing and of I/O: a runner reads this state to render, and
//! feeds events back in through [`App::on_key`], [`App::on_mouse`] and
//! [`App::on_paste`]. Every spatial operation - pan, zoom, drag, hit-test -
//! goes through [`view::View`], the projection spine, so what you click is exactly
//! what the math says is under the cursor.
//!
//! What each event does is stated in [`crate::state`].

use crate::editor::{Cursor, EditorState, TextEditor};
use crate::geometry::{floor_div, Camera, WorldPoint, ZoomLevel};
use crate::model::{
    boards_view, copy_boards, notes_view, same_boards, Board, BoardView, Color, Note, NoteView,
    NOTE_H, NOTE_W,
};
use crate::state::{
    best_step, better, blend, board_within, boards_within, clamp, find_from, half_h, half_w, held,
    journey, nearest, near, pin_limit, snapshot_ok, snapshots_ok, strip_end, tabs_of, top_id,
    top_id_on, top_z, without_id, world_tab, AppState, Drag, DropTarget, Glide, Mode, PromptKind,
    PromptView, SnapshotView, Step, TabKindView, TabView, GLIDE, MAX_WORLDS, NEW_TAB_WIDTH,
    UNDO_DEPTH,
};
use crate::text::{chars_of, digits, opt_str, push_decimal, push_text, string_of, strs, trimmed};
use crate::theme::{index_by_name, theme_at, Theme, THEME_COUNT};
use crate::view::{self, pitch, pitch_x, pitch_y, CellRect, Rect, FAR_CELL};
use crate::wrap::{wrap, Wrapped};
use std::collections::{HashMap, VecDeque};
use vstd::prelude::*;

pub mod keys;
pub mod mouse;
pub mod prompts;

verus! {

broadcast use {vstd::std_specs::hash::group_hash_axioms, crate::text::group_strs};

/// One cell of the world tab strip. The app owns the layout so that clicking a
/// tab and drawing it cannot drift apart: a renderer draws exactly these spans,
/// and [`App::on_mouse`] hit-tests the same ones.
#[derive(Debug, Clone, PartialEq, Eq)]
pub struct Tab {
    pub kind: TabKind,
    /// Column offset from the left of the tab strip, and how wide it is.
    pub x: u16,
    pub width: u16,
}

#[derive(Debug, Clone, PartialEq, Eq)]
pub enum TabKind {
    World { index: usize, name: String, notes: usize, active: bool },
    /// The `+` that opens the new-world prompt.
    New,
}


/// A question the app is waiting on an answer to.
#[derive(Debug, Clone)]
pub struct Prompt {
    /// Which question is being asked. The prompt looks the same either way;
    /// what differs is what a confirmed answer means, so the kind rides on the
    /// prompt rather than being inferred from its title.
    pub kind: PromptKind,
    pub title: &'static str,
    pub hint: &'static str,
    /// What has been typed so far.
    pub input: String,
    /// Set when the last attempt to confirm was refused, so the reason can be
    /// shown without throwing away what was typed.
    pub error: Option<String>,
}

/// Board state as undo remembers it.
///
/// A whole-workspace copy rather than an inverse operation per action: it has
/// no per-action way to be wrong, and the cost is a clone of some text.
///
/// `active` and `selected` ride along so undoing something that happened on
/// another world puts you back where it happened, rather than leaving you
/// staring at a board that did not change.
pub struct Snapshot {
    pub boards: Vec<Board>,
    pub active: usize,
    pub selected: Option<u64>,
}

pub struct App {
    pub boards: Vec<Board>,
    pub active: usize,
    pub camera: Camera,
    /// Currently selected note (by id), if any.
    pub selected: Option<u64>,
    pub mode: Mode,
    /// A camera glide in flight, if any. `camera` is always where we are
    /// *going*; this is what stands between that and what is on screen.
    pub glide: Option<Glide>,
    /// Whether the key list is up.
    ///
    /// A flag beside the mode rather than a fourth [`Mode`], because help is
    /// something you put *over* what you were doing: closing it has to put you
    /// back in the note you were editing, and a mode you replaced cannot do
    /// that.
    pub help: bool,
    /// The live note editor, present only while in [`Mode::Edit`].
    pub editor: Option<TextEditor>,
    /// How far each note's text is scrolled: the wrapped rows sitting above its
    /// text area, by note id. A note with no entry is at the top.
    ///
    /// One per note rather than one for the app, so reading down a long note
    /// and then looking at another does not cost you your place in the first.
    pub scroll: HashMap<u64, usize>,
    pub drag: Option<Drag>,
    /// The board viewport from the last render, needed to interpret mouse
    /// positions and to center content. Zero until the first draw.
    pub viewport: Rect,
    /// The tab strip from the last render, so a click can land on a world.
    pub tabs: Rect,
    /// The open prompt, if any. Present exactly when the mode is [`Mode::Prompt`].
    pub prompt: Option<Prompt>,
    /// Have we centered the current board on screen yet?
    pub centered: bool,
    pub next_id: u64,
    pub color_tick: usize,
    /// Index of the active theme.
    pub theme_index: usize,
    /// Bumped by every change to note content or placement. The runner watches
    /// it to know when the board is worth writing to disk, so a crash costs at
    /// most the pin you were mid-drag on.
    pub revision: u64,
    /// Text waiting to go to the system clipboard. The app never writes to the
    /// terminal itself - the runner drains this and does the I/O.
    pub pending_copy: Option<String>,
    /// Worlds whose directories are waiting to be removed. As with
    /// `pending_copy`, the app names the work and the runner does it.
    pub pending_deletes: Vec<String>,
    /// A one-off message for the footer, cleared by the next event. A copy is
    /// otherwise completely invisible.
    pub status: Option<String>,
    /// A sticky warning for the footer, set once at startup and never cleared:
    /// a stopped sync must stay visible for the whole session.
    pub warning: Option<String>,
    /// Another pinz owns this board, so this session may look but not touch.
    /// Enforced at the end of every event, whose changes are undone rather than
    /// kept - a rule at one choke point rather than a list of forbidden keys
    /// that a new feature could quietly fall outside of.
    pub read_only: bool,
    /// Board states to go back to, oldest first. Capped at [`UNDO_DEPTH`].
    pub undo: VecDeque<Snapshot>,
    /// States undone past, newest last. Cleared by any fresh change.
    pub redo: Vec<Snapshot>,
    /// The state as it was before the event being handled. Held across a whole
    /// drag so a gesture becomes one undo step rather than one per mouse-move.
    pub pending: Option<Snapshot>,
    /// Where a pin would land if released now, set while a note drag hovers the
    /// tab strip. The renderer arms that tab.
    pub drop_target: Option<DropTarget>,
    pub should_quit: bool,
}

impl View for TabKind {
    type V = TabKindView;

    open spec fn view(&self) -> TabKindView {
        match self {
            TabKind::World { index, name, notes, active } => TabKindView::World {
                index: *index,
                name: name@,
                notes: *notes,
                active: *active,
            },
            TabKind::New => TabKindView::New,
        }
    }
}

impl View for Tab {
    type V = TabView;

    open spec fn view(&self) -> TabView {
        TabView { kind: self.kind@, x: self.x, width: self.width }
    }
}

impl View for Prompt {
    type V = PromptView;

    open spec fn view(&self) -> PromptView {
        PromptView {
            kind: self.kind,
            title: self.title@,
            hint: self.hint@,
            input: self.input@,
            error: opt_str(self.error),
        }
    }
}

impl View for Snapshot {
    type V = SnapshotView;

    open spec fn view(&self) -> SnapshotView {
        SnapshotView {
            boards: boards_view(self.boards@),
            active: self.active,
            selected: self.selected,
        }
    }
}

pub open spec fn snapshots_view(s: Seq<Snapshot>) -> Seq<SnapshotView> {
    Seq::new(s.len(), |i: int| s[i]@)
}

pub open spec fn opt_editor(e: Option<TextEditor>) -> Option<EditorState> {
    match e {
        Some(e) => Some(e@),
        None => None,
    }
}

pub open spec fn opt_prompt(p: Option<Prompt>) -> Option<PromptView> {
    match p {
        Some(p) => Some(p@),
        None => None,
    }
}

pub open spec fn opt_snapshot(s: Option<Snapshot>) -> Option<SnapshotView> {
    match s {
        Some(s) => Some(s@),
        None => None,
    }
}

impl View for App {
    type V = AppState;

    open spec fn view(&self) -> AppState {
        AppState {
            boards: boards_view(self.boards@),
            active: self.active,
            camera: self.camera,
            selected: self.selected,
            mode: self.mode,
            glide: self.glide,
            help: self.help,
            editor: opt_editor(self.editor),
            scroll: self.scroll@,
            drag: self.drag,
            viewport: self.viewport,
            tabs: self.tabs,
            prompt: opt_prompt(self.prompt),
            centered: self.centered,
            next_id: self.next_id,
            color_tick: self.color_tick,
            theme_index: self.theme_index,
            revision: self.revision,
            pending_copy: opt_str(self.pending_copy),
            pending_deletes: strs(self.pending_deletes@),
            status: opt_str(self.status),
            warning: opt_str(self.warning),
            read_only: self.read_only,
            undo: snapshots_view(self.undo@),
            redo: snapshots_view(self.redo@),
            pending: opt_snapshot(self.pending),
            drop_target: self.drop_target,
            should_quit: self.should_quit,
        }
    }
}

// ---- lists of boards ----

/// Replace a board's pin.
fn put_note(boards: &mut Vec<Board>, b: usize, i: usize, note: Note)
    requires
        b < old(boards)@.len(),
        i < old(boards)@[b as int].notes@.len(),
    ensures
        final(boards)@.len() == old(boards)@.len(),
        boards_view(final(boards)@) == boards_view(old(boards)@).update(
            b as int,
            BoardView {
                notes: old(boards)@[b as int]@.notes.update(i as int, note@),
                ..old(boards)@[b as int]@
            },
        ),
{
    let ghost before = boards@;
    boards[b].notes[i] = note;
    proof {
        assert(boards@[b as int]@.notes =~= before[b as int]@.notes.update(i as int, note@));
        assert(boards_view(boards@) =~= boards_view(before).update(
            b as int,
            BoardView {
                notes: before[b as int]@.notes.update(i as int, note@),
                ..before[b as int]@
            },
        ));
    }
}

/// Add a pin to a board.
fn push_note(boards: &mut Vec<Board>, b: usize, note: Note)
    requires
        b < old(boards)@.len(),
    ensures
        final(boards)@.len() == old(boards)@.len(),
        boards_view(final(boards)@) == boards_view(old(boards)@).update(
            b as int,
            BoardView {
                notes: old(boards)@[b as int]@.notes.push(note@),
                ..old(boards)@[b as int]@
            },
        ),
{
    let ghost before = boards@;
    boards[b].notes.push(note);
    proof {
        assert(boards@[b as int]@.notes =~= before[b as int]@.notes.push(note@));
        assert(boards_view(boards@) =~= boards_view(before).update(
            b as int,
            BoardView { notes: before[b as int]@.notes.push(note@), ..before[b as int]@ },
        ));
    }
}

/// Take a pin off a board.
fn take_note(boards: &mut Vec<Board>, b: usize, i: usize) -> (note: Note)
    requires
        b < old(boards)@.len(),
        i < old(boards)@[b as int].notes@.len(),
    ensures
        note@ == old(boards)@[b as int]@.notes[i as int],
        final(boards)@.len() == old(boards)@.len(),
        boards_view(final(boards)@) == boards_view(old(boards)@).update(
            b as int,
            BoardView {
                notes: old(boards)@[b as int]@.notes.remove(i as int),
                ..old(boards)@[b as int]@
            },
        ),
{
    let ghost before = boards@;
    let note = boards[b].notes.remove(i);
    proof {
        assert(boards@[b as int]@.notes =~= before[b as int]@.notes.remove(i as int));
        assert(boards_view(boards@) =~= boards_view(before).update(
            b as int,
            BoardView { notes: before[b as int]@.notes.remove(i as int), ..before[b as int]@ },
        ));
    }
    note
}

/// The first note with an id.
fn index_of(notes: &Vec<Note>, id: u64) -> (out: Option<usize>)
    ensures
        match out {
            Some(i) => i < notes@.len() && find_from(notes_view(notes@), id, 0) == Some(i as int)
                && notes@[i as int].id == id,
            None => find_from(notes_view(notes@), id, 0) is None,
        },
{
    let mut i: usize = 0;
    while i < notes.len()
        invariant
            i <= notes@.len(),
            find_from(notes_view(notes@), id, 0) == find_from(notes_view(notes@), id, i as int),
        decreases notes@.len() - i,
    {
        if notes[i].id == id {
            return Some(i);
        }
        i += 1;
    }
    None
}

/// The highest place in the stack.
fn highest(notes: &Vec<Note>) -> (z: u32)
    ensures
        z == top_z(notes_view(notes@)),
{
    let ghost all = notes_view(notes@);
    let mut z: u32 = 0;
    let mut i: usize = 0;
    while i < notes.len()
        invariant
            i <= notes@.len(),
            all == notes_view(notes@),
            z == top_z(all.take(i as int)),
        decreases notes@.len() - i,
    {
        proof {
            assert(all.take(i + 1).drop_last() =~= all.take(i as int));
        }
        if notes[i].z > z {
            z = notes[i].z;
        }
        i += 1;
    }
    proof {
        assert(all.take(all.len() as int) =~= all);
    }
    z
}

impl App {
    pub fn new(boards: Vec<Board>) -> (app: Self)
        requires
            boards@.len() >= 1,
            top_id_on(boards_view(boards@), boards@.len() as int) < u64::MAX,
        ensures
            app@ == AppState::opened(boards_view(boards@)),
            app@.wf(),
            app@.at_rest(),
    {
        let ghost all = boards_view(boards@);
        let mut top: u64 = 0;
        let mut b: usize = 0;
        while b < boards.len()
            invariant
                b <= boards@.len(),
                all == boards_view(boards@),
                top == top_id_on(all, b as int),
            decreases boards@.len() - b,
        {
            let ghost notes = all[b as int].notes;
            let mut here: u64 = 0;
            let mut i: usize = 0;
            while i < boards[b].notes.len()
                invariant
                    b < boards@.len(),
                    i <= boards@[b as int].notes@.len(),
                    notes == notes_view(boards@[b as int].notes@),
                    here == top_id(notes, i as int),
                decreases boards@[b as int].notes@.len() - i,
            {
                if boards[b].notes[i].id > here {
                    here = boards[b].notes[i].id;
                }
                i += 1;
            }
            if here > top {
                top = here;
            }
            b += 1;
        }
        let app = App {
            boards,
            active: 0,
            camera: Camera {
                origin: WorldPoint { x: 0, y: 0 },
                // Start at titles: enough notes on screen to read the board's
                // shape, close enough to know what each one is.
                zoom: ZoomLevel::Titles,
            },
            selected: None,
            mode: Mode::Nav,
            glide: None,
            help: false,
            editor: None,
            scroll: HashMap::new(),
            drag: None,
            viewport: Rect::default(),
            tabs: Rect::default(),
            prompt: None,
            centered: false,
            next_id: top + 1,
            color_tick: 0,
            theme_index: 0,
            revision: 0,
            pending_copy: None,
            pending_deletes: Vec::new(),
            status: None,
            warning: None,
            read_only: false,
            undo: VecDeque::new(),
            redo: Vec::new(),
            pending: None,
            drop_target: None,
            should_quit: false,
        };
        proof {
            assert(app@ =~= AppState::opened(all));
        }
        app
    }

    // ---- read access for the renderer ----

    pub fn boards(&self) -> (out: &[Board])
        ensures
            out@ == self.boards@,
    {
        &self.boards
    }

    /// Index of the active world.
    pub fn active_index(&self) -> (i: usize)
        ensures
            i == self@.active,
    {
        self.active
    }

    pub fn active_board(&self) -> (b: &Board)
        requires
            self@.wf(),
        ensures
            *b == self.boards@[self.active as int],
            b@ == self@.board(),
    {
        &self.boards[self.active]
    }

    /// The camera **as it appears on screen**, which is the target camera only
    /// when nothing is travelling.
    ///
    /// Drawing and hit-testing both read this, so a click during a glide lands
    /// on the pin you can see rather than one that has not arrived yet.
    pub fn camera(&self) -> (c: Camera)
        requires
            self@.wf(),
            near(self@.camera.origin, 4 * pin_limit()),
            self@.glide matches Some(g) ==> near(g.from, 4 * pin_limit()),
        ensures
            c == self@.shown(),
            near(c.origin, 4 * pin_limit()),
    {
        let glide = match self.glide {
            None => return self.camera,
            Some(g) => g,
        };
        // Ease out: the board decelerates into place rather than stopping dead.
        let left: i128 = 14_000 - (glide.elapsed / 10_000) as i128;
        proof {
            lemma_eased(left as int);
        }
        let part: i128 = 2_744_000_000_000 - left * left * left;
        Camera {
            origin: WorldPoint {
                x: part_way(glide.from.x, self.camera.origin.x, part),
                y: part_way(glide.from.y, self.camera.origin.y, part),
            },
            zoom: self.camera.zoom,
        }
    }

    /// Whether anything is moving. The runner blocks for input unless this is
    /// true, which is what keeps pinz at zero CPU sitting open on a desk.
    pub fn animating(&self) -> (r: bool)
        ensures
            r == (self@.glide is Some),
    {
        self.glide.is_some()
    }

    /// Advance any animation by `dt` nanoseconds.
    ///
    /// Elapsed time is handed in rather than read, so `App` keeps its promise
    /// to be a state machine with no I/O, and tests advance time explicitly
    /// instead of sleeping. Deliberately does not touch `revision`: the runner
    /// writes pins to disk when that moves, and a glide changes no board data.
    pub fn tick(&mut self, dt: u64)
        requires
            old(self)@.wf(),
        ensures
            final(self)@ == old(self)@.tick(dt),
            final(self)@.wf(),
    {
        if let Some(g) = self.glide {
            if dt >= GLIDE - g.elapsed {
                self.glide = None;
            } else {
                self.glide = Some(Glide { from: g.from, elapsed: g.elapsed + dt });
            }
        }
    }

    pub fn zoom(&self) -> (z: ZoomLevel)
        ensures
            z == self@.camera.zoom,
    {
        self.camera.zoom
    }

    pub fn selected(&self) -> (id: Option<u64>)
        ensures
            id == self@.selected,
    {
        self.selected
    }

    pub fn mode(&self) -> (m: Mode)
        ensures
            m == self@.mode,
    {
        self.mode
    }

    /// The live note editor, for the renderer to draw with a cursor. `Some`
    /// only while editing.
    pub fn editor(&self) -> (e: Option<&TextEditor>)
        ensures
            match e {
                Some(e) => self@.editor == Some(e@),
                None => self@.editor is None,
            },
    {
        self.editor.as_ref()
    }

    pub fn should_quit(&self) -> (r: bool)
        ensures
            r == self@.should_quit,
    {
        self.should_quit
    }

    /// Where a dragged pin would land, for the renderer to arm that tab and put
    /// the pin under the cursor.
    pub fn drop_target(&self) -> (t: Option<DropTarget>)
        ensures
            t == self@.drop_target,
    {
        self.drop_target
    }

    /// The note currently being dragged, so the renderer can name it.
    pub fn dragging_note(&self) -> (n: Option<&Note>)
        requires
            self@.wf(),
        ensures
            match self@.drag {
                Some(Drag::Note { id, off_x: _, off_y: _ }) => match self@.note(id) {
                    Some(v) => n matches Some(n) && n@ == v,
                    None => n is None,
                },
                _ => n is None,
            },
    {
        if let Some(Drag::Note { id, off_x: _, off_y: _ }) = self.drag {
            self.find(id)
        } else {
            None
        }
    }

    /// A pin of the active world.
    fn find(&self, id: u64) -> (n: Option<&Note>)
        requires
            self@.wf(),
        ensures
            match self@.note(id) {
                Some(v) => n matches Some(n) && n@ == v && n.id == id,
                None => n is None,
            },
    {
        let notes = &self.active_board().notes;
        match index_of(notes, id) {
            Some(i) => Some(&notes[i]),
            None => None,
        }
    }

    /// The board viewport from the last render.
    pub fn viewport(&self) -> (r: Rect)
        ensures
            r == self@.viewport,
    {
        self.viewport
    }

    /// A one-off message for the footer, if the last event produced one.
    pub fn status(&self) -> (s: Option<&str>)
        ensures
            match s {
                Some(s) => self@.status == Some(s@),
                None => self@.status is None,
            },
    {
        match &self.status {
            Some(s) => Some(s.as_str()),
            None => None,
        }
    }

    /// Take the text waiting to go to the clipboard, if any. The runner calls
    /// this after each event; a copy is delivered exactly once.
    pub fn take_pending_copy(&mut self) -> (out: Option<String>)
        ensures
            opt_str(out) == old(self)@.pending_copy,
            final(self)@ == (AppState { pending_copy: None, ..old(self)@ }),
    {
        self.pending_copy.take()
    }

    /// Take the worlds waiting to be removed from the store. The runner calls
    /// this immediately before a save, so the save that follows is the one that
    /// puts back anything an undo has since brought back.
    pub fn take_pending_deletes(&mut self) -> (out: Vec<String>)
        ensures
            strs(out@) == old(self)@.pending_deletes,
            final(self)@ == (AppState { pending_deletes: Seq::empty(), ..old(self)@ }),
    {
        let mut out: Vec<String> = Vec::new();
        std::mem::swap(&mut out, &mut self.pending_deletes);
        proof {
            assert(strs(self.pending_deletes@) =~= Seq::<Seq<char>>::empty());
        }
        out
    }

    /// Say something in the footer. For the runner, which finds out whether a
    /// copy actually reached the terminal after the app has stopped looking.
    pub fn set_status(&mut self, message: String)
        ensures
            final(self)@ == old(self)@.with_status(message@),
    {
        self.status = Some(message);
    }

    /// The sticky warning, if this session has one.
    pub fn warning(&self) -> (s: Option<&str>)
        ensures
            match s {
                Some(s) => self@.warning == Some(s@),
                None => self@.warning is None,
            },
    {
        match &self.warning {
            Some(s) => Some(s.as_str()),
            None => None,
        }
    }

    /// Put a warning in the footer for the rest of the session. For the
    /// runner, when a sync stops and the board is running local-only.
    pub fn set_warning(&mut self, message: String)
        ensures
            final(self)@ == (AppState { warning: Some(message@), ..old(self)@ }),
    {
        self.warning = Some(message);
    }

    /// Is this session forbidden from changing the board?
    pub fn read_only(&self) -> (r: bool)
        ensures
            r == self@.read_only,
    {
        self.read_only
    }

    /// Refuse every change for the rest of the session. For the runner, when
    /// another pinz already owns this board.
    pub fn set_read_only(&mut self, read_only: bool)
        ensures
            final(self)@ == (AppState { read_only, ..old(self)@ }),
    {
        self.read_only = read_only;
    }

    /// Counter of changes to the boards. Compare it across events to know
    /// whether anything worth persisting happened.
    pub fn revision(&self) -> (r: u64)
        ensures
            r == self@.revision,
    {
        self.revision
    }

    /// Whether a drag is in flight. Saving mid-drag would write a file per
    /// mouse-move; the runner waits for the gesture to finish.
    pub fn is_dragging(&self) -> (r: bool)
        ensures
            r == (self@.drag is Some),
    {
        self.drag.is_some()
    }

    /// Whether the key list is up, for the renderer to draw over everything.
    pub fn help(&self) -> (r: bool)
        ensures
            r == self@.help,
    {
        self.help
    }

    /// The open prompt, for the renderer to draw. `Some` only in [`Mode::Prompt`].
    pub fn prompt(&self) -> (p: Option<&Prompt>)
        ensures
            match p {
                Some(p) => self@.prompt == Some(p@),
                None => self@.prompt is None,
            },
    {
        self.prompt.as_ref()
    }

    /// Record where the tab strip was drawn, so clicks on it can be resolved.
    pub fn set_tabs_area(&mut self, area: Rect)
        ensures
            final(self)@ == (AppState { tabs: area, ..old(self)@ }),
    {
        self.tabs = area;
    }

    /// The active theme.
    pub fn theme(&self) -> (t: Theme)
        requires
            self@.wf(),
        ensures
            t.index == self@.theme_index,
            t.name@ == crate::theme::theme_name(self@.theme_index as int),
    {
        theme_at(self.theme_index)
    }

    /// Select a theme by (loose, case-insensitive) name; ignored if no match.
    /// Used at launch to honor a `--theme` argument. Returns whether it stuck.
    pub fn set_theme_by_name(&mut self, name: &str) -> (stuck: bool)
        requires
            old(self)@.wf(),
        ensures
            stuck == (crate::theme::theme_named(name@, 0) is Some),
            final(self)@ == old(self)@.set_theme_by_name(name@),
            final(self)@.wf(),
    {
        match index_by_name(name) {
            Some(i) => {
                self.theme_index = i;
                true
            },
            None => false,
        }
    }
}

proof fn lemma_eased(left: int)
    requires
        0 <= left <= 14_000,
    ensures
        0 <= left * left <= 196_000_000,
        0 <= left * left * left <= 2_744_000_000_000,
{
    assert(0 <= left * left <= 14_000 * 14_000) by (nonlinear_arith)
        requires
            0 <= left <= 14_000,
    ;
    assert(0 <= left * left * left <= 196_000_000 * 14_000) by (nonlinear_arith)
        requires
            0 <= left <= 14_000,
            0 <= left * left <= 196_000_000,
    ;
}

/// A point part of the way from one coordinate to another.
fn part_way(from: i128, to: i128, part: i128) -> (x: i128)
    requires
        0 <= part <= 2_744_000_000_000,
        -4 * pin_limit() <= from <= 4 * pin_limit(),
        -4 * pin_limit() <= to <= 4 * pin_limit(),
    ensures
        x == blend(from as int, to as int, part as int),
        -4 * pin_limit() <= x <= 4 * pin_limit(),
{
    let d: i128 = to - from;
    proof {
        lemma_blend(from as int, to as int, part as int);
        assert(-56_000_000_000_000_000_000_000_000 * 2_744_000_000_000 <= d * part
            <= 56_000_000_000_000_000_000_000_000 * 2_744_000_000_000) by (nonlinear_arith)
            requires
                -56_000_000_000_000_000_000_000_000 <= d <= 56_000_000_000_000_000_000_000_000,
                0 <= part <= 2_744_000_000_000,
        ;
    }
    from + floor_div(d * part, 2_744_000_000_000)
}

/// A blend lies between its ends.
proof fn lemma_blend(from: int, to: int, part: int)
    requires
        0 <= part <= journey(),
    ensures
        from <= to ==> from <= blend(from, to, part) <= to,
        to <= from ==> to <= blend(from, to, part) <= from,
{
    let d = to - from;
    let j = journey();
    if d >= 0 {
        assert(0 <= d * part <= d * j) by (nonlinear_arith)
            requires
                d >= 0,
                0 <= part <= j,
        ;
    } else {
        assert(d * j <= d * part <= 0) by (nonlinear_arith)
            requires
                d < 0,
                0 <= part <= j,
        ;
    }
}

// ---- room ----

fn point_near(x: i128, y: i128, limit: i128) -> (r: bool)
    requires
        0 <= limit,
    ensures
        r == near(WorldPoint { x, y }, limit as int),
{
    -limit <= x && x <= limit && -limit <= y && y <= limit
}

fn board_is_within(b: &Board, limit: i128) -> (r: bool)
    requires
        0 <= limit,
    ensures
        r == board_within(b@, limit as int),
{
    let ghost notes = b@.notes;
    let mut i: usize = 0;
    while i < b.notes.len()
        invariant
            0 <= limit,
            i <= b.notes@.len(),
            notes == notes_view(b.notes@),
            forall|k: int| 0 <= k < i ==> near((#[trigger] notes[k]).position(), limit as int),
        decreases b.notes@.len() - i,
    {
        assert(notes[i as int] == b.notes@[i as int]@);
        if !point_near(b.notes[i].x, b.notes[i].y, limit) {
            return false;
        }
        i += 1;
    }
    true
}

fn boards_are_within(boards: &Vec<Board>, limit: i128) -> (r: bool)
    requires
        0 <= limit,
    ensures
        r == boards_within(boards_view(boards@), limit as int),
{
    let ghost all = boards_view(boards@);
    let mut i: usize = 0;
    while i < boards.len()
        invariant
            0 <= limit,
            i <= boards@.len(),
            all == boards_view(boards@),
            forall|k: int| 0 <= k < i ==> board_within(#[trigger] all[k], limit as int),
        decreases boards@.len() - i,
    {
        assert(all[i as int] == boards@[i as int]@);
        if !board_is_within(&boards[i], limit) {
            return false;
        }
        i += 1;
    }
    true
}

impl App {
    /// Whether the next event can be handled: every counter can still count,
    /// every board can take one more pin, and no coordinate is at the edge of what
    /// a machine can hold.
    pub fn has_room(&self) -> (r: bool)
        requires
            self@.wf(),
        ensures
            r == self@.has_room(),
    {
        let pins: i128 = 7_000_000_000_000_000_000_000_000;
        let far: i128 = 14_000_000_000_000_000_000_000_000;
        let counters = self.revision <= u64::MAX - 8 && self.next_id < u64::MAX && self.color_tick
            < usize::MAX;
        let glide = match self.glide {
            Some(g) => point_near(g.from.x, g.from.y, far),
            None => true,
        };
        let drag = match self.drag {
            Some(Drag::Pan { col: _, row: _, origin }) => point_near(origin.x, origin.y, far),
            _ => true,
        };
        let areas = self.viewport.width <= u16::MAX - self.viewport.x && self.viewport.height
            <= u16::MAX - self.viewport.y && self.tabs.width <= u16::MAX - self.tabs.x
            && self.tabs.height <= u16::MAX - self.tabs.y;
        let prompt = match &self.prompt {
            Some(p) => p.kind != PromptKind::DeleteWorld || self.boards.len() >= 2,
            None => true,
        };
        let pending = match &self.pending {
            Some(s) => boards_are_within(&s.boards, pins),
            None => true,
        };
        counters && glide && drag && areas && prompt && pending && point_near(
            self.camera.origin.x,
            self.camera.origin.y,
            far,
        ) && self.boards_have_room(pins) && self.memory_has_room(pins)
    }

    /// Whether the boards leave room: their pins, and their tabs.
    fn boards_have_room(&self, pins: i128) -> (r: bool)
        requires
            pins == pin_limit(),
        ensures
            r == (boards_within(self@.boards, pin_limit()) && crate::state::all_roomy(
                self@.boards,
            ) && strip_end(self@.boards, self@.boards.len() as int) + NEW_TAB_WIDTH <= u16::MAX),
    {
        if !boards_are_within(&self.boards, pins) {
            return false;
        }
        let ghost all = self@.boards;
        let mut end: u64 = 1;
        let mut i: usize = 0;
        while i < self.boards.len()
            invariant
                i <= self.boards@.len(),
                all == boards_view(self.boards@),
                forall|k: int|
                    0 <= k < i ==> crate::state::roomy((#[trigger] all[k]).notes),
                end == strip_end(all, i as int),
                end <= u16::MAX - NEW_TAB_WIDTH,
            decreases self.boards@.len() - i,
        {
            assert(all[i as int] == self.boards@[i as int]@);
            if self.boards[i].notes.len() == usize::MAX {
                return false;
            }
            let name: usize = chars_of(&self.boards[i].name).len();
            proof {
                lemma_strip_grows(all, i + 1, all.len() as int);
            }
            if name > 65_535 {
                return false;
            }
            end = end + 4 + name as u64 + digits(self.boards[i].notes.len() as u64) as u64;
            if end > (u16::MAX - NEW_TAB_WIDTH) as u64 {
                return false;
            }
            i += 1;
        }
        true
    }

    /// Whether the remembered boards leave room.
    fn memory_has_room(&self, pins: i128) -> (r: bool)
        requires
            self@.wf(),
            pins == pin_limit(),
        ensures
            r == (snapshots_ok(self@.undo, pin_limit()) && snapshots_ok(self@.redo, pin_limit())),
    {
        let ghost undo = self@.undo;
        let ghost redo = self@.redo;
        let mut i: usize = 0;
        while i < self.undo.len()
            invariant
                pins == pin_limit(),
                self@.wf(),
                i <= self.undo@.len(),
                undo == self@.undo,
                forall|k: int| 0 <= k < i ==> snapshot_ok(#[trigger] undo[k], pin_limit()),
            decreases self.undo@.len() - i,
        {
            assert(undo[i as int] == self.undo@[i as int]@);
            if !boards_are_within(&self.undo[i].boards, pins) {
                return false;
            }
            i += 1;
        }
        let mut j: usize = 0;
        while j < self.redo.len()
            invariant
                pins == pin_limit(),
                self@.wf(),
                j <= self.redo@.len(),
                redo == self@.redo,
                forall|k: int| 0 <= k < j ==> snapshot_ok(#[trigger] redo[k], pin_limit()),
            decreases self.redo@.len() - j,
        {
            assert(redo[j as int] == self.redo@[j as int]@);
            if !boards_are_within(&self.redo[j].boards, pins) {
                return false;
            }
            j += 1;
        }
        true
    }

    /// The tab strip: one span per world, then the `+`. Widths here are what the
    /// renderer must draw, so hit-testing stays exact.
    pub fn tabs(&self) -> (out: Vec<Tab>)
        requires
            self@.wf(),
            strip_end(self@.boards, self@.boards.len() as int) + NEW_TAB_WIDTH <= u16::MAX,
        ensures
            tabs_view(out@) == tabs_of(self@.boards, self@.active),
    {
        let ghost all = self@.boards;
        let mut out: Vec<Tab> = Vec::new();
        let mut x: u16 = 1;  // the strip opens with a space
        let mut index: usize = 0;
        while index < self.boards.len()
            invariant
                index <= self.boards@.len(),
                all == boards_view(self.boards@),
                strip_end(all, all.len() as int) + NEW_TAB_WIDTH <= u16::MAX,
                x == strip_end(all, index as int),
                out@.len() == index,
                forall|k: int|
                    0 <= k < index ==> (#[trigger] out@[k])@ == world_tab(all, self.active, k),
            decreases self.boards@.len() - index,
        {
            let board = &self.boards[index];
            assert(all[index as int] == board@);
            proof {
                lemma_strip_grows(all, index + 1, all.len() as int);
            }
            // marker + "name " + "count  "
            let name: usize = chars_of(&board.name).len();
            let width: u16 = 4 + name as u16 + digits(board.notes.len() as u64);
            out.push(
                Tab {
                    kind: TabKind::World {
                        index,
                        name: board.name.clone(),
                        notes: board.notes.len(),
                        active: index == self.active,
                    },
                    x,
                    width,
                },
            );
            x = x + width;
            index += 1;
        }
        // At the limit the + could only ever refuse, so the strip simply ends
        // after the ninth world. Both the renderer and hit-testing read this
        // list, so the button and its click target disappear together.
        if self.boards.len() < MAX_WORLDS {
            out.push(Tab { kind: TabKind::New, x, width: NEW_TAB_WIDTH });
        }
        proof {
            assert(tabs_view(out@) =~= tabs_of(all, self.active));
        }
        out
    }
}

pub open spec fn tabs_view(tabs: Seq<Tab>) -> Seq<TabView> {
    Seq::new(tabs.len(), |i: int| tabs[i]@)
}

/// More tabs never end sooner.
pub proof fn lemma_strip_grows(boards: Seq<BoardView>, m: int, n: int)
    requires
        0 <= m <= n,
    ensures
        1 <= strip_end(boards, m) <= strip_end(boards, n),
    decreases n,
{
    if n > m {
        lemma_strip_grows(boards, m, n - 1);
    } else if n > 0 {
        lemma_strip_grows(boards, m - 1, n - 1);
    }
}

// ---- camera ----

/// The bounding box of pins near the origin is near the origin.
proof fn lemma_bounds_near(notes: Seq<NoteView>, limit: int)
    requires
        notes.len() >= 1,
        forall|i: int| 0 <= i < notes.len() ==> near((#[trigger] notes[i]).position(), limit),
    ensures
        -limit <= crate::model::min_x(notes) <= limit,
        -limit <= crate::model::min_y(notes) <= limit,
        -limit <= crate::model::max_x(notes) - 1_428_000 <= limit,
        -limit <= crate::model::max_y(notes) - 1_071_000 <= limit,
    decreases notes.len(),
{
    assert(near(notes.last().position(), limit));
    if notes.len() > 1 {
        let front = notes.drop_last();
        assert forall|i: int| 0 <= i < front.len() implies near(
            (#[trigger] front[i]).position(),
            limit,
        ) by {
            assert(front[i] == notes[i]);
        }
        lemma_bounds_near(front, limit);
    }
}

/// A board whose pins are near the origin has coordinates to spare.
pub proof fn lemma_board_fits(b: BoardView, limit: int)
    requires
        board_within(b, limit),
        0 <= limit <= 3 * pin_limit(),
    ensures
        b.fits(),
        b.notes.len() >= 1 ==> -limit <= crate::model::min_x(b.notes) <= limit && -limit
            <= crate::model::min_y(b.notes) <= limit && -limit <= crate::model::max_x(b.notes)
            - 1_428_000 <= limit && -limit <= crate::model::max_y(b.notes) - 1_071_000 <= limit,
{
    assert forall|i: int| 0 <= i < b.notes.len() implies (#[trigger] b.notes[i]).fits() by {
        assert(near(b.notes[i].position(), limit));
    }
    if b.notes.len() >= 1 {
        lemma_bounds_near(b.notes, limit);
    }
}

/// The viewport is not so wide or tall that its size in grains runs away.
pub proof fn lemma_span(n: int, z: ZoomLevel)
    requires
        0 <= n <= 65_535,
    ensures
        0 <= n * pitch_x(z) <= 65_535 * 148_750,
        0 <= n * pitch_y(z) <= 65_535 * 297_500,
        0 <= n * (pitch_x(z) / 2) <= 65_535 * 74_375,
        0 <= n * (pitch_y(z) / 2) <= 65_535 * 148_750,
{
    let px = pitch_x(z);
    let py = pitch_y(z);
    assert(0 <= n * px <= 65_535 * 148_750) by (nonlinear_arith)
        requires
            0 <= n <= 65_535,
            0 <= px <= 148_750,
    ;
    assert(0 <= n * py <= 65_535 * 297_500) by (nonlinear_arith)
        requires
            0 <= n <= 65_535,
            0 <= py <= 297_500,
    ;
    assert(0 <= n * (px / 2) <= 65_535 * 74_375) by (nonlinear_arith)
        requires
            0 <= n <= 65_535,
            0 <= px / 2 <= 74_375,
    ;
    assert(0 <= n * (py / 2) <= 65_535 * 148_750) by (nonlinear_arith)
        requires
            0 <= n <= 65_535,
            0 <= py / 2 <= 148_750,
    ;
}

fn pull_in(v: i128, lo: i128, hi: i128) -> (r: i128)
    ensures
        r == clamp(v as int, lo as int, hi as int),
{
    if v < lo {
        lo
    } else if v > hi {
        hi
    } else {
        v
    }
}

/// A count of cells as grains, horizontally and vertically.
fn grains(cols: i128, rows: i128, z: ZoomLevel) -> (g: (i128, i128))
    requires
        -65_535 <= cols <= 65_535,
        -65_535 <= rows <= 65_535,
    ensures
        g.0 == cols * pitch_x(z),
        g.1 == rows * pitch_y(z),
        -65_535 * 148_750 <= g.0 <= 65_535 * 148_750,
        -65_535 * 297_500 <= g.1 <= 65_535 * 297_500,
{
    let (px, py) = pitch(z);
    proof {
        let (c, r) = (cols as int, rows as int);
        assert(-65_535 * 148_750 <= c * px <= 65_535 * 148_750) by (nonlinear_arith)
            requires
                -65_535 <= c <= 65_535,
                0 <= px <= 148_750,
        ;
        assert(-65_535 * 297_500 <= r * py <= 65_535 * 297_500) by (nonlinear_arith)
            requires
                -65_535 <= r <= 65_535,
                0 <= py <= 297_500,
        ;
    }
    (cols * px, rows * py)
}

/// Half a viewport in grains, horizontally and vertically.
fn half_view(viewport: Rect, z: ZoomLevel) -> (g: (i128, i128))
    ensures
        g.0 == half_w(viewport, z),
        g.1 == half_h(viewport, z),
        0 <= g.0 <= 65_535 * 74_375,
        0 <= g.1 <= 65_535 * 148_750,
{
    let (px, py) = pitch(z);
    proof {
        lemma_span(viewport.width as int, z);
        lemma_span(viewport.height as int, z);
    }
    (viewport.width as i128 * (px / 2), viewport.height as i128 * (py / 2))
}

impl App {
    /// The camera as it appears on screen, bound to the viewport.
    pub fn screen_view(&self) -> (v: view::View)
        requires
            self@.safe(),
        ensures
            v.wf(),
            v.proj.camera == self@.shown(),
            v.area == self@.viewport,
            near(v.proj.camera.origin, 4 * pin_limit()),
    {
        view::View::new(self.camera(), self.viewport)
    }

    /// The world point under a terminal cell.
    pub fn world_at(&self, col: u16, row: u16) -> (w: WorldPoint)
        requires
            self@.safe(),
        ensures
            w == self@.world_at(col, row),
            near(w, 4 * pin_limit() + 65_535 * 297_500),
            forall|limit: int|
                65_535 * 297_500 <= limit && #[trigger] near(self@.shown().origin, limit) ==> near(
                    w,
                    limit + 65_535 * 297_500,
                ),
    {
        let v = self.screen_view();
        proof {
            lemma_cells_span(v.proj.camera.zoom, col - v.area.x, row - v.area.y);
        }
        v.world_at(col, row)
    }

    /// Move the camera to an origin, soft-clamped so the note cloud can't be
    /// panned entirely off-screen. With no notes, there's nothing to hold onto -
    /// leave it be.
    fn set_origin(&mut self, o: WorldPoint)
        requires
            old(self)@.safe(),
            near(o, 4 * pin_limit()),
        ensures
            final(self)@ == old(self)@.with_origin(o),
            final(self)@.safe(),
    {
        proof {
            reveal(held);
            assert(board_within(self@.boards[self.active as int], 3 * pin_limit()));
            lemma_board_fits(self@.board(), 3 * pin_limit());
            lemma_span(self.viewport.width as int, self.camera.zoom);
            lemma_span(self.viewport.height as int, self.camera.zoom);
        }
        match self.active_board().bounds() {
            None => {
                self.camera.origin = o;
            },
            Some((min, max)) => {
                let (view_w, view_h) = grains(
                    self.viewport.width as i128,
                    self.viewport.height as i128,
                    self.camera.zoom,
                );
                let margin: i128 = 571_200;
                let lo_x: i128 = min.x - margin;
                let lo_y: i128 = min.y - margin;
                let far_x: i128 = max.x + margin - view_w;
                let far_y: i128 = max.y + margin - view_h;
                let hi_x: i128 = if far_x > lo_x {
                    far_x
                } else {
                    lo_x
                };
                let hi_y: i128 = if far_y > lo_y {
                    far_y
                } else {
                    lo_y
                };
                self.camera.origin = WorldPoint {
                    x: pull_in(o.x, lo_x, hi_x),
                    y: pull_in(o.y, lo_y, hi_y),
                };
            },
        }
    }

    fn clamp_origin(&mut self)
        requires
            old(self)@.safe(),
        ensures
            final(self)@ == old(self)@.clamp_origin(),
            final(self)@.safe(),
    {
        let o = self.camera.origin;
        self.set_origin(o);
    }

    /// Send the camera to a new origin as a jump: it travels rather than cuts.
    ///
    /// The glide starts from what is currently *on screen*, so a second jump
    /// mid-flight carries on from where the eye is instead of lurching back to
    /// where the last one began.
    fn glide_to(&mut self, origin: WorldPoint)
        requires
            old(self)@.safe(),
            near(origin, 4 * pin_limit()),
        ensures
            final(self)@ == old(self)@.glide_to(origin),
            final(self)@.safe(),
    {
        let shown = self.camera().origin;
        self.set_origin(origin);
        self.glide = if self.camera.origin != shown {
            Some(Glide { from: shown, elapsed: 0 })
        } else {
            None
        };
    }

    /// Put one pin in the middle of the viewport.
    ///
    /// The pan margin can pull it off-centre for a pin near the edge of the
    /// board; that is the same margin every other camera move obeys, not a
    /// rule of its own.
    fn center_on_note(&mut self, id: u64)
        requires
            old(self)@.safe(),
        ensures
            final(self)@ == old(self)@.center_on_note(id),
            final(self)@.safe(),
            final(self)@.revision == old(self)@.revision,
    {
        reveal(AppState::center_on_note);
        if let Some(origin) = self.centered_origin(id) {
            self.glide_to(origin);
        }
    }

    /// The origin that puts one pin in the middle of the viewport, at the
    /// current zoom. Unclamped; every caller clamps it.
    fn centered_origin(&self, id: u64) -> (o: Option<WorldPoint>)
        requires
            self@.safe(),
        ensures
            o == self@.centered_origin(id),
            o matches Some(p) ==> near(p, 4 * pin_limit()),
    {
        proof {
            self.lemma_found(id);
        }
        let (hw, hh) = half_view(self.viewport, self.camera.zoom);
        match self.find(id) {
            None => None,
            Some(n) => Some(WorldPoint { x: n.x + 714_000 - hw, y: n.y + 535_500 - hh }),
        }
    }

    /// A pin that is found is one of the board's.
    proof fn lemma_found(&self, id: u64)
        requires
            self@.safe(),
        ensures
            self@.note(id) matches Some(n) ==> near(n.position(), 3 * pin_limit()),
            find_from(self@.notes(), id, 0) matches Some(i) ==> 0 <= i < self@.notes().len(),
    {
        lemma_find_from(self@.notes(), id, 0);
        assert(board_within(self@.boards[self.active as int], 3 * pin_limit()));
        if let Some(i) = find_from(self@.notes(), id, 0) {
            assert(near(self@.notes()[i].position(), 3 * pin_limit()));
        }
    }

    /// Put a pin on screen if it is not already, by centring it.
    ///
    /// A pin you can already see does not move the board at all: stepping
    /// between neighbours should stay calm, and you keep your sense of where
    /// you are.
    ///
    /// When the board *does* have to move it centres, rather than scrolling the
    /// least that makes the pin fit: where a pin ends up should not depend on
    /// which direction you approached it from.
    fn bring_into_view(&mut self, id: u64)
        requires
            old(self)@.safe(),
        ensures
            final(self)@ == old(self)@.bring_into_view(id),
            final(self)@.safe(),
            final(self)@.revision == old(self)@.revision,
    {
        reveal(AppState::bring_into_view);
        proof {
            self.lemma_found(id);
            lemma_span(self.viewport.width as int, self.camera.zoom);
            lemma_span(self.viewport.height as int, self.camera.zoom);
        }
        let (view_w, view_h) = grains(
            self.viewport.width as i128,
            self.viewport.height as i128,
            self.camera.zoom,
        );
        let origin = self.camera.origin;
        let on_screen = match self.find(id) {
            None => return,
            Some(n) => n.x >= origin.x && n.x + NOTE_W <= origin.x + view_w && n.y >= origin.y
                && n.y + NOTE_H <= origin.y + view_h,
        };
        if !on_screen {
            self.center_on_note(id);
        }
    }

    /// Pan by whole cells.
    fn pan_cells(&mut self, dx: i128, dy: i128)
        requires
            old(self)@.safe(),
            near(old(self)@.camera.origin, 2 * pin_limit()),
            -4 <= dx <= 4,
            -4 <= dy <= 4,
        ensures
            final(self)@ == old(self)@.pan_cells(dx as int, dy as int),
            final(self)@.safe(),
            final(self)@.revision == old(self)@.revision,
    {
        reveal(AppState::pan_cells);
        self.glide = None;  // a manipulation, not a jump: 1:1 or it reads as lag
        let (gx, gy) = grains(dx, dy, self.camera.zoom);
        let o = self.camera.origin;
        self.set_origin(WorldPoint { x: o.x + gx, y: o.y + gy });
    }

    pub fn center_on_content(&mut self)
        requires
            old(self)@.safe(),
        ensures
            final(self)@ == old(self)@.center_on_content(),
            final(self)@.safe(),
    {
        // Opening a board, or arriving in a new world: there is no continuous
        // space between where you were and here to travel through.
        self.glide = None;
        proof {
            assert(board_within(self@.boards[self.active as int], 3 * pin_limit()));
            lemma_board_fits(self@.board(), 3 * pin_limit());
        }
        let (hw, hh) = half_view(self.viewport, self.camera.zoom);
        let center = self.active_board().content_center();
        self.set_origin(WorldPoint { x: center.x - hw, y: center.y - hh });
    }

    /// Record the viewport the board was last drawn into, and center the board
    /// the first time we know how big it is.
    pub fn set_viewport(&mut self, area: Rect)
        requires
            old(self)@.safe(),
            area.fits(),
        ensures
            final(self)@ == old(self)@.set_viewport(area),
            final(self)@.safe(),
    {
        self.viewport = area;
        if !self.centered && area.width > 0 && area.height > 0 {
            self.center_on_content();
            self.centered = true;
        }
    }

    /// One zoom step toward or away, keeping the cell under `(col,row)` fixed,
    /// so the board doesn't lurch.
    fn zoom_at(&mut self, zoom_in: bool, col: u16, row: u16)
        requires
            old(self)@.safe(),
            near(old(self)@.camera.origin, 2 * pin_limit()),
        ensures
            final(self)@ == old(self)@.zoom_at(zoom_in, col, row),
            final(self)@.safe(),
            final(self)@.revision == old(self)@.revision,
    {
        reveal(AppState::zoom_at);
        let target = if zoom_in {
            self.camera.zoom.zoomed_in()
        } else {
            self.camera.zoom.zoomed_out()
        };
        if target == self.camera.zoom {
            return;
        }
        // Zoom cuts, so the origin shift that comes with it cuts too: gliding
        // the pan while the scale jumps under it looks worse than either.
        self.glide = None;
        let ghost start = self@;
        let anchor = self.world_at(col, row);
        assert(near(start.shown().origin, 2 * pin_limit()));
        self.camera.zoom = target;
        // Shift the origin so `anchor` lands back under the same cell.
        let now = self.world_at(col, row);
        assert(near(self@.shown().origin, 2 * pin_limit()));
        let o = self.camera.origin;
        proof {
            lemma_cells_span(start.camera.zoom, col - start.viewport.x, row - start.viewport.y);
            lemma_cells_span(target, col - start.viewport.x, row - start.viewport.y);
        }
        self.set_origin(WorldPoint { x: o.x + (anchor.x - now.x), y: o.y + (anchor.y - now.y) });
    }

    /// Zoom one step and leave `id` centred. The pan cuts along with the zoom
    /// for the same reason `zoom_at` kills a glide: a board still travelling
    /// while the scale jumps under it reads as a lurch.
    fn zoom_onto_note(&mut self, zoom_in: bool, id: u64)
        requires
            old(self)@.safe(),
        ensures
            final(self)@ == old(self)@.zoom_onto_note(zoom_in, id),
            final(self)@.safe(),
            final(self)@.revision == old(self)@.revision,
    {
        reveal(AppState::zoom_onto_note);
        let target = if zoom_in {
            self.camera.zoom.zoomed_in()
        } else {
            self.camera.zoom.zoomed_out()
        };
        if target == self.camera.zoom {
            return;
        }
        self.glide = None;
        self.camera.zoom = target;
        // After the zoom: the centred origin depends on the new scale.
        if let Some(origin) = self.centered_origin(id) {
            self.set_origin(origin);
        }
    }

    /// One zoom step from the keyboard.
    ///
    /// With a pin selected the zoom is *about that pin*: it ends up in the
    /// middle of the viewport, because `+` on a selection means "look closer at
    /// this one" and not "look closer at whatever the middle of the screen
    /// happened to hold". With nothing selected there is no such subject, so
    /// the middle of the view is the focal point.
    fn zoom_at_center(&mut self, zoom_in: bool)
        requires
            old(self)@.safe(),
            near(old(self)@.camera.origin, 2 * pin_limit()),
        ensures
            final(self)@ == old(self)@.zoom_at_center(zoom_in),
            final(self)@.safe(),
            final(self)@.revision == old(self)@.revision,
    {
        reveal(AppState::zoom_at_center);
        match self.selected {
            Some(id) => self.zoom_onto_note(zoom_in, id),
            None => {
                let col: u16 = self.viewport.x + self.viewport.width / 2;
                let row: u16 = self.viewport.y + self.viewport.height / 2;
                self.zoom_at(zoom_in, col, row);
            },
        }
    }
}

/// Cells are never so many that their grains run away.
proof fn lemma_cells_span(z: ZoomLevel, cols: int, rows: int)
    requires
        -65_535 <= cols <= 65_535,
        -65_535 <= rows <= 65_535,
    ensures
        -65_535 * 148_750 <= cols * pitch_x(z) <= 65_535 * 148_750,
        -65_535 * 297_500 <= rows * pitch_y(z) <= 65_535 * 297_500,
{
    let px = pitch_x(z);
    let py = pitch_y(z);
    assert(-65_535 * 148_750 <= cols * px <= 65_535 * 148_750) by (nonlinear_arith)
        requires
            -65_535 <= cols <= 65_535,
            0 <= px <= 148_750,
    ;
    assert(-65_535 * 297_500 <= rows * py <= 65_535 * 297_500) by (nonlinear_arith)
        requires
            -65_535 <= rows <= 65_535,
            0 <= py <= 297_500,
    ;
}

/// What is found has the id, and is the first that has.
pub proof fn lemma_find_from(notes: Seq<NoteView>, id: u64, from: int)
    requires
        0 <= from,
    ensures
        match find_from(notes, id, from) {
            Some(i) => from <= i < notes.len() && notes[i].id == id && forall|k: int|
                from <= k < i ==> (#[trigger] notes[k]).id != id,
            None => forall|k: int| from <= k < notes.len() ==> (#[trigger] notes[k]).id != id,
        },
    decreases notes.len() - from,
{
    if from < notes.len() && notes[from].id != id {
        lemma_find_from(notes, id, from + 1);
    }
}

// ---- text layout and scrolling ----

/// A note's text as logical lines, the way it reads when it is not being
/// edited: the title, a blank spacer, then the body from preview zoom up.
///
/// The one place a note becomes lines: wrapping these decides how far the note
/// can scroll and a click can reach, and wrapping the same ones draws it.
pub fn note_lines(note: &Note, lod: ZoomLevel) -> (out: Vec<String>)
    ensures
        strs(out@) == crate::state::note_lines(note@, lod),
{
    let mut lines: Vec<String> = Vec::new();
    lines.push(note.title.clone());
    if (lod == ZoomLevel::Preview || lod == ZoomLevel::Document) && !note.body.as_str().is_empty() {
        lines.push(String::new());
        let mut body = crate::text::split_strings(&note.body, '\n');
        let ghost head = lines@;
        let ghost rest = body@;
        lines.append(&mut body);
        proof {
            assert(head[1]@ =~= Seq::<char>::empty());
            assert(strs(head) =~= seq![note.title@, Seq::empty()]);
            assert(strs(lines@) =~= strs(head) + strs(rest));
        }
    } else {
        proof {
            assert(strs(lines@) =~= seq![note.title@]);
        }
    }
    lines
}

/// What a layout is, as a value.
pub open spec fn layout_view(l: Option<(CellRect, Wrapped)>) -> Option<
    (CellRect, Seq<crate::wrap::RowView>),
> {
    match l {
        Some((c, w)) => Some((c, w@)),
        None => None,
    }
}

/// The rows of a layout are as a wrap leaves them.
pub open spec fn layout_ok(l: Option<(CellRect, Wrapped)>) -> bool {
    l matches Some((c, w)) ==> crate::wrap::laid_out(w@) && c.width <= 41 && c.height <= 16
        && -FAR_CELL < c.x < FAR_CELL && -FAR_CELL < c.y < FAR_CELL
}

impl App {
    /// The edited note's full cell footprint and the wrap laying out its text.
    /// `None` unless a note is open in the editor.
    pub fn edit_layout(&self) -> (out: Option<(CellRect, Wrapped)>)
        requires
            self@.safe(),
        ensures
            layout_view(out) == self@.edit_layout(),
            layout_ok(out),
    {
        let editor = match &self.editor {
            Some(e) => e,
            None => return None,
        };
        let id = match self.selected {
            Some(id) => id,
            None => return None,
        };
        let note = match self.find(id) {
            Some(n) => n,
            None => return None,
        };
        proof {
            self.lemma_found(id);
        }
        let cells = self.screen_view().note_cells(note.position());
        // The text sits inside the note's one-cell border.
        if cells.width < 2 {
            return None;
        }
        Some((cells, wrap(editor.lines(), (cells.width - 2) as usize)))
    }

    /// Is this the note currently open in the editor?
    pub fn editing(&self, id: u64) -> (r: bool)
        ensures
            r == self@.editing(id),
    {
        match self.selected {
            Some(selected) => self.mode == Mode::Edit && selected == id && self.editor.is_some(),
            None => false,
        }
    }

    /// The wrap a note's window moves over: the live editor buffer when it is
    /// the note being edited, its saved text otherwise. One door, so scrolling,
    /// hit-testing and drawing cannot end up reading different layouts.
    pub fn text_layout(&self, id: u64) -> (out: Option<(CellRect, Wrapped)>)
        requires
            self@.safe(),
        ensures
            layout_view(out) == self@.text_layout(id),
            layout_ok(out),
    {
        if self.editing(id) {
            self.edit_layout()
        } else {
            self.note_layout(id)
        }
    }

    /// A note's saved text, wrapped to its width at the current zoom.
    pub fn layout_of(&self, note: &Note) -> (out: Option<(CellRect, Wrapped)>)
        requires
            self@.safe(),
            near(note@.position(), 3 * pin_limit()),
        ensures
            layout_view(out) == self@.layout_of(note@),
            layout_ok(out),
    {
        let cells = self.screen_view().note_cells(note.position());
        // The text sits inside the note's one-cell border.
        if cells.width < 2 {
            return None;
        }
        let lines = note_lines(note, self.camera.zoom);
        Some((cells, wrap(&lines, (cells.width - 2) as usize)))
    }

    /// The layout of the note with an id.
    pub fn note_layout(&self, id: u64) -> (out: Option<(CellRect, Wrapped)>)
        requires
            self@.safe(),
        ensures
            layout_view(out) == self@.note_layout(id),
            layout_ok(out),
    {
        proof {
            self.lemma_found(id);
        }
        match self.find(id) {
            Some(n) => self.layout_of(n),
            None => None,
        }
    }

    /// How many rows of text a note shows at once, and how many it has.
    /// `None` when there is no room to show anything.
    pub fn text_extent(&self, id: u64) -> (out: Option<(usize, usize)>)
        requires
            self@.safe(),
        ensures
            match out {
                Some((h, r)) => self@.text_extent(id) == Some((h as int, r as int)) && 1 <= h <= 14,
                None => self@.text_extent(id) is None,
            },
    {
        match self.text_layout(id) {
            None => None,
            Some((cells, wrapped)) => if cells.height <= 2 {
                None
            } else {
                Some(((cells.height - 2) as usize, wrapped.rows.len()))
            },
        }
    }

    /// The furthest a note can scroll: far enough to bring its last row to the
    /// bottom of the window and no further, so scrolling cannot run off into
    /// blank space under the text. Zero when everything already fits, which is
    /// also what makes it the test for "is there anything to scroll here".
    pub fn max_scroll_of(&self, id: u64) -> (n: usize)
        requires
            self@.safe(),
        ensures
            n == self@.max_scroll_of(id),
    {
        match self.text_extent(id) {
            Some((height, rows)) => if rows > height {
                rows - height
            } else {
                0
            },
            None => 0,
        }
    }

    /// How many wrapped rows sit above the top of this note's text area. The
    /// renderer offsets the text by this much, and clamping happens here so a
    /// note whose text shrank cannot leave its window stranded past the end.
    pub fn scroll_of(&self, id: u64) -> (n: usize)
        requires
            self@.safe(),
        ensures
            n == self@.scroll_of(id),
            n <= self@.max_scroll_of(id),
    {
        let max: usize = self.max_scroll_of(id);
        let at: usize = match self.scroll.get(&id) {
            Some(n) => *n,
            None => 0,
        };
        if at <= max {
            at
        } else {
            max
        }
    }

    /// Move a note's window, clamped to its text.
    fn scroll_note(&mut self, id: u64, down: bool, rows: usize)
        requires
            old(self)@.safe(),
        ensures
            final(self)@ == old(self)@.scroll_note(
                id,
                if down {
                    rows as int
                } else {
                    -(rows as int)
                },
            ),
            final(self)@.safe(),
    {
        let at: usize = self.scroll_of(id);
        let max: usize = self.max_scroll_of(id);
        let to: usize = if down {
            if rows > max - at {
                max
            } else {
                at + rows
            }
        } else if rows > at {
            0
        } else {
            at - rows
        };
        self.scroll.insert(id, to);
    }

    /// Bring the caret back into view after something moved it.
    ///
    /// The window moves only when the caret has left it, and then only far
    /// enough to catch it. Recentring on every keystroke would make the text
    /// jump under a caret that stepped a single row.
    fn follow_caret(&mut self)
        requires
            old(self)@.safe(),
        ensures
            final(self)@ == old(self)@.follow_caret(),
            final(self)@.safe(),
            final(self)@.revision == old(self)@.revision,
    {
        reveal(AppState::follow_caret);
        let (cells, wrapped) = match self.edit_layout() {
            Some(l) => l,
            None => return,
        };
        let id = match self.selected {
            Some(id) => id,
            None => return,
        };
        if cells.height <= 2 {
            return;
        }
        let height: usize = (cells.height - 2) as usize;
        let cursor = match &self.editor {
            Some(e) => e.cursor(),
            None => return,
        };
        let (row, _) = wrapped.place(cursor);
        let at: usize = self.scroll_of(id);
        let rows: usize = wrapped.rows.len();
        let to: usize = if row < at {
            row
        } else if row - at >= height {
            row - height + 1
        } else {
            at
        };
        // Text can shrink under the window - a cut, a kill, an undone paste -
        // and leave it parked past the end.
        let max: usize = if rows > height {
            rows - height
        } else {
            0
        };
        self.scroll.insert(
            id,
            if to < max {
                to
            } else {
                max
            },
        );
    }

    /// The wheel: on a note it moves that note's text, on the board it zooms.
    ///
    /// A note that is not hiding anything absorbs the notch and does nothing.
    /// That is the point rather than an oversight: which gesture you get is
    /// decided by what is under the pointer, never by how much someone happened
    /// to write.
    fn wheel(&mut self, down: bool, col: u16, row: u16)
        requires
            old(self)@.safe(),
            near(old(self)@.camera.origin, 2 * pin_limit()),
        ensures
            final(self)@ == old(self)@.wheel(down, col, row),
            final(self)@.safe(),
            final(self)@.revision == old(self)@.revision,
    {
        reveal(AppState::wheel);
        match self.wheel_target(col, row) {
            // A no-op on a note that fits, since scrolling clamps. Three rows is
            // what a terminal sends a pager.
            Some(id) => self.scroll_note(id, down, 3),
            None => self.zoom_at(!down, col, row),
        }
    }

    /// The pin under a terminal cell, topmost first.
    fn pin_at(&self, col: u16, row: u16) -> (out: Option<&Note>)
        requires
            self@.safe(),
        ensures
            match out {
                Some(n) => self@.pin_at(col, row) == Some(n@) && n@.contains(
                    self@.world_at(col, row),
                ),
                None => self@.pin_at(col, row) is None,
            },
    {
        let world = self.world_at(col, row);
        proof {
            crate::model::law_top_at(self@.notes(), world, self@.notes().len() as int);
        }
        self.active_board().note_at(world)
    }

    /// The note the wheel belongs to, or `None` when it belongs to the board.
    ///
    /// While a note is open the wheel is its own wherever the pointer is: you
    /// are inside its text, not on the board.
    ///
    /// Zoomed out past the body the wheel is the board's, whatever it is over.
    /// A note at cluster or titles zoom is a block or a headline rather than
    /// something you read down, and those are the levels where notes cover the
    /// screen - a wheel that died on every one of them would leave you unable
    /// to zoom out of a full board.
    fn wheel_target(&self, col: u16, row: u16) -> (out: Option<u64>)
        requires
            self@.safe(),
        ensures
            out == self@.wheel_target(col, row),
    {
        if self.mode == Mode::Edit {
            return self.selected;
        }
        if self.camera.zoom != ZoomLevel::Preview && self.camera.zoom != ZoomLevel::Document {
            return None;
        }
        match self.pin_at(col, row) {
            Some(n) => Some(n.id),
            None => None,
        }
    }

    /// Page the selected note's text, the keyboard's answer to the wheel.
    ///
    /// A page keeps one row of overlap, so there is always a line you have
    /// already read to land on rather than a wall of new text.
    fn page_selected(&mut self, down: bool)
        requires
            old(self)@.safe(),
        ensures
            final(self)@ == old(self)@.page_selected(down),
            final(self)@.safe(),
            final(self)@.revision == old(self)@.revision,
    {
        reveal(AppState::page_selected);
        if let Some(id) = self.selected {
            if let Some((height, _)) = self.text_extent(id) {
                let page: usize = if height > 2 {
                    height - 1
                } else {
                    1
                };
                self.scroll_note(id, down, page);
            }
        }
    }

    /// Where in the buffer a screen cell points, for a click or drag inside the
    /// note being edited. `clamp` is what separates the two gestures: a click
    /// outside the text area is not a click on text at all, but a drag that
    /// wanders off the edge should keep selecting to the nearest cell.
    fn edit_cursor_at(&self, col: u16, row: u16, clamp: bool) -> (out: Option<Cursor>)
        requires
            self@.safe(),
        ensures
            out == self@.edit_cursor_at(col, row, clamp),
    {
        let (cells, wrapped) = match self.edit_layout() {
            Some(l) => l,
            None => return None,
        };
        let id = match self.selected {
            Some(id) => id,
            None => return None,
        };
        if cells.width <= 2 || cells.height <= 2 {
            return None;
        }
        let width: i128 = cells.width as i128 - 2;
        let height: i128 = cells.height as i128 - 2;
        let mut dx: i128 = col as i128 - (cells.x + 1);
        let mut dy: i128 = row as i128 - (cells.y + 1);
        if clamp {
            dx = pull_in(dx, 0, width - 1);
            dy = pull_in(dy, 0, height - 1);
        } else if dx < 0 || dy < 0 || dx >= width || dy >= height {
            return None;
        }
        let at: usize = self.scroll_of(id);
        let rows: usize = wrapped.rows.len();
        // Past the last row is the last row, however far past.
        let scrolled: usize = if at >= rows {
            rows
        } else if dy as usize > rows - at {
            rows
        } else {
            dy as usize + at
        };
        Some(wrapped.locate(scrolled, dx as usize))
    }

    // ---- keyboard selection ----

    /// Move the selection one pin in a direction, and fetch it into view.
    ///
    /// With nothing selected the direction is ignored and the pin nearest the
    /// middle of the screen is taken: the first press should land where you are
    /// already looking rather than at some edge of the board.
    fn select_toward(&mut self, step: Step)
        requires
            old(self)@.safe(),
        ensures
            final(self)@ == old(self)@.select_toward(step),
            final(self)@.safe(),
            final(self)@.revision == old(self)@.revision,
    {
        reveal(AppState::select_toward);
        let target = match self.step_target(step) {
            Some(id) => id,
            None => return,
        };
        self.selected = Some(target);
        let ghost chosen = self@;
        self.bring_into_view(target);
        let ghost seen = self@;
        assert(seen == chosen.bring_into_view(target));
        // At cluster zoom no title is drawn at all, so this is the only thing
        // that says which pin you just landed on.
        let title = match self.find(target) {
            Some(n) => shown_title(n),
            None => return,
        };
        self.status = Some(title);
    }

    /// The pin one step away, if there is one.
    ///
    /// Candidates are the pins strictly beyond this one along the axis, scored
    /// by how far along they are plus twice how far off it - so a pin straight
    /// ahead beats a nearer one away to the side. There is no wrap-around: a
    /// selection that leaps to the opposite edge costs more than stopping does.
    /// Ties go to the lower id, so the same board always steps the same way.
    fn step_target(&self, step: Step) -> (out: Option<u64>)
        requires
            self@.safe(),
        ensures
            out == self@.step_target(step),
    {
        let current = match self.selected {
            Some(id) => self.find(id),
            None => None,
        };
        let current = match current {
            Some(n) => n,
            None => return self.nearest_to_view_center(),
        };
        let notes = &self.active_board().notes;
        let ghost all = self@.notes();
        let mut best: Option<(i128, u64)> = None;
        let mut i: usize = 0;
        proof {
            assert(board_within(self@.boards[self.active as int], 3 * pin_limit()));
            self.lemma_found(self.selected->0);
        }
        while i < notes.len()
            invariant
                i <= notes@.len(),
                all == notes_view(notes@),
                forall|k: int|
                    0 <= k < all.len() ==> near((#[trigger] all[k]).position(), 3 * pin_limit()),
                near(current@.position(), 3 * pin_limit()),
                scored(best) == best_step(all, current@, step, i as int),
            decreases notes@.len() - i,
        {
            let n = &notes[i];
            assert(all[i as int] == n@);
            assert(near(all[i as int].position(), 3 * pin_limit()));
            let dx: i128 = n.x - current.x;
            let dy: i128 = n.y - current.y;
            let (along, off) = match step {
                Step::Left => (-dx, dy),
                Step::Right => (dx, dy),
                Step::Up => (-dy, dx),
                Step::Down => (dy, dx),
            };
            if n.id != current.id && along > 0 {
                let aside: i128 = if off < 0 {
                    -off
                } else {
                    off
                };
                best = pick_better(best, (along + 2 * aside, n.id));
            }
            i += 1;
        }
        match best {
            Some((_, id)) => Some(id),
            None => None,
        }
    }

    fn nearest_to_view_center(&self) -> (out: Option<u64>)
        requires
            self@.safe(),
        ensures
            ({
                let o = self@.camera.origin;
                let found = nearest(
                    self@.notes(),
                    o.x + half_w(self@.viewport, self@.camera.zoom),
                    o.y + half_h(self@.viewport, self@.camera.zoom),
                    self@.notes().len() as int,
                );
                match out {
                    Some(id) => found matches Some((_, best)) && best == id,
                    None => found is None,
                }
            }),
    {
        let (hw, hh) = half_view(self.viewport, self.camera.zoom);
        let x: i128 = self.camera.origin.x + hw;
        let y: i128 = self.camera.origin.y + hh;
        let notes = &self.active_board().notes;
        let ghost all = self@.notes();
        let mut best: Option<(Wide, u64)> = None;
        let mut i: usize = 0;
        proof {
            assert(board_within(self@.boards[self.active as int], 3 * pin_limit()));
        }
        while i < notes.len()
            invariant
                i <= notes@.len(),
                all == notes_view(notes@),
                forall|k: int|
                    0 <= k < all.len() ==> near((#[trigger] all[k]).position(), 3 * pin_limit()),
                -5 * pin_limit() <= x <= 5 * pin_limit(),
                -5 * pin_limit() <= y <= 5 * pin_limit(),
                best matches Some((d, _)) ==> d.low < WIDE,
                far_scored(best) == nearest(all, x as int, y as int, i as int),
            decreases notes@.len() - i,
        {
            let n = &notes[i];
            assert(all[i as int] == n@);
            assert(near(all[i as int].position(), 3 * pin_limit()));
            let dx: i128 = n.x + 714_000 - x;
            let dy: i128 = n.y + 535_500 - y;
            best = pick_nearer(best, (distance(dx, dy), n.id));
            i += 1;
        }
        match best {
            Some((_, id)) => Some(id),
            None => None,
        }
    }
}

/// How a pin is named in a message.
fn shown_title(n: &Note) -> (out: String)
    ensures
        out@ == (if crate::text::trim(n@.title).len() == 0 {
            "untitled pin"@
        } else {
            n@.title
        }),
{
    if trimmed(&chars_of(&n.title)).len() == 0 {
        "untitled pin".to_owned()
    } else {
        n.title.clone()
    }
}

pub open spec fn scored(b: Option<(i128, u64)>) -> Option<(int, u64)> {
    match b {
        Some((c, id)) => Some((c as int, id)),
        None => None,
    }
}

/// The cheaper of two candidates; between equals, the lower id.
fn pick_better(a: Option<(i128, u64)>, b: (i128, u64)) -> (out: Option<(i128, u64)>)
    ensures
        scored(out) == better(scored(a), Some((b.0 as int, b.1))),
{
    match a {
        None => Some(b),
        Some((cost, id)) => if b.0 < cost || (b.0 == cost && b.1 < id) {
            Some(b)
        } else {
            a
        },
    }
}

/// A number of more bits than a machine has one integer for: so many times
/// [`WIDE`], and the rest.
#[derive(Debug, Clone, Copy)]
struct Wide {
    high: u128,
    low: u128,
}

const WIDE: u128 = 100_000_000_000_000_000_000_000_000;

impl Wide {
    spec fn value(self) -> int {
        self.high * WIDE + self.low
    }
}

spec fn far_scored(b: Option<(Wide, u64)>) -> Option<(int, u64)> {
    match b {
        Some((d, id)) => Some((d.value(), id)),
        None => None,
    }
}

/// A number multiplied with itself.
fn squared(d: i128) -> (w: Wide)
    requires
        -9 * pin_limit() <= d <= 9 * pin_limit(),
    ensures
        w.value() == d * d,
        w.low < WIDE,
        w.high < WIDE,
{
    let n: u128 = if d < 0 {
        (-d) as u128
    } else {
        d as u128
    };
    let a: u128 = n / 10_000_000_000_000;
    let b: u128 = n % 10_000_000_000_000;
    proof {
        assert(0 <= a * a < 10_000_000_000_000 * 10_000_000_000_000) by (nonlinear_arith)
            requires
                0 <= a < 10_000_000_000_000,
        ;
        assert(0 <= a * b < 10_000_000_000_000 * 10_000_000_000_000) by (nonlinear_arith)
            requires
                0 <= a < 10_000_000_000_000,
                0 <= b < 10_000_000_000_000,
        ;
        assert(0 <= b * b < 10_000_000_000_000 * 10_000_000_000_000) by (nonlinear_arith)
            requires
                0 <= b < 10_000_000_000_000,
        ;
    }
    let cross: u128 = 2 * (a * b);
    let rest: u128 = cross % 10_000_000_000_000 * 10_000_000_000_000 + b * b;
    let w = Wide {
        high: a * a + cross / 10_000_000_000_000 + rest / WIDE,
        low: rest % WIDE,
    };
    proof {
        assert(n * n == a * a * 100_000_000_000_000_000_000_000_000 + 2 * (a * b)
            * 10_000_000_000_000 + b * b) by (nonlinear_arith)
            requires
                n == a * 10_000_000_000_000 + b,
        ;
        assert(d * d == n * n) by (nonlinear_arith)
            requires
                n == d || n == -d,
        ;
        assert(n * n <= 63_000_000_000_000_000_000_000_000 * 63_000_000_000_000_000_000_000_000)
            by (nonlinear_arith)
            requires
                0 <= n <= 63_000_000_000_000_000_000_000_000,
        ;
    }
    w
}

/// How far something is that is `dx` and `dy` away, multiplied with itself.
fn distance(dx: i128, dy: i128) -> (w: Wide)
    requires
        -9 * pin_limit() <= dx <= 9 * pin_limit(),
        -9 * pin_limit() <= dy <= 9 * pin_limit(),
    ensures
        w.value() == dx * dx + dy * dy,
        w.low < WIDE,
{
    let (x, y) = (squared(dx), squared(dy));
    let low: u128 = x.low + y.low;
    if low >= WIDE {
        Wide { high: x.high + y.high + 1, low: low - WIDE }
    } else {
        Wide { high: x.high + y.high, low }
    }
}

/// The nearer of two candidates; between equals, the lower id.
fn pick_nearer(a: Option<(Wide, u64)>, b: (Wide, u64)) -> (out: Option<(Wide, u64)>)
    requires
        b.0.low < WIDE,
        a matches Some((d, _)) ==> d.low < WIDE,
    ensures
        far_scored(out) == better(far_scored(a), Some((b.0.value(), b.1))),
        out matches Some((d, _)) ==> d.low < WIDE,
{
    match a {
        None => Some(b),
        Some((d, id)) => {
            let nearer = b.0.high < d.high || (b.0.high == d.high && b.0.low < d.low);
            let level = b.0.high == d.high && b.0.low == d.low;
            if nearer || (level && b.1 < id) {
                Some(b)
            } else {
                a
            }
        },
    }
}

// ---- undo ----

proof fn lemma_snapshots_push(v: Seq<Snapshot>, s: Snapshot)
    ensures
        snapshots_view(v.push(s)) == snapshots_view(v).push(s@),
{
    assert(snapshots_view(v.push(s)) =~= snapshots_view(v).push(s@));
}

/// The boards of an update are within a limit when the rest were and the new
/// one is.
proof fn lemma_update_within(boards: Seq<BoardView>, i: int, b: BoardView, limit: int)
    requires
        boards_within(boards, limit),
        0 <= i < boards.len(),
        board_within(b, limit),
    ensures
        boards_within(boards.update(i, b), limit),
{
}

impl App {
    /// Stash the state this event is about to change.
    ///
    /// Done unconditionally rather than at each mutation site: a `checkpoint()`
    /// call per action is one forgotten call away from a silent hole in the
    /// history. Most events change nothing and the stash is dropped again in
    /// [`Self::end_step`].
    fn begin_step(&mut self)
        requires
            old(self)@.has_room(),
        ensures
            final(self)@ == old(self)@.begin_step(),
            final(self)@.has_room(),
    {
        if self.pending.is_none() {
            self.pending = Some(self.snapshot());
        }
    }

    fn snapshot(&self) -> (s: Snapshot)
        ensures
            s@ == self@.snapshot(),
    {
        Snapshot { boards: copy_boards(&self.boards), active: self.active, selected: self.selected }
    }

    /// Put a snapshot back, clamping the active world in case the board list
    /// shrank since it was taken.
    fn restore(&mut self, snap: Snapshot)
        requires
            old(self)@.safe(),
            snapshot_ok(snap@, 3 * pin_limit()),
            old(self)@.revision < u64::MAX,
        ensures
            final(self)@ == old(self)@.restore(snap@),
            final(self)@.safe(),
            final(self)@.revision <= old(self)@.revision + 1,
    {
        reveal(AppState::restore);
        let count: usize = snap.boards.len();
        assert(snap@.boards.len() == snap.boards@.len());
        self.active = if snap.active < count {
            snap.active
        } else {
            count - 1
        };
        self.boards = snap.boards;
        self.selected = snap.selected;
        self.revision += 1;
        self.clamp_origin();
    }

    /// Remember a state to undo to, letting go of the oldest when full.
    fn push_undo(&mut self, snap: Snapshot)
        requires
            old(self)@.safe(),
            snapshot_ok(snap@, 3 * pin_limit()),
        ensures
            final(self)@ == old(self)@.push_undo(snap@),
            final(self)@.safe(),
    {
        let ghost start = self@;
        if self.undo.len() == UNDO_DEPTH {
            let ghost full = self.undo@;
            let _ = self.undo.pop_front();
            proof {
                assert(snapshots_view(self.undo@) =~= snapshots_view(full).drop_first());
            }
        }
        let ghost kept = self.undo@;
        self.undo.push_back(snap);
        proof {
            lemma_snapshots_push(kept, snap);
            assert(self@ =~= start.push_undo(snap@));
        }
    }

    /// Commit the stash as an undo step, once the gesture it belongs to is over
    /// and only if the boards actually differ.
    ///
    /// Comparing the boards rather than watching `revision` is deliberate:
    /// `revision` moves on *access*, which is the right trade for deciding when
    /// to save, but would record an undo step for opening a note and closing it
    /// untouched.
    ///
    /// Holding the stash across a drag is what makes a whole drag one step
    /// instead of one per mouse-move. Typing collapses the same way, because a
    /// note is only written back when the edit is committed.
    fn end_step(&mut self)
        requires
            old(self)@.safe(),
            old(self)@.revision < u64::MAX,
        ensures
            final(self)@ == old(self)@.end_step(),
            final(self)@.wf(),
    {
        reveal(AppState::end_step);
        if self.drag.is_some() {
            return;  // still gathering; keep the pre-gesture stash
        }
        let snap = match self.pending.take() {
            Some(s) => s,
            None => return,
        };
        if same_boards(&snap.boards, &self.boards) {
            return;
        }
        // Not our board to change: put it back exactly as it was, and say so.
        // Reverting here rather than refusing each key means a change can only
        // land if it survives this one check, whatever produced it.
        if self.read_only {
            self.restore(snap);
            self.status = Some("read-only: another pinz owns this board".to_owned());
            return;
        }
        self.push_undo(snap);
        // A fresh change makes the undone future unreachable.
        self.redo = Vec::new();
        proof {
            assert(snapshots_view(self.redo@) =~= Seq::<SnapshotView>::empty());
        }
    }

    fn undo_step(&mut self)
        requires
            old(self)@.has_room(),
        ensures
            final(self)@ == old(self)@.undo_step(),
            final(self)@.safe(),
            final(self)@.revision <= old(self)@.revision + 2,
    {
        reveal(AppState::undo_step);
        reveal(AppState::restore);
        // A history from before the session turned read-only is no way round it.
        if self.refuse_if_read_only() {
            return;
        }
        let ghost first = self@;
        if self.undo.len() > 0 {
            self.let_go();
        }
        let ghost start = self@;
        let ghost stack = self.undo@;
        let snap = match self.undo.pop_back() {
            Some(s) => s,
            None => {
                self.status = Some("nothing to undo".to_owned());
                return;
            },
        };
        proof {
            assert(snapshots_view(self.undo@) =~= snapshots_view(stack).drop_last());
            assert(snap@ == start.undo.last());
            assert(snapshot_ok(start.undo[start.undo.len() - 1], 3 * pin_limit()));
            lemma_undo_popped(start);
        }
        let current = self.snapshot();
        self.restore(snap);
        let ghost kept = self.redo@;
        self.redo.push(current);
        // Clearing the stash is what stops an undo from becoming an undo step.
        self.pending = None;
        proof {
            lemma_snapshots_push(kept, current);
            assert(self@ =~= first.undo_step());
        }
    }

    fn redo_step(&mut self)
        requires
            old(self)@.has_room(),
        ensures
            final(self)@ == old(self)@.redo_step(),
            final(self)@.safe(),
            final(self)@.revision <= old(self)@.revision + 2,
    {
        reveal(AppState::redo_step);
        reveal(AppState::restore);
        if self.refuse_if_read_only() {
            return;
        }
        let ghost first = self@;
        if self.redo.len() > 0 {
            self.let_go();
        }
        let ghost start = self@;
        let ghost stack = self.redo@;
        let snap = match self.redo.pop() {
            Some(s) => s,
            None => {
                self.status = Some("nothing to redo".to_owned());
                return;
            },
        };
        proof {
            assert(snapshots_view(self.redo@) =~= snapshots_view(stack).drop_last());
            assert(snap@ == start.redo.last());
            assert(snapshot_ok(start.redo[start.redo.len() - 1], 3 * pin_limit()));
            lemma_redo_popped(start);
        }
        let current = self.snapshot();
        self.restore(snap);
        self.push_undo(current);
        self.pending = None;
        proof {
            assert(self@ =~= first.redo_step());
        }
    }
}

proof fn lemma_undo_popped(s: AppState)
    requires
        s.safe(),
        s.undo.len() > 0,
    ensures
        (AppState { undo: s.undo.drop_last(), ..s }).safe(),
{
    let u = s.undo.drop_last();
    assert forall|i: int| 0 <= i < u.len() implies snapshot_ok(#[trigger] u[i], 3 * pin_limit()) by {
        assert(u[i] == s.undo[i]);
    }
    assert forall|i: int| 0 <= i < u.len() implies (#[trigger] u[i]).active < u[i].boards.len() by {
        assert(u[i] == s.undo[i]);
    }
}

proof fn lemma_redo_popped(s: AppState)
    requires
        s.safe(),
        s.redo.len() > 0,
    ensures
        (AppState { redo: s.redo.drop_last(), ..s }).safe(),
{
    let u = s.redo.drop_last();
    assert forall|i: int| 0 <= i < u.len() implies snapshot_ok(#[trigger] u[i], 3 * pin_limit()) by {
        assert(u[i] == s.redo[i]);
    }
    assert forall|i: int| 0 <= i < u.len() implies (#[trigger] u[i]).active < u[i].boards.len() by {
        assert(u[i] == s.redo[i]);
    }
}

// ---- board changes ----

/// The notes that are kept were there before.
proof fn lemma_without_id(notes: Seq<NoteView>, id: u64, limit: int)
    requires
        forall|i: int| 0 <= i < notes.len() ==> near((#[trigger] notes[i]).position(), limit),
    ensures
        without_id(notes, id).len() <= notes.len(),
        forall|i: int|
            0 <= i < without_id(notes, id).len() ==> near(
                (#[trigger] without_id(notes, id)[i]).position(),
                limit,
            ),
    decreases notes.len(),
{
    if notes.len() > 0 {
        let front = notes.drop_last();
        assert forall|i: int| 0 <= i < front.len() implies near(
            (#[trigger] front[i]).position(),
            limit,
        ) by {
            assert(front[i] == notes[i]);
        }
        lemma_without_id(front, id, limit);
        assert(near(notes[notes.len() - 1].position(), limit));
    }
}

/// The place of the first newline.
pub(crate) fn newline_at(chars: &[char]) -> (out: Option<usize>)
    ensures
        match out {
            Some(i) => i < chars@.len() && crate::state::first_newline(chars@, 0) == Some(i as int),
            None => crate::state::first_newline(chars@, 0) is None,
        },
{
    let mut i: usize = 0;
    while i < chars.len()
        invariant
            i <= chars@.len(),
            crate::state::first_newline(chars@, 0) == crate::state::first_newline(chars@, i as int),
        decreases chars@.len() - i,
    {
        if chars[i] == '\n' {
            return Some(i);
        }
        i += 1;
    }
    None
}

/// A note's text as one buffer: the title, then the body under it.
fn whole_text(n: &Note) -> (out: String)
    ensures
        out@ == crate::state::whole_text(n@),
{
    if n.body.as_str().is_empty() {
        n.title.clone()
    } else {
        let mut out = chars_of(&n.title);
        out.push('\n');
        push_text(&mut out, &n.body);
        string_of(&out)
    }
}

/// Three texts, one after the other.
fn cat3(a: &str, b: &str, c: &str) -> (out: String)
    ensures
        out@ == a@ + b@ + c@,
{
    let mut out = chars_of(a);
    push_text(&mut out, b);
    push_text(&mut out, c);
    string_of(&out)
}

/// Two texts, one after the other.
fn cat2(a: &str, b: &str) -> (out: String)
    ensures
        out@ == a@ + b@,
{
    let mut out = chars_of(a);
    push_text(&mut out, b);
    string_of(&out)
}

impl App {
    /// Replace a pin of the active world, and record that the boards changed.
    fn set_note(&mut self, i: usize, note: Note)
        requires
            old(self)@.safe(),
            i < old(self)@.notes().len(),
            near(note@.position(), 3 * pin_limit()),
            old(self)@.revision < u64::MAX,
        ensures
            final(self)@ == old(self)@.touched().with_notes(
                old(self)@.notes().update(i as int, note@),
            ),
            final(self)@.safe(),
    {
        let ghost start = self@;
        proof {
            assert(board_within(start.boards[start.active as int], 3 * pin_limit()));
            let b = BoardView { notes: start.notes().update(i as int, note@), ..start.board() };
            assert forall|k: int| 0 <= k < b.notes.len() implies near(
                (#[trigger] b.notes[k]).position(),
                3 * pin_limit(),
            ) by {
                if k != i {
                    assert(b.notes[k] == start.notes()[k]);
                    assert(near(start.notes()[k].position(), 3 * pin_limit()));
                }
            }
            assert(board_within(b, 3 * pin_limit()));
            lemma_update_within(start.boards, start.active as int, b, 3 * pin_limit());
        }
        self.revision += 1;
        put_note(&mut self.boards, self.active, i, note);
    }

    /// The pin with an id, for changing. Every caller is about to change it.
    fn place_of(&self, id: u64) -> (out: Option<usize>)
        requires
            self@.wf(),
        ensures
            match out {
                Some(i) => i < self@.notes().len() && find_from(self@.notes(), id, 0) == Some(
                    i as int,
                ) && self@.note(id) == Some(self@.notes()[i as int])
                    && self.boards@[self.active as int].notes@[i as int]@
                    == self@.notes()[i as int],
                None => find_from(self@.notes(), id, 0) is None,
            },
    {
        index_of(&self.active_board().notes, id)
    }

    fn cycle_theme(&mut self, forward: bool)
        requires
            old(self)@.safe(),
        ensures
            final(self)@ == old(self)@.cycle_theme(forward),
            final(self)@.safe(),
    {
        self.theme_index = if forward {
            (self.theme_index + 1) % THEME_COUNT
        } else {
            (self.theme_index + THEME_COUNT - 1) % THEME_COUNT
        };
    }

    /// Step the selected note through the note palette. No-op without a
    /// selection.
    fn cycle_note_color(&mut self, forward: bool)
        requires
            old(self)@.safe(),
            old(self)@.revision < u64::MAX,
        ensures
            final(self)@ == old(self)@.cycle_note_color(forward),
            final(self)@.safe(),
            final(self)@.revision <= old(self)@.revision + 1,
    {
        reveal(AppState::cycle_note_color);
        let id = match self.selected {
            Some(id) => id,
            None => return,
        };
        proof {
            self.lemma_found(id);
        }
        match self.place_of(id) {
            Some(i) => {
                let mut note = self.boards[self.active].notes[i].clone();
                note.color = note.color.step(forward);
                self.set_note(i, note);
            },
            None => {
                self.revision += 1;
            },
        }
    }

    // ---- copy ----

    /// Queue text for the clipboard and say so in the footer.
    fn set_copied(&mut self, text: String)
        requires
            old(self)@.safe(),
        ensures
            final(self)@ == old(self)@.set_copied(text@),
            final(self)@.safe(),
    {
        let count: usize = chars_of(&text).len();
        let mut message = chars_of("copied ");
        push_decimal(&mut message, count as u64);
        push_text(&mut message, " chars");
        self.status = Some(string_of(&message));
        self.pending_copy = Some(text);
    }

    /// Copy the editor's selection, removing it too when `cut`.
    fn copy_selection(&mut self, cut: bool)
        requires
            old(self)@.safe(),
        ensures
            final(self)@ == old(self)@.copy_selection(cut),
            final(self)@.safe(),
            final(self)@.revision == old(self)@.revision,
    {
        reveal(AppState::copy_selection);
        let ghost start = self@;
        let mut editor = match self.editor.take() {
            Some(e) => e,
            None => return,
        };
        let copied = editor.selected_text();
        if let Some(text) = copied {
            if cut {
                editor.delete_selection();
            }
            self.editor = Some(editor);
            self.set_copied(text);
            proof {
                assert(self@ =~= start.copy_selection(cut));
            }
        } else {
            self.editor = Some(editor);
            proof {
                assert(self@ =~= start);
            }
        }
    }

    /// Copy the selected note whole: the title, then the body under it.
    fn yank_note(&mut self)
        requires
            old(self)@.safe(),
        ensures
            final(self)@ == old(self)@.yank_note(),
            final(self)@.safe(),
            final(self)@.revision == old(self)@.revision,
    {
        reveal(AppState::yank_note);
        if let Some(id) = self.selected {
            let text = match self.find(id) {
                Some(n) => whole_text(n),
                None => return,
            };
            self.set_copied(text);
        }
    }

    // ---- editing ----

    /// Write the editor back to the note - first line is the title, the rest the
    /// body - and return to nav. Esc saves rather than discards: a whole note is
    /// too much to lose to a stray key.
    fn commit_edit(&mut self)
        requires
            old(self)@.safe(),
            old(self)@.revision < u64::MAX,
        ensures
            final(self)@ == old(self)@.commit_edit(),
            final(self)@.safe(),
            final(self)@.mode == Mode::Nav,
            final(self)@.revision <= old(self)@.revision + 1,
            final(self)@.shown() == old(self)@.shown(),
    {
        reveal(AppState::commit_edit);
        let ghost start = self@;
        if let Some(id) = self.selected {
            proof {
                self.lemma_found(id);
            }
            if let Some(editor) = &self.editor {
                // First line is the title, everything after the first newline is
                // the body (which may itself span lines).
                let text = chars_of(&editor.text());
                assert(text.len() == text@.len());
                let (title, body) = match newline_at(&text) {
                    Some(i) => (
                        crate::text::string_from(&text, 0, i),
                        crate::text::string_from(&text, i + 1, text.len()),
                    ),
                    None => (string_of(&text), String::new()),
                };
                proof {
                    let t = start.editor->0.text();
                    assert(title@ =~= crate::state::title_of(t));
                    assert(body@ =~= crate::state::body_of(t));
                }
                match self.place_of(id) {
                    Some(i) => {
                        let mut note = self.boards[self.active].notes[i].clone();
                        note.title = title;
                        note.body = body;
                        let ghost was = start.notes()[i as int];
                        self.set_note(i, note);
                    },
                    None => {
                        self.revision += 1;
                    },
                }
            }
            self.scroll.remove(&id);
        }
        self.editor = None;
        self.prompt = None;
        self.mode = Mode::Nav;
        proof {
            assert(self@ =~= start.commit_edit());
        }
    }

    /// Leave, saving whatever is open on the way out.
    ///
    /// Every quit key goes through here so none of them can forget the commit:
    /// in edit it is the difference between keeping the note you were typing and
    /// losing it.
    fn quit(&mut self)
        requires
            old(self)@.has_room(),
        ensures
            final(self)@ == old(self)@.quit(),
            final(self)@.safe(),
            final(self)@.revision <= old(self)@.revision + 2,
    {
        reveal(AppState::quit);
        self.let_go();
        self.commit_edit();
        self.should_quit = true;
    }

    /// Say no to an action that would need write access, reporting whether it
    /// was refused. Used by the doors into an input mode: the end of the event
    /// would undo the result anyway, but only after the typing, and an editor
    /// whose work is discarded on close is a worse answer than never opening one.
    fn refuse_if_read_only(&mut self) -> (refused: bool)
        requires
            old(self)@.safe(),
        ensures
            refused == old(self)@.read_only,
            final(self)@ == (if refused {
                old(self)@.with_status(crate::state::read_only_message())
            } else {
                old(self)@
            }),
            final(self)@.safe(),
    {
        if self.read_only {
            self.status = Some("read-only: another pinz owns this board".to_owned());
        }
        self.read_only
    }

    /// Open the selected note in the editor as one buffer: line 1 is the title,
    /// the rest the body. Bumps zoom to document so there's room to write and
    /// see the cursor. No-op without a selection.
    fn begin_edit(&mut self)
        requires
            old(self)@.safe(),
            old(self)@.mode == Mode::Nav,
        ensures
            final(self)@ == old(self)@.begin_edit(),
            final(self)@.safe(),
            final(self)@.revision == old(self)@.revision,
    {
        reveal(AppState::begin_edit);
        if self.refuse_if_read_only() {
            return;
        }
        let ghost start = self@;
        let id = match self.selected {
            Some(id) => id,
            None => return,
        };
        let text = match self.find(id) {
            Some(n) => whole_text(n),
            None => return,
        };
        let editor = TextEditor::new(&text);
        proof {
            assert(editor@ =~= crate::state::fresh_editor(text@));
        }
        self.editor = Some(editor);
        // The editor lays the note out as one buffer and the read-only view as
        // title, spacer, body, so a window measured against one does not point
        // at the same row in the other. The caret sets it.
        self.scroll.remove(&id);
        self.mode = Mode::Edit;
        self.camera.zoom = ZoomLevel::Document;
        // Centre rather than merely clamp, so the note you just opened is not
        // somewhere off to the side.
        self.center_on_note(id);
    }

    // ---- note creation / deletion ----

    fn new_note(&mut self)
        requires
            old(self)@.has_room(),
            old(self)@.mode == Mode::Nav,
        ensures
            final(self)@ == old(self)@.new_note(),
            final(self)@.safe(),
            final(self)@.revision <= old(self)@.revision + 1,
    {
        reveal(AppState::new_note);
        let ghost start = self@;
        // Zoom in to write *first*, then place the note at the view center it
        // will actually be shown at - otherwise it lands at the old zoom's
        // center and drifts off-screen once we jump to document.
        self.camera.zoom = ZoomLevel::Document;
        let (hw, hh) = half_view(self.viewport, ZoomLevel::Document);
        // Drop it at the middle of the view, top-left offset so its center sits
        // under the viewport center.
        let center = WorldPoint {
            x: self.camera.origin.x + hw - 714_000,
            y: self.camera.origin.y + hh - 535_500,
        };
        proof {
            assert(board_within(start.boards[start.active as int], pin_limit()));
            assert(crate::state::roomy(start.boards[start.active as int].notes));
            crate::model::law_free_spot_is_free(start.notes(), center, None);
        }
        // Two notes made without panning would otherwise share one spot
        // exactly, and the older one would be gone behind the newer.
        let spot = self.active_board().free_spot(center, None);
        let color = Color::ALL[self.color_tick % 8];
        self.color_tick += 1;
        let top: u32 = highest(&self.active_board().notes);
        let id: u64 = self.next_id;
        self.next_id += 1;
        self.revision += 1;
        let note = Note {
            id,
            title: "new note".to_owned(),
            body: String::new(),
            x: spot.x,
            y: spot.y,
            z: top.saturating_add(1),
            color,
        };
        proof {
            assert(note@ =~= start.fresh_note());
            let b = BoardView { notes: start.notes().push(note@), ..start.board() };
            assert forall|k: int| 0 <= k < b.notes.len() implies near(
                (#[trigger] b.notes[k]).position(),
                3 * pin_limit(),
            ) by {
                if k < start.notes().len() {
                    assert(near(start.notes()[k].position(), pin_limit()));
                }
            }
            assert(boards_within(start.boards, 3 * pin_limit()));
            lemma_update_within(start.boards, start.active as int, b, 3 * pin_limit());
        }
        push_note(&mut self.boards, self.active, note);
        self.selected = Some(id);
        // Already at document zoom (set above); settle the camera and open the
        // editor on the fresh note straight away.
        assert(self@.safe());
        self.clamp_origin();
        self.begin_edit();
    }

    fn delete_selected(&mut self)
        requires
            old(self)@.safe(),
            old(self)@.mode == Mode::Nav,
            old(self)@.revision < u64::MAX,
        ensures
            final(self)@ == old(self)@.delete_selected(),
            final(self)@.safe(),
            final(self)@.revision <= old(self)@.revision + 1,
    {
        reveal(AppState::delete_selected);
        let id = match self.selected {
            Some(id) => id,
            None => return,
        };
        let ghost start = self@;
        let ghost all = self@.notes();
        let mut kept: Vec<Note> = Vec::new();
        let mut i: usize = 0;
        proof {
            assert(notes_view(kept@) =~= Seq::<NoteView>::empty());
        }
        while i < self.boards[self.active].notes.len()
            invariant
                self.active < self.boards@.len(),
                i <= self.boards@[self.active as int].notes@.len(),
                all == notes_view(self.boards@[self.active as int].notes@),
                notes_view(kept@) == without_id(all.take(i as int), id),
            decreases self.boards@[self.active as int].notes@.len() - i,
        {
            let n = &self.boards[self.active].notes[i];
            proof {
                assert(all.take(i + 1).drop_last() =~= all.take(i as int));
                assert(all.take(i + 1).last() == n@);
            }
            if n.id != id {
                let ghost before = kept@;
                kept.push(n.clone());
                proof {
                    assert(notes_view(kept@) =~= notes_view(before).push(n@));
                }
            }
            i += 1;
        }
        proof {
            assert(all.take(all.len() as int) =~= all);
            assert(board_within(start.boards[start.active as int], 3 * pin_limit()));
            lemma_without_id(all, id, 3 * pin_limit());
            let b = BoardView { notes: without_id(all, id), ..start.board() };
            lemma_update_within(start.boards, start.active as int, b, 3 * pin_limit());
        }
        self.boards[self.active].notes = kept;
        self.revision += 1;
        self.selected = None;
        self.editor = None;
        self.mode = Mode::Nav;
        proof {
            assert(self@ =~= start.delete_selected());
        }
    }

    // ---- world switching ----

    fn switch_world(&mut self, index: usize)
        requires
            old(self)@.can_let_go(),
        ensures
            final(self)@ == old(self)@.switch_world(index as int),
            final(self)@.safe(),
            final(self)@.revision <= old(self)@.revision + 1,
    {
        reveal(AppState::switch_world);
        let index: usize = index % self.boards.len();
        if index == self.active {
            return;
        }
        self.let_go();
        self.active = index;
        self.selected = None;
        self.mode = Mode::Nav;
        self.editor = None;
        self.prompt = None;
        self.centered = false;  // re-center on the new board's content
    }
}

} // verus!

//! What the mouse does.

use super::{
    cat2, highest, lemma_board_fits, lemma_cells_span, lemma_find_from, 
    lemma_update_within, push_note, tabs_view, take_note, App, Tab, TabKind,
};
use crate::geometry::WorldPoint;
use crate::input::{MouseButton, MouseEvent, MouseEventKind};
use crate::model::{boards_view, free_spot, BoardView, Note, NoteView};
use crate::state::{
    board_within, boards_within, near, pin_limit, roomy, strip_end, tab_covering, tabs_of,
    top_z, travelled, AppState, Drag, DropTarget, Mode, NEW_TAB_WIDTH,
};
use vstd::prelude::*;

verus! {

/// What is on screen is no further out than what it lies between.
proof fn lemma_shown_near(s: AppState, limit: int)
    requires
        near(s.camera.origin, limit),
        s.glide matches Some(g) ==> near(g.from, limit) && g.elapsed < crate::state::GLIDE,
        0 <= limit <= 4 * pin_limit(),
    ensures
        near(s.shown().origin, limit),
{
    if let Some(g) = s.glide {
        let left = 14_000 - g.elapsed as int / 10_000;
        super::lemma_eased(left);
        super::lemma_blend(g.from.x as int, s.camera.origin.x as int, travelled(g.elapsed));
        super::lemma_blend(g.from.y as int, s.camera.origin.y as int, travelled(g.elapsed));
    }
}

/// Tabs are as wide as they were where names and numbers of pins are.
proof fn lemma_same_strip(a: Seq<BoardView>, b: Seq<BoardView>, n: int)
    requires
        a.len() == b.len(),
        n <= a.len(),
        forall|i: int|
            0 <= i < a.len() ==> (#[trigger] a[i]).name == b[i].name && a[i].notes.len()
                == b[i].notes.len(),
    ensures
        strip_end(a, n) == strip_end(b, n),
    decreases n,
{
    if n > 0 {
        lemma_same_strip(a, b, n - 1);
        assert(a[n - 1].name == b[n - 1].name);
    }
}

impl App {
    /// A mouse event. Whatever a whole gesture changed becomes one undo step.
    pub fn on_mouse(&mut self, m: MouseEvent)
        requires
            old(self)@.has_room(),
        ensures
            final(self)@ == old(self)@.on_mouse(m),
            final(self)@.wf(),
            final(self)@.at_rest(),
    {
        self.begin_step();
        self.mouse(m);
        let ghost ending = self@;
        self.end_step();
        proof {
            crate::laws::lemma_ends_at_rest(ending);
        }
    }

    fn mouse(&mut self, m: MouseEvent)
        requires
            old(self)@.has_room(),
        ensures
            final(self)@ == old(self)@.mouse(m),
            final(self)@.safe(),
            final(self)@.revision < u64::MAX,
    {
        reveal(AppState::mouse);
        self.status = None;
        // The list covers the board, so a click lands on something you cannot
        // see. Closing it is a key press.
        if self.help {
            return;
        }
        match m.kind {
            MouseEventKind::ScrollUp => self.wheel(false, m.column, m.row),
            MouseEventKind::ScrollDown => self.wheel(true, m.column, m.row),
            MouseEventKind::Down(MouseButton::Left) => self.mouse_down(m.column, m.row),
            MouseEventKind::Drag(MouseButton::Left) => self.mouse_drag(m.column, m.row),
            MouseEventKind::Up(MouseButton::Left) => self.mouse_up(m.column, m.row),
            _ => {},
        }
    }

    /// The tab under a column of the strip, if any. Shared by clicking and by
    /// dropping a pin, so the two cannot resolve a column differently.
    fn tab_at(&self, col: u16) -> (out: Option<TabKind>)
        requires
            self@.wf(),
            strip_end(self@.boards, self@.boards.len() as int) + NEW_TAB_WIDTH <= u16::MAX,
        ensures
            match out {
                Some(k) => self@.tab_at(col) == Some(k@),
                None => self@.tab_at(col) is None,
            },
    {
        if col < self.tabs.x {
            return None;
        }
        let offset: u32 = (col - self.tabs.x) as u32;
        let tabs = self.tabs();
        let ghost all = tabs_view(tabs@);
        let mut i: usize = 0;
        while i < tabs.len()
            invariant
                i <= tabs@.len(),
                all == tabs_view(tabs@),
                all == tabs_of(self@.boards, self@.active),
                self.tabs.x <= col,
                offset == col - self.tabs.x,
                tab_covering(all, offset as int, 0) == tab_covering(all, offset as int, i as int),
            decreases tabs@.len() - i,
        {
            assert(all[i as int] == tabs@[i as int]@);
            let x: u32 = tabs[i].x as u32;
            if offset >= x && offset < x + tabs[i].width as u32 {
                return Some(copy_kind(&tabs[i].kind));
            }
            i += 1;
        }
        None
    }

    /// The world under a point, if that point is on the tab strip and lands on a
    /// world rather than the `+`.
    fn world_at_point(&self, col: u16, row: u16) -> (out: Option<usize>)
        requires
            self@.wf(),
            strip_end(self@.boards, self@.boards.len() as int) + NEW_TAB_WIDTH <= u16::MAX,
        ensures
            out == self@.world_at_point(col, row),
    {
        if !self.tabs.contains(col, row) {
            return None;
        }
        match self.tab_at(col) {
            Some(TabKind::World { index, name: _, notes: _, active: _ }) => Some(index),
            _ => None,
        }
    }

    /// Resolve a click on the tab strip: a world switches to it, the `+` opens
    /// the new-world prompt, and a gap does nothing.
    fn click_tab(&mut self, col: u16)
        requires
            old(self)@.can_let_go(),
            old(self)@.revision < u64::MAX - 1,
            !(old(self)@.drag matches Some(Drag::Note { id: _, off_x: _, off_y: _ })),
            strip_end(old(self)@.boards, old(self)@.boards.len() as int) + NEW_TAB_WIDTH
                <= u16::MAX,
        ensures
            final(self)@ == old(self)@.click_tab(col),
            final(self)@.safe(),
            final(self)@.revision <= old(self)@.revision + 2,
    {
        reveal(AppState::click_tab);
        let kind = match self.tab_at(col) {
            Some(k) => k,
            None => return,
        };
        // A click anywhere is also an answer of "not now" to an open prompt.
        if self.mode == Mode::Prompt {
            self.prompt = None;
            self.mode = Mode::Nav;
        }
        match kind {
            TabKind::World { index, name: _, notes: _, active: _ } => {
                if self.mode == Mode::Edit {
                    proof {
                        reveal(AppState::commit_edit);
                    }
                    self.commit_edit();
                }
                self.switch_world(index);
            },
            TabKind::New => self.begin_new_world(),
        }
    }

    fn mouse_down(&mut self, col: u16, row: u16)
        requires
            old(self)@.has_room(),
        ensures
            final(self)@ == old(self)@.mouse_down(col, row),
            final(self)@.safe(),
            final(self)@.revision <= old(self)@.revision + 3,
    {
        reveal(AppState::mouse_down);
        self.let_go();
        self.pressed(col, row);
    }

    fn pressed(&mut self, col: u16, row: u16)
        requires
            old(self)@.can_let_go(),
            old(self)@.revision < u64::MAX - 2,
            !(old(self)@.drag matches Some(Drag::Note { id: _, off_x: _, off_y: _ })),
            strip_end(old(self)@.boards, old(self)@.boards.len() as int) + NEW_TAB_WIDTH
                <= u16::MAX,
        ensures
            final(self)@ == old(self)@.pressed(col, row),
            final(self)@.safe(),
            final(self)@.revision <= old(self)@.revision + 2,
    {
        reveal(AppState::pressed);
        if self.tabs.contains(col, row) {
            self.click_tab(col);
            return;
        }
        if !self.viewport.contains(col, row) {
            return;
        }
        let ghost start = self@;
        // Editing ends the moment you touch the board - unless you touched the
        // note you are editing, where a press starts a text selection instead.
        if self.mode == Mode::Edit {
            if let Some(at) = self.edit_cursor_at(col, row, false) {
                if let Some(e) = self.editor.take() {
                    let mut editor = e;
                    editor.set_cursor(at, false);
                    self.editor = Some(editor);
                }
                self.drag = Some(Drag::Text);
                proof {
                    assert(self@ =~= start.pressed(col, row));
                }
                return;
            }
            self.commit_edit();
        }
        self.press_board(col, row);
    }

    /// A press on the board: the topmost note under the cursor wins, respecting
    /// stack order; with none there, the board itself is grabbed.
    #[verifier::rlimit(40)]
    fn press_board(&mut self, col: u16, row: u16)
        requires
            old(self)@.safe(),
            old(self)@.mode != Mode::Edit,
            old(self)@.revision < u64::MAX,
        ensures
            final(self)@ == old(self)@.press_board(col, row),
            final(self)@.safe(),
            final(self)@.revision <= old(self)@.revision + 1,
    {
        reveal(AppState::press_board);
        let world = self.world_at(col, row);
        let grabbed = match self.pin_at(col, row) {
            Some(n) => {
                let off_x: i128 = world.x - n.x;
                let off_y: i128 = world.y - n.y;
                Some((n.id, off_x, off_y))
            },
            None => None,
        };
        match grabbed {
            Some((id, off_x, off_y)) => {
                self.selected = Some(id);
                let ghost chosen = self@;
                self.bring_to_front(id);
                let ghost raised = self@;
                assert(raised == chosen.bring_to_front(id));
                self.drag = Some(Drag::Note { id, off_x, off_y });
                assert(self@ == (AppState {
                    drag: Some(Drag::Note { id, off_x, off_y }),
                    ..raised
                }));
            },
            None => {
                self.selected = None;
                self.drag = Some(Drag::Pan { col, row, origin: self.camera.origin });
            },
        }
    }

    fn bring_to_front(&mut self, id: u64)
        requires
            old(self)@.safe(),
            old(self)@.revision < u64::MAX,
        ensures
            final(self)@ == old(self)@.bring_to_front(id),
            final(self)@.safe(),
            final(self)@.revision <= old(self)@.revision + 1,
    {
        reveal(AppState::bring_to_front);
        proof {
            self.lemma_found(id);
        }
        let top: u32 = highest(&self.active_board().notes);
        match self.place_of(id) {
            Some(i) => {
                if self.boards[self.active].notes[i].z != top {
                    let mut note = self.boards[self.active].notes[i].clone();
                    note.z = top.saturating_add(1);
                    self.set_note(i, note);
                } else {
                    self.revision += 1;
                }
            },
            None => {
                self.revision += 1;
            },
        }
    }

    /// Release: a pin let go over another world's tab lands there. Anything
    /// else just ends the gesture.
    fn mouse_up(&mut self, col: u16, row: u16)
        requires
            old(self)@.has_room(),
        ensures
            final(self)@ == old(self)@.mouse_up(col, row),
            final(self)@.safe(),
            final(self)@.revision <= old(self)@.revision + 1,
    {
        reveal(AppState::mouse_up);
        let ghost start = self@;
        match self.drag {
            Some(Drag::Note { id, off_x: _, off_y: _ }) => {
                match self.world_at_point(col, row) {
                    Some(world) => self.move_note_to_board(id, world),
                    None => self.settle_note(id),
                }
            },
            Some(Drag::Text) => {
                if let Some(e) = self.editor.take() {
                    let mut editor = e;
                    editor.rest();
                    self.editor = Some(editor);
                }
            },
            _ => {},
        }
        self.drag = None;
        self.drop_target = None;
        proof {
            assert(self@ =~= start.mouse_up(col, row));
        }
    }

    /// Move a pin to another world, putting it in the middle of what is there
    /// and on top of it.
    ///
    /// The view deliberately stays where it is: the common case is clearing
    /// several pins off one board in a row, and following each one would cost
    /// you your place every time.
    fn move_note_to_board(&mut self, id: u64, target: usize)
        requires
            old(self)@.has_room(),
        ensures
            final(self)@ == old(self)@.move_note_to_board(id, target),
            final(self)@.safe(),
            final(self)@.revision <= old(self)@.revision + 1,
    {
        reveal(AppState::move_note_to_board);
        let ghost start = self@;
        let at: usize = match self.place_of(id) {
            Some(i) => i,
            None => return,
        };
        if target == self.active || target >= self.boards.len() {
            return;
        }
        let ghost there = start.boards[target as int];
        proof {
            assert(board_within(start.boards[target as int], pin_limit()));
            assert(roomy(start.boards[target as int].notes));
            lemma_board_fits(there, pin_limit());
        }
        // Worlds do not share a coordinate space, so the pin's old x and y mean
        // nothing here: keeping them can strand it far outside the cloud this
        // board frames. Land it in the middle, clear of what is already there.
        assert(self.boards@[target as int]@ == there);
        let center = self.boards[target].content_center();
        let wanted = WorldPoint { x: center.x - 714_000, y: center.y - 535_500 };
        proof {
            crate::model::law_free_spot_is_free(there.notes, wanted, None);
        }
        let spot = self.boards[target].free_spot(wanted, None);
        let top: u32 = highest(&self.boards[target].notes);
        let mut note = take_note(&mut self.boards, self.active, at);
        let ghost here = start.with_notes(start.notes().remove(at as int));
        assert(self@ =~= here);
        note.x = spot.x;
        note.y = spot.y;
        note.z = top.saturating_add(1);
        let ghost moved = NoteView {
            x: spot.x,
            y: spot.y,
            z: crate::state::above(top_z(there.notes)),
            ..start.notes()[at as int]
        };
        assert(note@ =~= moved);
        assert(boards_view(self.boards@)[target as int] == self.boards@[target as int]@);
        push_note(&mut self.boards, target, note);
        self.selected = None;
        self.revision += 1;
        assert(boards_view(self.boards@)[target as int] == self.boards@[target as int]@);
        self.status = Some(cat2("moved to ", &self.boards[target].name));
        proof {
            let left = BoardView { notes: start.notes().remove(at as int), ..start.board() };
            let grown = BoardView { notes: there.notes.push(moved), ..there };
            assert(boards_within(start.boards, 3 * pin_limit()));
            assert(board_within(start.boards[start.active as int], 3 * pin_limit()));
            assert forall|k: int| 0 <= k < left.notes.len() implies near(
                (#[trigger] left.notes[k]).position(),
                3 * pin_limit(),
            ) by {
                if k < at {
                    assert(left.notes[k] == start.notes()[k]);
                } else {
                    assert(left.notes[k] == start.notes()[k + 1]);
                }
            }
            assert forall|k: int| 0 <= k < grown.notes.len() implies near(
                (#[trigger] grown.notes[k]).position(),
                3 * pin_limit(),
            ) by {
                if k < there.notes.len() {
                    assert(grown.notes[k] == there.notes[k]);
                    assert(near(there.notes[k].position(), pin_limit()));
                }
            }
            lemma_update_within(start.boards, start.active as int, left, 3 * pin_limit());
            lemma_update_within(here.boards, target as int, grown, 3 * pin_limit());
            assert(self@ =~= start.move_note_to_board(id, target));
        }
    }

    /// Nudge a just-dropped pin clear of anything it would hide.
    ///
    /// Done on release rather than while dragging on purpose: a dragged pin
    /// tracks the cursor 1:1, and a cascade running mid-gesture would have it
    /// squirming out from under the pointer. It settles once, when you let go,
    /// inside the same undo step as the drag.
    fn settle_note(&mut self, id: u64)
        requires
            old(self)@.safe(),
            old(self)@.revision < u64::MAX,
            board_within(old(self)@.board(), pin_limit()),
        ensures
            final(self)@ == old(self)@.settle_note(id),
            final(self)@.safe(),
            final(self)@.revision <= old(self)@.revision + 1,
    {
        reveal(AppState::settle_note);
        let ghost start = self@;
        let i: usize = match self.place_of(id) {
            Some(i) => i,
            None => return,
        };
        let at = self.boards[self.active].notes[i].position();
        proof {
            assert(near(start.notes()[i as int].position(), pin_limit()));
            crate::model::law_free_spot_is_free(start.notes(), at, Some(id));
        }
        let spot = self.active_board().free_spot(at, Some(id));
        if spot == at {
            return;  // clear already; don't count a change for a no-op
        }
        let mut note = self.boards[self.active].notes[i].clone();
        note.x = spot.x;
        note.y = spot.y;
        self.set_note(i, note);
    }

    /// Let go of the pin that is being dragged, if one is. For when the board it
    /// is on is left, or a release never arrived: it settles where it is, so it
    /// hides no other pin.
    pub(super) fn let_go(&mut self)
        requires
            old(self)@.can_let_go(),
        ensures
            final(self)@ == old(self)@.let_go(),
            final(self)@.safe(),
            final(self)@.revision <= old(self)@.revision + 1,
            final(self)@.undo == old(self)@.undo,
            final(self)@.redo == old(self)@.redo,
            final(self)@.active == old(self)@.active,
            final(self)@.boards.len() == old(self)@.boards.len(),
            strip_end(final(self)@.boards, final(self)@.boards.len() as int) == strip_end(
                old(self)@.boards,
                old(self)@.boards.len() as int,
            ),
            !(final(self)@.drag matches Some(Drag::Note { id: _, off_x: _, off_y: _ })),
    {
        reveal(AppState::let_go);
        let ghost start = self@;
        if let Some(Drag::Note { id, off_x: _, off_y: _ }) = self.drag {
            self.settle_note(id);
            self.drag = None;
            self.drop_target = None;
            proof {
                assert(self@ =~= start.let_go());
                reveal(AppState::settle_note);
                if start.note(id) is Some {
                    crate::app::lemma_find_from(start.notes(), id, 0);
                }
                lemma_same_strip(start.boards, self@.boards, start.boards.len() as int);
            }
        }
    }

    fn mouse_drag(&mut self, col: u16, row: u16)
        requires
            old(self)@.has_room(),
        ensures
            final(self)@ == old(self)@.mouse_drag(col, row),
            final(self)@.safe(),
            final(self)@.revision <= old(self)@.revision + 1,
    {
        reveal(AppState::mouse_drag);
        let ghost start = self@;
        match self.drag {
            Some(Drag::Note { id, off_x, off_y }) => {
                // A note dragged over the strip stops tracking the cursor and
                // arms a tab instead. Without this the pin would chase the
                // cursor up into the header, which is neither where it lives
                // nor where it would land.
                //
                // Tracking stops over the *whole* strip, not just over the world
                // tabs: the `+` is not a drop target, but it is still no place
                // for a pin.
                let world = self.world_at(col, row);
                proof {
                    lemma_shown_near(start, 2 * pin_limit());
                    self.lemma_found(id);
                }
                self.drop_target = match self.world_at_point(col, row) {
                    Some(world) => Some(DropTarget { world, col }),
                    None => None,
                };
                if self.tabs.contains(col, row) {
                    return;
                }
                match self.place_of(id) {
                    Some(i) => {
                        let mut note = self.boards[self.active].notes[i].clone();
                        note.x = world.x - off_x;
                        note.y = world.y - off_y;
                        self.set_note(i, note);
                    },
                    None => {
                        self.revision += 1;
                    },
                }
            },
            Some(Drag::Text) => {
                if let Some(at) = self.edit_cursor_at(col, row, true) {
                    if let Some(e) = self.editor.take() {
                        let mut editor = e;
                        editor.set_cursor(at, true);
                        self.editor = Some(editor);
                    }
                }
                proof {
                    assert(self@ =~= start.mouse_drag(col, row));
                }
            },
            Some(Drag::Pan { col: c0, row: r0, origin }) => {
                self.glide = None;  // the board follows the pointer, 1:1
                let (dx, dy) = super::grains(
                    col as i128 - c0 as i128,
                    row as i128 - r0 as i128,
                    self.camera.zoom,
                );
                self.set_origin(WorldPoint { x: origin.x - dx, y: origin.y - dy });
            },
            None => {},
        }
    }
}

/// A copy of what a tab stands for.
fn copy_kind(kind: &TabKind) -> (out: TabKind)
    ensures
        out@ == kind@,
{
    match kind {
        TabKind::World { index, name, notes, active } => TabKind::World {
            index: *index,
            name: name.clone(),
            notes: *notes,
            active: *active,
        },
        TabKind::New => TabKind::New,
    }
}

} // verus!

//! Pins never hide each other: a pin can overlap its neighbours but can never
//! vanish behind one, whatever is done to the boards.

use crate::changes::distinct;
use crate::input::{KeyEvent, MouseButton, MouseEvent, MouseEventKind};
use crate::laws::{history_key, same_memory};
use crate::model::{cascade_fits, free_spot, law_free_spot_is_free, taken, BoardView, NoteView};
use crate::state::{
    board_within, find_from, near, pin_limit, tab_covering, tabs_of, without_id, AppState, Drag, SnapshotView, TabKindView,
};
use vstd::prelude::*;

verus! {

/// No pin is where another would hide it, or be hidden by it - but for the pin
/// with the id `held`, if one is in hand.
pub open spec fn apart_but(notes: Seq<NoteView>, held: Option<u64>) -> bool {
    forall|i: int, j: int|
        0 <= i < notes.len() && 0 <= j < notes.len() && i != j && Some((#[trigger] notes[i]).id)
            != held && Some((#[trigger] notes[j]).id) != held ==> !notes[i].crowds(
            notes[j].position(),
        )
}

/// No pin hides another.
pub open spec fn apart(notes: Seq<NoteView>) -> bool {
    apart_but(notes, None)
}

/// On no board does a pin hide another.
pub open spec fn all_apart(boards: Seq<BoardView>) -> bool {
    forall|b: int| 0 <= b < boards.len() ==> apart((#[trigger] boards[b]).notes)
}

pub open spec fn snapshots_apart(all: Seq<SnapshotView>) -> bool {
    forall|i: int| 0 <= i < all.len() ==> all_apart((#[trigger] all[i]).boards)
}

/// No pin hides another on any board that undo or redo can bring back.
pub open spec fn history_apart(s: AppState) -> bool {
    &&& snapshots_apart(s.undo)
    &&& snapshots_apart(s.redo)
    &&& s.pending matches Some(snap) ==> all_apart(snap.boards)
}

/// The pin that is being dragged.
pub open spec fn held(s: AppState) -> Option<u64> {
    match s.drag {
        Some(Drag::Note { id, off_x: _, off_y: _ }) => Some(id),
        _ => None,
    }
}

/// No pin hides another on any board but for the one in hand, which is on the
/// board being shown.
pub open spec fn boards_tidy(s: AppState) -> bool {
    forall|b: int|
        0 <= b < s.boards.len() ==> apart_but(
            (#[trigger] s.boards[b]).notes,
            if b == s.active {
                held(s)
            } else {
                None
            },
        )
}

/// No pin hides another on any board, now or in the history. The pin in your
/// hand may, and where it was before you took it is in the history.
pub open spec fn tidy(s: AppState) -> bool {
    &&& history_apart(s)
    &&& boards_tidy(s)
    &&& held(s) is Some ==> s.pending is Some
}

/// The pin in your hand, if there is one, has an id of its own, and there are
/// coordinates for wherever it ends up.
pub open spec fn can_settle(s: AppState) -> bool {
    held(s) matches Some(id) ==> {
        &&& distinct(s.boards)
        &&& s.note(id) matches Some(n) ==> cascade_fits(s.notes(), n.position())
    }
}

// ---- what handlers do to the boards ----

/// The same boards, with the same one shown and the same pin in hand.
spec fn same_boards(a: AppState, b: AppState) -> bool {
    a.boards == b.boards && a.active == b.active && a.drag == b.drag
}

/// Pins where they were, and only them.
spec fn same_places(a: Seq<NoteView>, b: Seq<NoteView>) -> bool {
    &&& a.len() == b.len()
    &&& forall|i: int|
        0 <= i < a.len() ==> (#[trigger] a[i]).position() == b[i].position() && a[i].id == b[i].id
}

proof fn lemma_same_places(a: Seq<NoteView>, b: Seq<NoteView>, held: Option<u64>)
    requires
        same_places(a, b),
        apart_but(a, held),
    ensures
        apart_but(b, held),
{
    assert forall|i: int, j: int|
        0 <= i < b.len() && 0 <= j < b.len() && i != j && Some((#[trigger] b[i]).id) != held
            && Some((#[trigger] b[j]).id) != held implies !b[i].crowds(b[j].position()) by {
        assert(a[i].position() == b[i].position());
        assert(a[j].position() == b[j].position());
        assert(!a[i].crowds(a[j].position()));
    }
}

/// What is apart stays so whatever is in hand.
proof fn lemma_apart_weakens(notes: Seq<NoteView>, held: Option<u64>)
    requires
        apart(notes),
    ensures
        apart_but(notes, held),
{
    assert forall|i: int, j: int|
        0 <= i < notes.len() && 0 <= j < notes.len() && i != j && Some((#[trigger] notes[i]).id)
            != held && Some((#[trigger] notes[j]).id) != held implies !notes[i].crowds(
        notes[j].position(),
    ) by {
        assert(Some(notes[i].id) != None::<u64>);
        assert(Some(notes[j].id) != None::<u64>);
    }
}

proof fn lemma_all_apart_tidy(s: AppState)
    requires
        all_apart(s.boards),
    ensures
        boards_tidy(s),
{
    assert forall|b: int| 0 <= b < s.boards.len() implies apart_but(
        (#[trigger] s.boards[b]).notes,
        if b == s.active {
            held(s)
        } else {
            None
        },
    ) by {
        assert(apart(s.boards[b].notes));
        lemma_apart_weakens(s.boards[b].notes, held(s));
    }
}

proof fn lemma_tidy_all_apart(s: AppState)
    requires
        held(s) is None,
        boards_tidy(s),
    ensures
        all_apart(s.boards),
{
    assert forall|b: int| 0 <= b < s.boards.len() implies apart((#[trigger] s.boards[b]).notes) by {
    }
}

/// The pins of the board that is shown replaced by some that are apart.
proof fn lemma_board_changed(s: AppState, t: AppState, notes: Seq<NoteView>)
    requires
        s.active < s.boards.len(),
        boards_tidy(s),
        t.boards == s.with_notes(notes).boards,
        t.active == s.active,
        t.drag == s.drag,
        apart_but(s.notes(), held(s)) ==> apart_but(notes, held(s)),
    ensures
        boards_tidy(t),
        t.boards.len() == s.boards.len(),
{
    assert(apart_but(s.boards[s.active as int].notes, held(s)));
    assert(t.boards[s.active as int].notes == notes);
    assert forall|b: int| 0 <= b < t.boards.len() implies apart_but(
        (#[trigger] t.boards[b]).notes,
        if b == t.active {
            held(t)
        } else {
            None
        },
    ) by {
        if b != s.active {
            assert(t.boards[b] == s.boards[b]);
        }
    }
}

/// The pin with the id `id` put where it crowds no other.
proof fn lemma_settled(notes: Seq<NoteView>, at: int, placed: NoteView)
    requires
        0 <= at < notes.len(),
        apart_but(notes, Some(placed.id)),
        notes[at].id == placed.id,
        forall|i: int| 0 <= i < notes.len() && i != at ==> (#[trigger] notes[i]).id != placed.id,
        !taken(notes, placed.position(), Some(placed.id)),
    ensures
        apart(notes.update(at, placed)),
{
    let now = notes.update(at, placed);
    assert forall|i: int, j: int|
        0 <= i < now.len() && 0 <= j < now.len() && i != j && Some((#[trigger] now[i]).id)
            != None::<u64> && Some((#[trigger] now[j]).id) != None::<u64> implies !now[i].crowds(
        now[j].position(),
    ) by {
        if i != at && j != at {
            assert(!notes[i].crowds(notes[j].position()));
        } else if i != at {
            assert(!notes[i].crowds(placed.position()));
        } else {
            assert(!notes[j].crowds(placed.position()));
        }
    }
}

/// Once the pin in hand is let go, no pin hides another.
proof fn lemma_let_go(s: AppState)
    requires
        s.active < s.boards.len(),
        boards_tidy(s),
        can_settle(s),
    ensures
        all_apart(s.let_go().boards),
        held(s.let_go()) is None,
        s.let_go().active == s.active,
        s.let_go().boards.len() == s.boards.len(),
        same_memory(s, s.let_go()),
        held(s) is None ==> s.let_go() == s,
{
    reveal(AppState::let_go);
    reveal(AppState::settle_note);
    let t = s.let_go();
    if let Some(Drag::Note { id, off_x: _, off_y: _ }) = s.drag {
        lemma_settle(s, id);
    } else {
        lemma_tidy_all_apart(s);
    }
}

proof fn lemma_settle(s: AppState, id: u64)
    requires
        s.active < s.boards.len(),
        boards_tidy(s),
        can_settle(s),
        held(s) == Some(id),
    ensures
        all_apart(s.settle_note(id).boards),
        s.settle_note(id).active == s.active,
        s.settle_note(id).boards.len() == s.boards.len(),
        same_memory(s, s.settle_note(id)),
{
    reveal(AppState::settle_note);
    crate::app::lemma_find_from(s.notes(), id, 0);
    let here = s.notes();
    let t = s.settle_note(id);
    assert(apart_but(s.boards[s.active as int].notes, Some(id)));
    if let Some(at) = find_from(here, id, 0) {
        let n = here[at];
        let spot = free_spot(here, n.position(), Some(id));
        law_free_spot_is_free(here, n.position(), Some(id));
        let placed = NoteView { x: spot.x, y: spot.y, ..n };
        assert forall|i: int| 0 <= i < here.len() && i != at implies (#[trigger] here[i]).id
            != placed.id by {
            assert(s.boards[s.active as int].notes[i].id != s.boards[s.active as int].notes[at].id);
        }
        lemma_settled(here, at, placed);
        assert(spot == n.position() ==> here.update(at, placed) =~= here);
        assert(t.boards[s.active as int].notes == here.update(at, placed));
    } else {
        assert(t.boards == s.boards);
        assert forall|i: int, j: int|
            0 <= i < here.len() && 0 <= j < here.len() && i != j && Some((#[trigger] here[i]).id)
                != None::<u64> && Some((#[trigger] here[j]).id) != None::<u64> implies !here[
            i].crowds(here[j].position()) by {
            assert(here[i].id != id && here[j].id != id);
        }
        assert(apart(s.boards[s.active as int].notes));
    }
    assert forall|b: int| 0 <= b < t.boards.len() implies apart((#[trigger] t.boards[b]).notes) by {
        if b != s.active {
            assert(t.boards[b] == s.boards[b]);
        }
    }
}

/// A pin replaced by one in the same place.
proof fn lemma_with_note(s: AppState, id: u64, note: NoteView)
    requires
        s.active < s.boards.len(),
        boards_tidy(s),
        s.note(id) matches Some(n) ==> note.position() == n.position() && note.id == n.id,
    ensures
        boards_tidy(s.with_note(id, note)),
        s.with_note(id, note).boards.len() == s.boards.len(),
        s.with_note(id, note).active == s.active,
        s.with_note(id, note).drag == s.drag,
{
    crate::app::lemma_find_from(s.notes(), id, 0);
    if let Some(i) = find_from(s.notes(), id, 0) {
        let now = s.notes().update(i, note);
        assert(same_places(s.notes(), now));
        if apart_but(s.notes(), held(s)) {
            lemma_same_places(s.notes(), now, held(s));
        }
        lemma_board_changed(s, s.with_note(id, note), now);
    }
}

proof fn lemma_edit_apart(s: AppState)
    requires
        s.active < s.boards.len(),
        boards_tidy(s),
    ensures
        same_boards(s, s.begin_edit()),
        boards_tidy(s.commit_edit()),
        s.commit_edit().active == s.active,
        s.commit_edit().drag == s.drag,
        s.commit_edit().boards.len() == s.boards.len(),
{
    reveal(AppState::begin_edit);
    reveal(AppState::center_on_note);
    reveal(AppState::commit_edit);
    if let (Some(id), Some(e)) = (s.selected, s.editor) {
        if let Some(n) = s.note(id) {
            lemma_with_note(
                s,
                id,
                NoteView {
                    title: crate::state::title_of(e.text()),
                    body: crate::state::body_of(e.text()),
                    ..n
                },
            );
        }
    }
}

proof fn lemma_leave_apart(s: AppState, index: int)
    requires
        s.active < s.boards.len(),
        boards_tidy(s),
        can_settle(s),
    ensures
        boards_tidy(s.quit()),
        boards_tidy(s.switch_world(index)),
{
    reveal(AppState::quit);
    reveal(AppState::switch_world);
    lemma_let_go(s);
    lemma_all_apart_tidy(s.let_go());
    lemma_edit_apart(s.let_go());
    if s.switch_world(index) != s {
        lemma_all_apart_tidy(s.switch_world(index));
    }
}

/// A pin added in a free place.
proof fn lemma_added(notes: Seq<NoteView>, note: NoteView, held: Option<u64>)
    requires
        apart_but(notes, held),
        !taken(notes, note.position(), None),
    ensures
        apart_but(notes.push(note), held),
{
    let now = notes.push(note);
    assert forall|i: int, j: int|
        0 <= i < now.len() && 0 <= j < now.len() && i != j && Some((#[trigger] now[i]).id) != held
            && Some((#[trigger] now[j]).id) != held implies !now[i].crowds(now[j].position()) by {
        if i < notes.len() && j < notes.len() {
            assert(!notes[i].crowds(notes[j].position()));
        } else if i < notes.len() {
            assert(Some(notes[i].id) != None::<u64>);
        } else {
            assert(Some(notes[j].id) != None::<u64>);
            assert(!notes[j].crowds(note.position()));
        }
    }
}

proof fn lemma_new_note_apart(s: AppState)
    requires
        s.active < s.boards.len(),
        boards_tidy(s),
        cascade_fits(s.notes(), s.fresh_wanted()),
    ensures
        boards_tidy(s.new_note()),
{
    reveal(AppState::new_note);
    let note = s.fresh_note();
    crate::laws::law_a_new_note_is_clear(s);
    if apart_but(s.notes(), held(s)) {
        lemma_added(s.notes(), note, held(s));
    }
    let placed = AppState {
        camera: crate::geometry::Camera {
            zoom: crate::geometry::ZoomLevel::Document,
            ..s.camera
        },
        color_tick: (s.color_tick + 1) as usize,
        next_id: (s.next_id + 1) as u64,
        selected: Some(note.id),
        ..s
    }.touched().with_notes(s.notes().push(note)).clamp_origin();
    lemma_board_changed(s, placed, s.notes().push(note));
    lemma_edit_apart(placed);
}

/// What is left of the pins is some of them, in order.
proof fn lemma_without(notes: Seq<NoteView>, id: u64, held: Option<u64>)
    requires
        apart_but(notes, held),
    ensures
        apart_but(without_id(notes, id), held),
        forall|i: int|
            0 <= i < without_id(notes, id).len() ==> notes.contains(
                #[trigger] without_id(notes, id)[i],
            ),
        without_id(notes, id).len() <= notes.len(),
    decreases notes.len(),
{
    if notes.len() > 0 {
        let before = notes.drop_last();
        assert forall|i: int, j: int|
            0 <= i < before.len() && 0 <= j < before.len() && i != j && Some(
                (#[trigger] before[i]).id,
            ) != held && Some((#[trigger] before[j]).id) != held implies !before[i].crowds(
            before[j].position(),
        ) by {
            assert(!notes[i].crowds(notes[j].position()));
        }
        lemma_without(before, id, held);
        let left = without_id(before, id);
        let last = notes.last();
        assert(last == notes[notes.len() - 1]);
        assert forall|i: int| 0 <= i < left.len() implies notes.contains(#[trigger] left[i]) && (
        Some(left[i].id) != held && Some(last.id) != held ==> !left[i].crowds(last.position())
            && !last.crowds(left[i].position())) by {
            assert(before.contains(left[i]));
            let k = choose|k: int| 0 <= k < before.len() && before[k] == left[i];
            assert(notes[k] == left[i]);
        }
        if last.id != id {
            let now = left.push(last);
            assert(now == without_id(notes, id));
            assert forall|i: int, j: int|
                0 <= i < now.len() && 0 <= j < now.len() && i != j && Some((#[trigger] now[i]).id)
                    != held && Some((#[trigger] now[j]).id) != held implies !now[i].crowds(
                now[j].position(),
            ) by {
                if i < left.len() && j < left.len() {
                    assert(!left[i].crowds(left[j].position()));
                } else if i < left.len() {
                    assert(now[i] == left[i]);
                } else {
                    assert(now[j] == left[j]);
                }
            }
            assert(notes.contains(last));
        }
    }
}

proof fn lemma_small_apart(s: AppState, forward: bool)
    requires
        s.active < s.boards.len(),
        boards_tidy(s),
    ensures
        boards_tidy(s.delete_selected()),
        boards_tidy(s.cycle_note_color(forward)),
        same_boards(s, s.page_selected(forward)),
        same_boards(s, s.yank_note()),
        same_boards(s, s.copy_selection(forward)),
        same_boards(s, s.zoom_at_center(forward)),
        same_boards(s, s.follow_caret()),
{
    reveal(AppState::delete_selected);
    reveal(AppState::cycle_note_color);
    reveal(AppState::page_selected);
    reveal(AppState::yank_note);
    reveal(AppState::copy_selection);
    reveal(AppState::zoom_at_center);
    reveal(AppState::zoom_at);
    reveal(AppState::zoom_onto_note);
    reveal(AppState::follow_caret);
    if let Some(id) = s.selected {
        if apart_but(s.notes(), held(s)) {
            lemma_without(s.notes(), id, held(s));
        }
        lemma_board_changed(s, s.delete_selected(), without_id(s.notes(), id));
        if let Some(n) = s.note(id) {
            lemma_with_note(s, id, NoteView { color: n.color.stepped(forward), ..n });
        }
    }
}

proof fn lemma_step_apart(s: AppState, step: crate::state::Step, dx: int, dy: int)
    ensures
        same_boards(s, s.select_toward(step)),
        same_boards(s, s.pan_cells(dx, dy)),
{
    reveal(AppState::select_toward);
    reveal(AppState::bring_into_view);
    reveal(AppState::center_on_note);
    reveal(AppState::pan_cells);
}

/// The world that is shown taken away, with the pin in hand if there is one.
proof fn lemma_deleted_apart(s: AppState)
    requires
        s.active < s.boards.len(),
        boards_tidy(s),
    ensures
        boards_tidy(s.delete_active_world()),
{
    reveal(AppState::delete_active_world);
    let t = s.delete_active_world();
    assert forall|b: int| 0 <= b < t.boards.len() implies apart((#[trigger] t.boards[b]).notes) by {
        if b < s.active {
            assert(t.boards[b] == s.boards[b]);
        } else {
            assert(t.boards[b] == s.boards[b + 1]);
        }
    }
    lemma_all_apart_tidy(t);
}

proof fn lemma_world_apart(s: AppState)
    requires
        s.active < s.boards.len(),
        boards_tidy(s),
    ensures
        boards_tidy(s.begin_new_world()),
        boards_tidy(s.begin_delete_world()),
        boards_tidy(s.confirm_prompt()),
{
    reveal(AppState::begin_new_world);
    reveal(AppState::begin_delete_world);
    reveal(AppState::confirm_prompt);
    lemma_edit_apart(s);
    lemma_deleted_apart(s);
    if let Some(p) = s.prompt {
        let name = crate::text::trim(p.input);
        let t = s.create_world(name);
        assert forall|b: int| 0 <= b < t.boards.len() implies apart_but(
            (#[trigger] t.boards[b]).notes,
            if b == t.active {
                held(t)
            } else {
                None
            },
        ) by {
            if b < s.boards.len() {
                assert(t.boards[b] == s.boards[b]);
            }
        }
    }
}

proof fn lemma_nav_char_apart(s: AppState, c: char, ctrl: bool)
    requires
        s.active < s.boards.len(),
        boards_tidy(s),
        can_settle(s),
        cascade_fits(s.notes(), s.fresh_wanted()),
        !(c == 'u' || c == 'r' && ctrl),
    ensures
        boards_tidy(s.nav_char(c, ctrl)),
{
    reveal(AppState::nav_char);
    lemma_edit_apart(s);
    lemma_leave_apart(s, c as int - '1' as int);
    lemma_new_note_apart(s);
    lemma_world_apart(s);
    lemma_small_apart(s, true);
    lemma_small_apart(s, false);
    lemma_step_apart(s, crate::state::Step::Left, 0, 0);
    lemma_step_apart(s, crate::state::Step::Right, 0, 0);
    lemma_step_apart(s, crate::state::Step::Up, 0, 0);
    lemma_step_apart(s, crate::state::Step::Down, 0, 0);
}

proof fn lemma_nav_key_apart(s: AppState, k: KeyEvent)
    requires
        s.active < s.boards.len(),
        boards_tidy(s),
        can_settle(s),
        cascade_fits(s.notes(), s.fresh_wanted()),
        !history_key(k),
    ensures
        boards_tidy(s.nav_key(k)),
{
    reveal(AppState::nav_key);
    lemma_edit_apart(s);
    lemma_leave_apart(s, s.active + 1);
    lemma_leave_apart(s, s.active + s.boards.len() - 1);
    lemma_small_apart(s, true);
    lemma_small_apart(s, false);
    lemma_step_apart(s, crate::state::Step::Left, -4, 0);
    lemma_step_apart(s, crate::state::Step::Right, 4, 0);
    lemma_step_apart(s, crate::state::Step::Up, 0, -4);
    lemma_step_apart(s, crate::state::Step::Down, 0, 4);
    if let crate::input::KeyCode::Char(c) = k.code {
        lemma_nav_char_apart(s, c, k.modifiers.control);
    }
}

proof fn lemma_key_apart(s: AppState, k: KeyEvent)
    requires
        s.active < s.boards.len(),
        boards_tidy(s),
        can_settle(s),
        cascade_fits(s.notes(), s.fresh_wanted()),
        !crate::laws::walks_history(s, k),
    ensures
        boards_tidy(s.key(k)),
{
    reveal(AppState::key);
    reveal(AppState::edit_key);
    reveal(AppState::prompt_key);
    let quiet = AppState { status: None, ..s };
    assert(same_boards(s, quiet));
    if !history_key(k) {
        lemma_nav_key_apart(quiet, k);
    }
    lemma_edit_apart(quiet);
    lemma_leave_apart(quiet, 0);
    lemma_world_apart(quiet);
    lemma_small_apart(quiet, true);
    lemma_small_apart(quiet, false);
}

/// The keys that walk the history bring back what is in it.
proof fn lemma_walk_apart(s: AppState, k: KeyEvent)
    requires
        s.active < s.boards.len(),
        tidy(s),
        can_settle(s),
        crate::laws::walks_history(s, k),
        s.undo.len() <= crate::state::UNDO_DEPTH,
    ensures
        tidy(s.key(k)),
{
    reveal(AppState::key);
    reveal(AppState::nav_key);
    reveal(AppState::nav_char);
    let quiet = AppState { status: None, ..s };
    assert(same_boards(s, quiet));
    lemma_undone_apart(quiet);
    lemma_redone_apart(quiet);
}

proof fn lemma_undone_apart(s: AppState)
    requires
        s.active < s.boards.len(),
        tidy(s),
        can_settle(s),
    ensures
        tidy(s.undo_step()),
{
    reveal(AppState::undo_step);
    reveal(AppState::restore);
    let t = s.undo_step();
    lemma_let_go(s);
    if !s.read_only && s.undo.len() > 0 {
        lemma_all_apart_tidy(t);
    } else {
        assert(same_boards(s, t));
    }
}

proof fn lemma_redone_apart(s: AppState)
    requires
        s.active < s.boards.len(),
        tidy(s),
        can_settle(s),
        s.undo.len() <= crate::state::UNDO_DEPTH,
    ensures
        tidy(s.redo_step()),
{
    reveal(AppState::redo_step);
    reveal(AppState::restore);
    let t = s.redo_step();
    lemma_let_go(s);
    if !s.read_only && s.redo.len() > 0 {
        lemma_all_apart_tidy(t);
    } else {
        assert(same_boards(s, t));
    }
}

/// The state an event begins in is in the history once it begins.
proof fn lemma_begun_tidy(s: AppState)
    requires
        tidy(s),
    ensures
        tidy(s.begin_step()),
        s.begin_step().pending is Some,
{
    if s.pending is None {
        lemma_tidy_all_apart(s);
    }
    assert(same_boards(s, s.begin_step()));
}

proof fn lemma_end_tidy(s: AppState)
    requires
        tidy(s),
    ensures
        tidy(s.end_step()),
{
    reveal(AppState::end_step);
    reveal(AppState::restore);
    if s.drag is None {
        lemma_tidy_all_apart(s);
        lemma_all_apart_tidy(s.end_step());
    }
}

proof fn lemma_same_boards(a: AppState, b: AppState)
    requires
        tidy(a),
        same_boards(a, b),
        same_memory(a, b),
    ensures
        tidy(b),
{
}

proof fn lemma_follow_tidy(s: AppState)
    requires
        tidy(s),
    ensures
        tidy(s.follow_caret()),
{
    crate::laws::lemma_follow_memory(s);
    assert(s.follow_caret().active == s.active) by {
        reveal(AppState::follow_caret);
    }
    lemma_same_boards(s, s.follow_caret());
}

/// No key makes a pin hide another. A pin in your hand may pass over others, but
/// it is clear of them once its world is left, or you leave.
pub proof fn law_keys_keep_pins_apart(s: AppState, k: KeyEvent)
    requires
        s.wf(),
        tidy(s),
        can_settle(s),
        cascade_fits(s.notes(), s.fresh_wanted()),
    ensures
        tidy(s.on_key(k)),
{
    let begun = s.begin_step();
    let handled = begun.key(k);
    lemma_begun_tidy(s);
    assert(same_boards(s, begun));
    if crate::laws::walks_history(s, k) {
        lemma_walk_apart(begun, k);
    } else {
        assert(begun.fresh_wanted() == s.fresh_wanted());
        lemma_key_apart(begun, k);
        crate::laws::lemma_key_memory(begun, k);
    }
    lemma_follow_tidy(handled);
    lemma_end_tidy(handled.follow_caret());
}

/// No paste makes a pin hide another.
pub proof fn law_pastes_keep_pins_apart(s: AppState, text: Seq<char>)
    requires
        tidy(s),
    ensures
        tidy(s.on_paste(text)),
{
    reveal(AppState::paste);
    let begun = s.begin_step();
    let handled = begun.paste(text);
    lemma_begun_tidy(s);
    lemma_same_boards(begun, handled);
    lemma_follow_tidy(handled);
    lemma_end_tidy(handled.follow_caret());
}

// ---- the mouse ----

proof fn lemma_press_apart(s: AppState, col: u16, row: u16)
    requires
        s.active < s.boards.len(),
        all_apart(s.boards),
        held(s) is None,
    ensures
        all_apart(s.press_board(col, row).boards),
{
    reveal(AppState::press_board);
    reveal(AppState::bring_to_front);
    if let Some(n) = s.pin_at(col, row) {
        let t = AppState { selected: Some(n.id), ..s };
        if let Some(m) = t.note(n.id) {
            let front = NoteView { z: crate::state::above(crate::state::top_z(t.notes())), ..m };
            lemma_all_apart_tidy(t);
            lemma_with_note(t, n.id, front);
            lemma_tidy_all_apart(t.with_note(n.id, front));
        }
    }
}

proof fn lemma_pressed_apart(s: AppState, col: u16, row: u16)
    requires
        s.active < s.boards.len(),
        all_apart(s.boards),
        held(s) is None,
    ensures
        boards_tidy(s.pressed(col, row)),
{
    reveal(AppState::pressed);
    reveal(AppState::click_tab);
    let closed = AppState { prompt: None, mode: crate::state::Mode::Nav, ..s };
    lemma_all_apart_tidy(s);
    lemma_all_apart_tidy(closed);
    lemma_edit_apart(s);
    lemma_tidy_all_apart(s.commit_edit());
    lemma_press_apart(s, col, row);
    lemma_press_apart(s.commit_edit(), col, row);
    lemma_all_apart_tidy(s.press_board(col, row));
    lemma_all_apart_tidy(s.commit_edit().press_board(col, row));
    lemma_world_apart(s);
    lemma_world_apart(closed);
    if let Some(TabKindView::World { index, name: _, notes: _, active: _ }) = s.tab_at(
        col,
    ) {
        lemma_leave_apart(s, index as int);
        lemma_leave_apart(closed, index as int);
        lemma_leave_apart(s.commit_edit(), index as int);
    }
    let t = s.pressed(col, row);
    if t.boards == s.boards {
        lemma_all_apart_tidy(t);
    }
}

/// The pin in your hand moves, and nothing else does.
proof fn lemma_drag_apart(s: AppState, col: u16, row: u16)
    requires
        s.active < s.boards.len(),
        boards_tidy(s),
    ensures
        boards_tidy(s.mouse_drag(col, row)),
        held(s.mouse_drag(col, row)) == held(s),
{
    reveal(AppState::mouse_drag);
    let t = s.mouse_drag(col, row);
    if let Some(Drag::Note { id, off_x, off_y }) = s.drag {
        crate::app::lemma_find_from(s.notes(), id, 0);
        let here = s.notes();
        if let Some(at) = find_from(here, id, 0) {
            if !s.tabs.holds(col, row) {
                let world = s.world_at(col, row);
                let moved = NoteView {
                    x: (world.x - off_x) as i128,
                    y: (world.y - off_y) as i128,
                    ..here[at]
                };
                let now = here.update(at, moved);
                if apart_but(here, Some(id)) {
                    assert forall|i: int, j: int|
                        0 <= i < now.len() && 0 <= j < now.len() && i != j && Some(
                            (#[trigger] now[i]).id,
                        ) != Some(id) && Some((#[trigger] now[j]).id) != Some(
                            id,
                        ) implies !now[i].crowds(now[j].position()) by {
                        assert(now[i] == here[i] && now[j] == here[j]);
                        assert(!here[i].crowds(here[j].position()));
                    }
                }
                lemma_board_changed(s, t, now);
            } else {
                assert(same_boards(s, t));
            }
        } else {
            assert(same_boards(s, t));
        }
    } else {
        assert(same_boards(s, t));
    }
}

/// The pin in hand taken away.
proof fn lemma_taken_away(notes: Seq<NoteView>, at: int)
    requires
        0 <= at < notes.len(),
        apart_but(notes, Some(notes[at].id)),
        forall|i: int|
            0 <= i < notes.len() && i != at ==> (#[trigger] notes[i]).id != notes[at].id,
    ensures
        apart(notes.remove(at)),
{
    let now = notes.remove(at);
    assert forall|i: int, j: int|
        0 <= i < now.len() && 0 <= j < now.len() && i != j && Some((#[trigger] now[i]).id)
            != None::<u64> && Some((#[trigger] now[j]).id) != None::<u64> implies !now[i].crowds(
        now[j].position(),
    ) by {
        let a = if i < at {
            i
        } else {
            i + 1
        };
        let b = if j < at {
            j
        } else {
            j + 1
        };
        assert(now[i] == notes[a] && now[j] == notes[b]);
        assert(!notes[a].crowds(notes[b].position()));
    }
}

/// Where a pin moved to a world wants to sit.
pub open spec fn landing(b: BoardView) -> crate::geometry::WorldPoint {
    let c = b.content_center();
    crate::geometry::WorldPoint { x: (c.0 - 714_000) as i128, y: (c.1 - 535_500) as i128 }
}

/// There are coordinates for wherever a pin that is let go can end up.
pub open spec fn drop_fits(s: AppState) -> bool {
    &&& can_settle(s)
    &&& forall|b: int|
        0 <= b < s.boards.len() ==> cascade_fits(
            (#[trigger] s.boards[b]).notes,
            landing(s.boards[b]),
        )
}

/// A tab that covers a column belongs to a world there is.
pub proof fn lemma_covering(boards: Seq<BoardView>, active: usize, offset: int, i: int)
    requires
        boards.len() <= usize::MAX,
        0 <= i,
    ensures
        tab_covering(tabs_of(boards, active), offset, i) matches Some(
            TabKindView::World { index, name: _, notes: _, active: _ },
        ) ==> index < boards.len(),
    decreases tabs_of(boards, active).len() - i,
{
    if i < tabs_of(boards, active).len() {
        lemma_covering(boards, active, offset, i + 1);
    }
}

/// A pin put on another world lands clear of what is there.
proof fn lemma_moved_apart(s: AppState, id: u64, world: usize)
    requires
        s.active < s.boards.len(),
        world < s.boards.len(),
        world != s.active,
        boards_tidy(s),
        held(s) == Some(id),
        s.note(id) is Some,
        drop_fits(s),
    ensures
        all_apart(s.move_note_to_board(id, world).boards),
{
    reveal(AppState::move_note_to_board);
    crate::app::lemma_find_from(s.notes(), id, 0);
    let at = find_from(s.notes(), id, 0)->0;
    let t = s.move_note_to_board(id, world);
    let here = s.notes();
    let there = s.boards[world as int].notes;
    assert(apart_but(s.boards[s.active as int].notes, Some(id)));
    assert(apart_but(s.boards[world as int].notes, None));
    let spot = free_spot(there, landing(s.boards[world as int]), None);
    law_free_spot_is_free(there, landing(s.boards[world as int]), None);
    let moved = NoteView {
        x: spot.x,
        y: spot.y,
        z: crate::state::above(crate::state::top_z(there)),
        ..here[at]
    };
    lemma_added(there, moved, None);
    assert forall|i: int| 0 <= i < here.len() && i != at implies (#[trigger] here[i]).id
        != here[at].id by {
        assert(s.boards[s.active as int].notes[i].id != s.boards[s.active as int].notes[at].id);
    }
    lemma_taken_away(here, at);
    assert(t.boards[world as int].notes == there.push(moved));
    assert(t.boards[s.active as int].notes == here.remove(at));
    assert forall|b: int| 0 <= b < t.boards.len() implies apart((#[trigger] t.boards[b]).notes) by {
        if b != s.active && b != world {
            assert(t.boards[b] == s.boards[b]);
        }
    }
}

proof fn lemma_up_apart(s: AppState, col: u16, row: u16)
    requires
        s.active < s.boards.len(),
        s.boards.len() <= usize::MAX,
        boards_tidy(s),
        drop_fits(s),
        s.world_at_point(col, row) != Some(s.active),
    ensures
        all_apart(s.mouse_up(col, row).boards),
        held(s.mouse_up(col, row)) is None,
{
    reveal(AppState::mouse_up);
    let t = s.mouse_up(col, row);
    if let Some(Drag::Note { id, off_x: _, off_y: _ }) = s.drag {
        lemma_settle(s, id);
        if let Some(world) = s.world_at_point(col, row) {
            if world >= s.boards.len() {
                lemma_covering(s.boards, s.active, col - s.tabs.x, 0);
            }
            if s.note(id) is Some {
                lemma_moved_apart(s, id, world);
            } else {
                reveal(AppState::move_note_to_board);
                reveal(AppState::settle_note);
            }
        }
    } else {
        lemma_tidy_all_apart(s);
        assert(t.boards == s.boards);
    }
}

/// No gesture of the mouse makes a pin hide another: the pin in your hand may
/// pass over others, but once you let it go - anywhere but on the tab of the
/// world it is on - or press again, it ends up clear of them.
pub proof fn law_gestures_keep_pins_apart(s: AppState, m: MouseEvent)
    requires
        s.wf(),
        s.boards.len() <= usize::MAX,
        tidy(s),
        drop_fits(s),
        m.kind == MouseEventKind::Up(MouseButton::Left) ==> s.world_at_point(m.column, m.row)
            != Some(s.active),
    ensures
        tidy(s.on_mouse(m)),
{
    reveal(AppState::mouse);
    let begun = s.begin_step();
    let quiet = AppState { status: None, ..begun };
    let (col, row) = (m.column, m.row);
    let handled = begun.mouse(m);
    crate::laws::lemma_mouse_memory(begun, m);
    lemma_begun_tidy(s);
    lemma_same_boards(begun, quiet);
    if begun.help {
        lemma_same_boards(begun, handled);
    } else if m.kind == MouseEventKind::Down(MouseButton::Left) {
        reveal(AppState::mouse_down);
        lemma_let_go(quiet);
        lemma_pressed_apart(quiet.let_go(), col, row);
    } else if m.kind == MouseEventKind::Drag(MouseButton::Left) {
        lemma_drag_apart(quiet, col, row);
    } else if m.kind == MouseEventKind::Up(MouseButton::Left) {
        lemma_up_apart(quiet, col, row);
        lemma_all_apart_tidy(handled);
    } else {
        reveal(AppState::wheel);
        reveal(AppState::zoom_at);
        reveal(AppState::zoom_at_center);
        lemma_same_boards(begun, handled);
    }
    lemma_end_tidy(handled);
}

// ---- where they start ----

/// A session opened on boards where no pin hides another starts tidy.
pub proof fn law_a_session_starts_with_pins_apart(boards: Seq<BoardView>)
    requires
        all_apart(boards),
    ensures
        tidy(AppState::opened(boards)),
{
    lemma_all_apart_tidy(AppState::opened(boards));
}

/// While there is room for an event, there are coordinates for a pin it makes
/// and for one that it lets go.
pub proof fn law_room_for_an_event_is_room_for_its_pins(s: AppState)
    requires
        s.has_room(),
        distinct(s.boards),
    ensures
        cascade_fits(s.notes(), s.fresh_wanted()),
        drop_fits(s),
{
    assert(board_within(s.boards[s.active as int], pin_limit()));
    crate::app::lemma_span(s.viewport.width as int, crate::geometry::ZoomLevel::Document);
    crate::app::lemma_span(s.viewport.height as int, crate::geometry::ZoomLevel::Document);
    if let Some(id) = held(s) {
        crate::app::lemma_find_from(s.notes(), id, 0);
        if let Some(at) = find_from(s.notes(), id, 0) {
            assert(near(s.notes()[at].position(), pin_limit()));
        }
    }
    assert forall|b: int| 0 <= b < s.boards.len() implies cascade_fits(
        (#[trigger] s.boards[b]).notes,
        landing(s.boards[b]),
    ) by {
        assert(board_within(s.boards[b], pin_limit()));
        crate::app::lemma_board_fits(s.boards[b], pin_limit());
    }
}

} // verus!

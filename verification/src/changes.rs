//! What can happen to the boards: everything an event can do to them, that a
//! world only goes when it was meant to, and that every pin keeps an id of its
//! own.

use crate::files::{boards_in, pins_before, Folder};
use crate::input::{KeyCode, KeyEvent, MouseEvent};
use crate::laws::{history_key, walks_history};
use crate::model::{BoardView, NoteView};
use crate::state::{
    board_within, boards_within, body_of, find_from, near, pin_limit, title_of, top_id, top_id_on,
    without_id, AppState, Drag, Mode, PromptKind, SnapshotView, Step,
};
use crate::text::trim;
use vstd::prelude::*;

verus! {

// ---- what a key can do ----

/// The pins of the active world replaced.
pub open spec fn on_board(s: AppState, notes: Seq<NoteView>) -> Seq<BoardView> {
    s.boards.update(s.active as int, BoardView { notes, ..s.board() })
}

/// The selected pin, with what was written in the editor.
pub open spec fn written(s: AppState) -> Seq<BoardView> {
    match (s.selected, s.editor) {
        (Some(id), Some(e)) => match s.note(id) {
            Some(n) => s.with_note(
                id,
                NoteView { title: title_of(e.text()), body: body_of(e.text()), ..n },
            ).boards,
            None => s.boards,
        },
        _ => s.boards,
    }
}

/// The selected pin in the next color, or the one before.
pub open spec fn recolored(s: AppState, forward: bool) -> Seq<BoardView> {
    match s.selected {
        Some(id) => match s.note(id) {
            Some(n) => s.with_note(id, NoteView { color: n.color.stepped(forward), ..n }).boards,
            None => s.boards,
        },
        None => s.boards,
    }
}

/// The active world may go: there is nothing on it, or its name was typed in
/// answer to being asked for it.
pub open spec fn world_may_go(s: AppState) -> bool {
    ||| s.notes().len() == 0
    ||| s.mode == Mode::Prompt && (s.prompt matches Some(p) && p.kind == PromptKind::DeleteWorld
        && trim(p.input) == s.board().name)
}

/// A world may be made: it was asked for, under a name that can be one and is
/// not taken.
pub open spec fn world_may_come(s: AppState) -> bool {
    s.mode == Mode::Prompt && (s.prompt matches Some(p) && p.kind == PromptKind::NewWorld
        && s.create_error(trim(p.input)) is None)
}

/// What a key can do to the boards but for adding a pin: nothing; write down,
/// recolor or delete one pin; make a world, or delete the one that is open. Going
/// to another world, or leaving, lets go of a pin that is being dragged.
pub open spec fn old_pins(s: AppState, boards: Seq<BoardView>) -> bool {
    ||| boards == s.boards
    ||| boards == written(s)
    ||| boards == s.let_go().boards
    ||| boards == written(s.let_go())
    ||| boards == recolored(s, true)
    ||| boards == recolored(s, false)
    ||| s.selected is Some && boards == on_board(s, without_id(s.notes(), s.selected->0))
    ||| world_may_come(s) && boards == s.boards.push(
        BoardView { name: trim((s.prompt->0).input), notes: Seq::empty() },
    )
    ||| world_may_go(s) && boards == s.boards.remove(s.active as int)
}

/// The boards with one new pin on the active world, which uses up the next id.
pub open spec fn new_pin(s: AppState, t: AppState) -> bool {
    t.boards == on_board(s, s.notes().push(s.fresh_note())) && t.next_id == (s.next_id + 1) as u64
}

/// All a key can do to the boards: add one pin, or one of the things that involve
/// none but the pins there are.
pub open spec fn key_change(s: AppState, t: AppState) -> bool {
    new_pin(s, t) || old_pins(s, t.boards) && t.next_id == s.next_id
}

/// The boards, and the next id, as they were.
spec fn same_pins(s: AppState, t: AppState) -> bool {
    t.boards == s.boards && t.next_id == s.next_id
}

proof fn lemma_edit_change(s: AppState)
    ensures
        s.begin_edit().boards == s.boards && s.begin_edit().next_id == s.next_id,
        s.commit_edit().boards == written(s) && s.commit_edit().next_id == s.next_id,
{
    reveal(AppState::begin_edit);
    reveal(AppState::center_on_note);
    reveal(AppState::commit_edit);
}

/// Letting go of a pin moves it and nothing else.
proof fn lemma_let_go_change(s: AppState)
    requires
        s.active < s.boards.len(),
    ensures
        s.let_go().next_id == s.next_id,
        s.let_go().active == s.active,
        s.let_go().boards.len() == s.boards.len(),
        known(s.boards, s.next_id) ==> known(s.let_go().boards, s.next_id),
        s.quit().boards == written(s.let_go()) && s.quit().next_id == s.next_id,
{
    reveal(AppState::let_go);
    reveal(AppState::settle_note);
    reveal(AppState::quit);
    lemma_edit_change(s.let_go());
    if let Some(Drag::Note { id, off_x: _, off_y: _ }) = s.drag {
        crate::app::lemma_find_from(s.notes(), id, 0);
        if let Some(n) = s.note(id) {
            let spot = crate::model::free_spot(s.notes(), n.position(), Some(id));
            if known(s.boards, s.next_id) {
                lemma_replaced_ids(s, id, NoteView { x: spot.x, y: spot.y, ..n });
            }
        }
    }
}

proof fn lemma_new_note_change(s: AppState)
    ensures
        new_pin(s, s.new_note()),
{
    reveal(AppState::new_note);
    let note = s.fresh_note();
    let placed = AppState {
        camera: crate::geometry::Camera {
            zoom: crate::geometry::ZoomLevel::Document,
            ..s.camera
        },
        color_tick: (s.color_tick + 1) as usize,
        next_id: (s.next_id + 1) as u64,
        selected: Some(note.id),
        ..s
    }.touched().with_notes(s.notes().push(note)).clamp_origin();
    lemma_edit_change(placed);
}

proof fn lemma_small_change(s: AppState, forward: bool, index: int)
    requires
        s.active < s.boards.len(),
    ensures
        key_change(s, s.delete_selected()),
        s.cycle_note_color(forward).boards == recolored(s, forward),
        s.cycle_note_color(forward).next_id == s.next_id,
        s.switch_world(index).boards == s.boards || s.switch_world(index).boards
            == s.let_go().boards,
        s.switch_world(index).next_id == s.next_id,
        same_pins(s, s.page_selected(forward)),
        same_pins(s, s.yank_note()),
        same_pins(s, s.copy_selection(forward)),
        same_pins(s, s.zoom_at_center(forward)),
{
    reveal(AppState::delete_selected);
    reveal(AppState::cycle_note_color);
    reveal(AppState::switch_world);
    reveal(AppState::page_selected);
    reveal(AppState::yank_note);
    reveal(AppState::copy_selection);
    reveal(AppState::zoom_at_center);
    reveal(AppState::zoom_at);
    reveal(AppState::zoom_onto_note);
    lemma_let_go_change(s);
}

proof fn lemma_step_change(s: AppState, step: Step, dx: int, dy: int)
    ensures
        same_pins(s, s.select_toward(step)),
        same_pins(s, s.pan_cells(dx, dy)),
{
    reveal(AppState::select_toward);
    reveal(AppState::bring_into_view);
    reveal(AppState::center_on_note);
    reveal(AppState::pan_cells);
}

proof fn lemma_world_change(s: AppState)
    ensures
        s.mode != Mode::Edit ==> same_pins(s, s.begin_new_world()),
        key_change(s, s.begin_delete_world()),
        s.mode == Mode::Prompt ==> key_change(s, s.confirm_prompt()),
{
    reveal(AppState::begin_new_world);
    reveal(AppState::begin_delete_world);
    reveal(AppState::delete_active_world);
    reveal(AppState::confirm_prompt);
}

proof fn lemma_nav_char_change(s: AppState, c: char, ctrl: bool)
    requires
        s.active < s.boards.len(),
        s.mode == Mode::Nav,
        !(c == 'u' || c == 'r' && ctrl),
    ensures
        key_change(s, s.nav_char(c, ctrl)),
{
    reveal(AppState::nav_char);
    lemma_edit_change(s);
    lemma_let_go_change(s);
    lemma_new_note_change(s);
    lemma_world_change(s);
    lemma_small_change(s, true, c as int - '1' as int);
    lemma_small_change(s, false, 0);
    lemma_step_change(s, Step::Left, 0, 0);
    lemma_step_change(s, Step::Right, 0, 0);
    lemma_step_change(s, Step::Up, 0, 0);
    lemma_step_change(s, Step::Down, 0, 0);
}

proof fn lemma_nav_key_change(s: AppState, k: KeyEvent)
    requires
        s.active < s.boards.len(),
        s.mode == Mode::Nav,
        !history_key(k),
    ensures
        key_change(s, s.nav_key(k)),
{
    reveal(AppState::nav_key);
    lemma_edit_change(s);
    lemma_small_change(s, true, s.active + 1);
    lemma_small_change(s, false, s.active + s.boards.len() - 1);
    lemma_step_change(s, Step::Left, -4, 0);
    lemma_step_change(s, Step::Right, 4, 0);
    lemma_step_change(s, Step::Up, 0, -4);
    lemma_step_change(s, Step::Down, 0, 4);
    if let KeyCode::Char(c) = k.code {
        lemma_nav_char_change(s, c, k.modifiers.control);
    }
}

/// Letting go looks at the boards, at what is in hand, and at nothing else.
proof fn lemma_let_go_same(s: AppState, t: AppState)
    requires
        s.boards == t.boards,
        s.active == t.active,
        s.drag == t.drag,
        s.selected == t.selected,
        s.editor == t.editor,
    ensures
        s.let_go().boards == t.let_go().boards,
        written(s.let_go()) == written(t.let_go()),
{
    reveal(AppState::let_go);
    reveal(AppState::settle_note);
}

proof fn lemma_key_change(s: AppState, k: KeyEvent)
    requires
        s.active < s.boards.len(),
        !walks_history(s, k),
    ensures
        key_change(s, s.key(k)),
{
    reveal(AppState::key);
    reveal(AppState::edit_key);
    reveal(AppState::prompt_key);
    let quiet = AppState { status: None, ..s };
    assert(written(quiet) == written(s));
    lemma_let_go_same(s, quiet);
    assert(recolored(quiet, true) == recolored(s, true));
    assert(recolored(quiet, false) == recolored(s, false));
    assert(quiet.fresh_note() == s.fresh_note());
    if s.mode == Mode::Nav && !s.help && !history_key(k) {
        lemma_nav_key_change(quiet, k);
    }
    lemma_edit_change(quiet);
    lemma_let_go_change(quiet);
    lemma_world_change(quiet);
    lemma_small_change(quiet, true, 0);
    lemma_small_change(quiet, false, 0);
}

/// No key does more to the boards than [`key_change`] allows, but for undo and
/// redo.
pub proof fn law_what_a_key_can_do(s: AppState, k: KeyEvent)
    requires
        s.wf(),
        !s.read_only,
        !walks_history(s, k),
    ensures
        key_change(s, s.on_key(k)),
{
    reveal(AppState::end_step);
    let begun = s.begin_step();
    lemma_key_change(begun, k);
    assert(written(begun) == written(s));
    lemma_let_go_same(s, begun);
    assert(recolored(begun, true) == recolored(s, true));
    assert(recolored(begun, false) == recolored(s, false));
    assert(begun.fresh_note() == s.fresh_note());
    crate::laws::lemma_key_memory(begun, k);
    crate::laws::lemma_follow_memory(begun.key(k));
    lemma_follow_ids(begun.key(k));
}

/// A world with pins on it goes only once its name was typed; an empty one goes
/// straight away. Undo and redo aside, no key takes a world away otherwise.
pub proof fn law_a_world_goes_only_when_meant(s: AppState, k: KeyEvent)
    requires
        s.wf(),
        !s.read_only,
        !walks_history(s, k),
        s.on_key(k).boards.len() < s.boards.len(),
    ensures
        world_may_go(s),
        s.on_key(k).boards == s.boards.remove(s.active as int),
{
    law_what_a_key_can_do(s, k);
    lemma_let_go_change(s);
}

// ---- ids ----

/// No two pins, on whatever boards, have the same id.
pub open spec fn distinct(boards: Seq<BoardView>) -> bool {
    forall|b: int, i: int, c: int, j: int|
        0 <= b < boards.len() && 0 <= i < boards[b].notes.len() && 0 <= c < boards.len() && 0 <= j
            < boards[c].notes.len() && (#[trigger] boards[b].notes[i]).id == (
        #[trigger] boards[c].notes[j]).id ==> b == c && i == j
}

/// Every id is below a bound.
pub open spec fn below(boards: Seq<BoardView>, bound: u64) -> bool {
    forall|b: int, i: int|
        0 <= b < boards.len() && 0 <= i < boards[b].notes.len() ==> (
        #[trigger] boards[b].notes[i]).id < bound
}

/// Boards whose pins all have ids of their own, which no new pin will get.
pub open spec fn known(boards: Seq<BoardView>, next_id: u64) -> bool {
    distinct(boards) && below(boards, next_id)
}

pub open spec fn snapshots_known(all: Seq<SnapshotView>, next_id: u64) -> bool {
    forall|i: int| 0 <= i < all.len() ==> known((#[trigger] all[i]).boards, next_id)
}

/// Every pin has an id of its own, on the boards and on every board that undo or
/// redo can bring back.
pub open spec fn ids_told_apart(s: AppState) -> bool {
    &&& known(s.boards, s.next_id)
    &&& snapshots_known(s.undo, s.next_id)
    &&& snapshots_known(s.redo, s.next_id)
    &&& s.pending matches Some(snap) ==> known(snap.boards, s.next_id)
}

/// Boards whose pins have the ids they had, pin for pin.
spec fn same_ids(a: Seq<BoardView>, b: Seq<BoardView>) -> bool {
    &&& a.len() == b.len()
    &&& forall|k: int|
        0 <= k < a.len() ==> (#[trigger] a[k]).notes.len() == b[k].notes.len() && forall|i: int|
            0 <= i < a[k].notes.len() ==> (#[trigger] a[k].notes[i]).id == b[k].notes[i].id
}

proof fn lemma_same_ids(a: Seq<BoardView>, b: Seq<BoardView>, next_id: u64)
    requires
        same_ids(a, b),
        known(a, next_id),
    ensures
        known(b, next_id),
{
    assert forall|k: int, i: int, c: int, j: int|
        0 <= k < b.len() && 0 <= i < b[k].notes.len() && 0 <= c < b.len() && 0 <= j
            < b[c].notes.len() && (#[trigger] b[k].notes[i]).id == (
        #[trigger] b[c].notes[j]).id implies k == c && i == j by {
        assert(a[k].notes.len() == b[k].notes.len() && a[c].notes.len() == b[c].notes.len());
        assert(a[k].notes[i].id == b[k].notes[i].id);
        assert(a[c].notes[j].id == b[c].notes[j].id);
    }
    assert forall|k: int, i: int|
        0 <= k < b.len() && 0 <= i < b[k].notes.len() implies (#[trigger] b[k].notes[i]).id
        < next_id by {
        assert(a[k].notes.len() == b[k].notes.len());
        assert(a[k].notes[i].id == b[k].notes[i].id);
    }
}

/// A pin replaced by one with its id.
proof fn lemma_replaced_ids(s: AppState, id: u64, note: NoteView)
    requires
        s.active < s.boards.len(),
        note.id == id,
        known(s.boards, s.next_id),
    ensures
        known(s.with_note(id, note).boards, s.next_id),
{
    crate::app::lemma_find_from(s.notes(), id, 0);
    let t = s.with_note(id, note);
    if let Some(at) = find_from(s.notes(), id, 0) {
        assert forall|k: int| 0 <= k < s.boards.len() implies (
        #[trigger] s.boards[k]).notes.len() == t.boards[k].notes.len() && forall|i: int|
            0 <= i < s.boards[k].notes.len() ==> (#[trigger] s.boards[k].notes[i]).id
                == t.boards[k].notes[i].id by {
            if k != s.active {
                assert(t.boards[k] == s.boards[k]);
            } else {
                assert(t.boards[k].notes == s.notes().update(at, note));
            }
        }
        lemma_same_ids(s.boards, t.boards, s.next_id);
    }
}

/// Some of a list's pins, in order.
spec fn some_of(all: Seq<NoteView>, some: Seq<NoteView>, at: Seq<int>) -> bool {
    &&& at.len() == some.len()
    &&& forall|i: int| 0 <= i < at.len() ==> 0 <= #[trigger] at[i] < all.len() && some[i]
        == all[at[i]]
    &&& forall|i: int, j: int| 0 <= i < j < at.len() ==> #[trigger] at[i] < #[trigger] at[j]
}

proof fn lemma_without_some(notes: Seq<NoteView>, id: u64) -> (at: Seq<int>)
    ensures
        some_of(notes, without_id(notes, id), at),
    decreases notes.len(),
{
    if notes.len() == 0 {
        Seq::empty()
    } else {
        let before = lemma_without_some(notes.drop_last(), id);
        if notes.last().id == id {
            before
        } else {
            before.push(notes.len() - 1)
        }
    }
}

/// A board that keeps only some of its pins.
proof fn lemma_fewer_ids(
    boards: Seq<BoardView>,
    b: int,
    notes: Seq<NoteView>,
    at: Seq<int>,
    next_id: u64,
)
    requires
        0 <= b < boards.len(),
        known(boards, next_id),
        some_of(boards[b].notes, notes, at),
    ensures
        known(boards.update(b, BoardView { notes, ..boards[b] }), next_id),
{
    let now = boards.update(b, BoardView { notes, ..boards[b] });
    assert forall|k: int, i: int, c: int, j: int|
        0 <= k < now.len() && 0 <= i < now[k].notes.len() && 0 <= c < now.len() && 0 <= j
            < now[c].notes.len() && (#[trigger] now[k].notes[i]).id == (
        #[trigger] now[c].notes[j]).id implies k == c && i == j by {
        let i0 = if k == b {
            at[i]
        } else {
            i
        };
        let j0 = if c == b {
            at[j]
        } else {
            j
        };
        assert(boards[k].notes[i0] == now[k].notes[i]);
        assert(boards[c].notes[j0] == now[c].notes[j]);
        assert(k == c && i0 == j0);
        if k == b && i != j {
            if i < j {
                assert(at[i] < at[j]);
            } else {
                assert(at[j] < at[i]);
            }
        }
    }
    assert forall|k: int, i: int|
        0 <= k < now.len() && 0 <= i < now[k].notes.len() implies (#[trigger] now[k].notes[i]).id
        < next_id by {
        let i0 = if k == b {
            at[i]
        } else {
            i
        };
        assert(boards[k].notes[i0] == now[k].notes[i]);
    }
}

/// A board that gets one more pin, with an id that is on no board.
proof fn lemma_more_ids(boards: Seq<BoardView>, b: int, note: NoteView, next_id: u64)
    requires
        0 <= b < boards.len(),
        known(boards, next_id),
        note.id < next_id,
        forall|k: int, i: int|
            0 <= k < boards.len() && 0 <= i < boards[k].notes.len() ==> (
            #[trigger] boards[k].notes[i]).id != note.id,
    ensures
        known(
            boards.update(b, BoardView { notes: boards[b].notes.push(note), ..boards[b] }),
            next_id,
        ),
{
    let now = boards.update(b, BoardView { notes: boards[b].notes.push(note), ..boards[b] });
    assert forall|k: int, i: int|
        0 <= k < now.len() && 0 <= i < now[k].notes.len() implies (#[trigger] now[k].notes[i]
        == note && k == b && i == boards[b].notes.len()) || (i < boards[k].notes.len()
        && now[k].notes[i] == boards[k].notes[i]) by {}
    assert forall|k: int, i: int, c: int, j: int|
        0 <= k < now.len() && 0 <= i < now[k].notes.len() && 0 <= c < now.len() && 0 <= j
            < now[c].notes.len() && (#[trigger] now[k].notes[i]).id == (
        #[trigger] now[c].notes[j]).id implies k == c && i == j by {
        let new_i = k == b && i == boards[b].notes.len();
        let new_j = c == b && j == boards[b].notes.len();
        if !new_i {
            assert(now[k].notes[i] == boards[k].notes[i]);
        }
        if !new_j {
            assert(now[c].notes[j] == boards[c].notes[j]);
        }
    }
    assert forall|k: int, i: int|
        0 <= k < now.len() && 0 <= i < now[k].notes.len() implies (#[trigger] now[k].notes[i]).id
        < next_id by {
        if !(k == b && i == boards[b].notes.len()) {
            assert(now[k].notes[i] == boards[k].notes[i]);
        }
    }
}

proof fn lemma_known_grows(boards: Seq<BoardView>, a: u64, b: u64)
    requires
        known(boards, a),
        a <= b,
    ensures
        known(boards, b),
{
    assert forall|k: int, i: int|
        0 <= k < boards.len() && 0 <= i < boards[k].notes.len() implies (
    #[trigger] boards[k].notes[i]).id < b by {
        assert(boards[k].notes[i].id < a);
    }
}

/// What a key can do keeps ids apart.
proof fn lemma_change_ids(s: AppState, t: AppState)
    requires
        s.active < s.boards.len(),
        s.next_id < u64::MAX,
        known(s.boards, s.next_id),
        key_change(s, t),
    ensures
        known(t.boards, t.next_id),
        s.next_id <= t.next_id,
{
    if new_pin(s, t) {
        lemma_known_grows(s.boards, s.next_id, t.next_id);
        lemma_more_ids(s.boards, s.active as int, s.fresh_note(), t.next_id);
    } else {
        if let Some(id) = s.selected {
            let at = lemma_without_some(s.notes(), id);
            lemma_fewer_ids(
                s.boards,
                s.active as int,
                without_id(s.notes(), id),
                at,
                s.next_id,
            );
            if let Some(n) = s.note(id) {
                crate::app::lemma_find_from(s.notes(), id, 0);
                lemma_replaced_ids(s, id, NoteView { color: n.color.stepped(true), ..n });
                lemma_replaced_ids(s, id, NoteView { color: n.color.stepped(false), ..n });
                if let Some(e) = s.editor {
                    lemma_replaced_ids(
                        s,
                        id,
                        NoteView { title: title_of(e.text()), body: body_of(e.text()), ..n },
                    );
                }
            }
        }
        lemma_worlds_ids(s.boards, s.active as int, trim((s.prompt->0).input), s.next_id);
        lemma_let_go_change(s);
        lemma_written_ids(s.let_go());
        lemma_edit_change(s.let_go());
    }
}

proof fn lemma_worlds_ids(boards: Seq<BoardView>, b: int, name: Seq<char>, next_id: u64)
    requires
        0 <= b < boards.len(),
        known(boards, next_id),
    ensures
        known(boards.push(BoardView { name, notes: Seq::empty() }), next_id),
        known(boards.remove(b), next_id),
{
    let more = boards.push(BoardView { name, notes: Seq::empty() });
    assert forall|k: int, i: int|
        0 <= k < more.len() && 0 <= i < more[k].notes.len() implies k < boards.len()
        && #[trigger] more[k].notes[i] == boards[k].notes[i] by {}
    assert forall|k: int, i: int, c: int, j: int|
        0 <= k < more.len() && 0 <= i < more[k].notes.len() && 0 <= c < more.len() && 0 <= j
            < more[c].notes.len() && (#[trigger] more[k].notes[i]).id == (
        #[trigger] more[c].notes[j]).id implies k == c && i == j by {
        assert(more[k].notes[i] == boards[k].notes[i]);
        assert(more[c].notes[j] == boards[c].notes[j]);
    }
    let left = boards.remove(b);
    assert forall|k: int, i: int, c: int, j: int|
        0 <= k < left.len() && 0 <= i < left[k].notes.len() && 0 <= c < left.len() && 0 <= j
            < left[c].notes.len() && (#[trigger] left[k].notes[i]).id == (
        #[trigger] left[c].notes[j]).id implies k == c && i == j by {
        let k0 = if k < b {
            k
        } else {
            k + 1
        };
        let c0 = if c < b {
            c
        } else {
            c + 1
        };
        assert(left[k].notes[i] == boards[k0].notes[i]);
        assert(left[c].notes[j] == boards[c0].notes[j]);
    }
    assert forall|k: int, i: int|
        0 <= k < left.len() && 0 <= i < left[k].notes.len() implies (#[trigger] left[k].notes[i]).id
        < next_id by {
        let k0 = if k < b {
            k
        } else {
            k + 1
        };
        assert(left[k].notes[i] == boards[k0].notes[i]);
    }
}

proof fn lemma_snapshots_grow(all: Seq<SnapshotView>, a: u64, b: u64)
    requires
        snapshots_known(all, a),
        a <= b,
    ensures
        snapshots_known(all, b),
{
    assert forall|i: int| 0 <= i < all.len() implies known((#[trigger] all[i]).boards, b) by {
        lemma_known_grows(all[i].boards, a, b);
    }
}

/// The history of one state holds for a later one that has the same.
proof fn lemma_history_ids(s: AppState, t: AppState)
    requires
        ids_told_apart(s),
        crate::laws::same_memory(s, t),
        s.next_id <= t.next_id,
        known(t.boards, t.next_id),
    ensures
        ids_told_apart(t),
{
    lemma_snapshots_grow(s.undo, s.next_id, t.next_id);
    lemma_snapshots_grow(s.redo, s.next_id, t.next_id);
    if let Some(snap) = s.pending {
        lemma_known_grows(snap.boards, s.next_id, t.next_id);
    }
}

proof fn lemma_end_ids(s: AppState)
    requires
        ids_told_apart(s),
    ensures
        ids_told_apart(s.end_step()),
{
    reveal(AppState::end_step);
    reveal(AppState::restore);
}

/// Every pin keeps an id of its own, whatever key is pressed.
pub proof fn law_keys_keep_ids_apart(s: AppState, k: KeyEvent)
    requires
        s.wf(),
        s.next_id < u64::MAX,
        ids_told_apart(s),
    ensures
        ids_told_apart(s.on_key(k)),
{
    let begun = s.begin_step();
    let handled = begun.key(k);
    if walks_history(s, k) {
        lemma_walk_ids(begun, k);
    } else {
        lemma_key_change(begun, k);
        lemma_change_ids(begun, handled);
        crate::laws::lemma_key_memory(begun, k);
        lemma_history_ids(begun, handled);
    }
    crate::laws::lemma_follow_memory(handled);
    lemma_follow_ids(handled);
    lemma_end_ids(handled.follow_caret());
}

proof fn lemma_follow_ids(s: AppState)
    ensures
        s.follow_caret().next_id == s.next_id,
{
    reveal(AppState::follow_caret);
}

proof fn lemma_walk_ids(s: AppState, k: KeyEvent)
    requires
        s.active < s.boards.len(),
        ids_told_apart(s),
        walks_history(s, k),
    ensures
        ids_told_apart(s.key(k)),
{
    reveal(AppState::key);
    reveal(AppState::nav_key);
    reveal(AppState::nav_char);
    reveal(AppState::undo_step);
    reveal(AppState::redo_step);
    reveal(AppState::restore);
    let quiet = AppState { status: None, ..s };
    lemma_let_go_change(quiet);
    assert(crate::laws::same_memory(quiet, quiet.let_go())) by {
        reveal(AppState::let_go);
        reveal(AppState::settle_note);
    }
}

/// Every pin keeps an id of its own, whatever is pasted.
pub proof fn law_pastes_keep_ids_apart(s: AppState, text: Seq<char>)
    requires
        ids_told_apart(s),
    ensures
        ids_told_apart(s.on_paste(text)),
{
    reveal(AppState::paste);
    let handled = s.begin_step().paste(text);
    crate::laws::lemma_follow_memory(handled);
    lemma_follow_ids(handled);
    lemma_end_ids(handled.follow_caret());
}

// ---- the mouse ----

proof fn lemma_press_ids(s: AppState, col: u16, row: u16)
    requires
        s.active < s.boards.len(),
        known(s.boards, s.next_id),
    ensures
        known(s.press_board(col, row).boards, s.next_id),
        s.press_board(col, row).next_id == s.next_id,
{
    reveal(AppState::press_board);
    reveal(AppState::bring_to_front);
    if let Some(n) = s.pin_at(col, row) {
        let t = AppState { selected: Some(n.id), ..s };
        crate::app::lemma_find_from(t.notes(), n.id, 0);
        if let Some(m) = t.note(n.id) {
            lemma_replaced_ids(
                t,
                n.id,
                NoteView { z: crate::state::above(crate::state::top_z(t.notes())), ..m },
            );
        }
    }
}

proof fn lemma_written_ids(s: AppState)
    requires
        s.active < s.boards.len(),
        known(s.boards, s.next_id),
    ensures
        known(s.commit_edit().boards, s.next_id),
        s.commit_edit().next_id == s.next_id,
        s.commit_edit().active == s.active,
        s.commit_edit().boards.len() == s.boards.len(),
{
    reveal(AppState::commit_edit);
    if let (Some(id), Some(e)) = (s.selected, s.editor) {
        if let Some(n) = s.note(id) {
            crate::app::lemma_find_from(s.notes(), id, 0);
            lemma_replaced_ids(
                s,
                id,
                NoteView { title: title_of(e.text()), body: body_of(e.text()), ..n },
            );
        }
    }
}

proof fn lemma_down_ids(s: AppState, col: u16, row: u16)
    requires
        s.active < s.boards.len(),
        known(s.boards, s.next_id),
    ensures
        known(s.mouse_down(col, row).boards, s.next_id),
        s.mouse_down(col, row).next_id == s.next_id,
{
    reveal(AppState::mouse_down);
    lemma_let_go_change(s);
    lemma_pressed_ids(s.let_go(), col, row);
}

proof fn lemma_pressed_ids(s: AppState, col: u16, row: u16)
    requires
        s.active < s.boards.len(),
        known(s.boards, s.next_id),
    ensures
        known(s.pressed(col, row).boards, s.next_id),
        s.pressed(col, row).next_id == s.next_id,
{
    reveal(AppState::pressed);
    reveal(AppState::click_tab);
    reveal(AppState::switch_world);
    reveal(AppState::begin_new_world);
    let closed = AppState { prompt: None, mode: Mode::Nav, ..s };
    lemma_written_ids(s);
    lemma_let_go_change(s);
    lemma_let_go_change(closed);
    lemma_let_go_change(s.commit_edit());
    lemma_press_ids(s, col, row);
    lemma_press_ids(s.commit_edit(), col, row);
}

proof fn lemma_drag_ids(s: AppState, col: u16, row: u16)
    requires
        s.active < s.boards.len(),
        known(s.boards, s.next_id),
    ensures
        known(s.mouse_drag(col, row).boards, s.next_id),
        s.mouse_drag(col, row).next_id == s.next_id,
{
    reveal(AppState::mouse_drag);
    if let Some(Drag::Note { id, off_x, off_y }) = s.drag {
        crate::app::lemma_find_from(s.notes(), id, 0);
        if let Some(n) = s.note(id) {
            let world = s.world_at(col, row);
            let t = AppState { drop_target: s.mouse_drag(col, row).drop_target, ..s };
            lemma_replaced_ids(
                t,
                id,
                NoteView { x: (world.x - off_x) as i128, y: (world.y - off_y) as i128, ..n },
            );
        }
    }
}

/// All pins but one, in order.
spec fn all_but(n: int, at: int) -> Seq<int> {
    Seq::new(
        (n - 1) as nat,
        |i: int|
            if i < at {
                i
            } else {
                i + 1
            },
    )
}

proof fn lemma_up_ids(s: AppState, col: u16, row: u16)
    requires
        s.active < s.boards.len(),
        known(s.boards, s.next_id),
    ensures
        known(s.mouse_up(col, row).boards, s.next_id),
        s.mouse_up(col, row).next_id == s.next_id,
{
    reveal(AppState::mouse_up);
    reveal(AppState::move_note_to_board);
    reveal(AppState::settle_note);
    if let Some(Drag::Note { id, off_x: _, off_y: _ }) = s.drag {
        crate::app::lemma_find_from(s.notes(), id, 0);
        if let Some(at) = find_from(s.notes(), id, 0) {
            let n = s.notes()[at];
            let spot = crate::model::free_spot(s.notes(), n.position(), Some(id));
            lemma_replaced_ids(s, id, NoteView { x: spot.x, y: spot.y, ..n });
            if let Some(world) = s.world_at_point(col, row) {
                if world != s.active && world < s.boards.len() {
                    let there = s.boards[world as int];
                    let spot = crate::model::free_spot(
                        there.notes,
                        crate::spacing::landing(there),
                        None,
                    );
                    let moved = NoteView {
                        x: spot.x,
                        y: spot.y,
                        z: crate::state::above(crate::state::top_z(there.notes)),
                        ..n
                    };
                    lemma_moved_ids(s, at, world as int, moved);
                }
            }
        }
    }
}

proof fn lemma_moved_ids(s: AppState, at: int, target: int, moved: NoteView)
    requires
        s.active < s.boards.len(),
        0 <= target < s.boards.len(),
        target != s.active,
        0 <= at < s.notes().len(),
        moved.id == s.notes()[at].id,
        known(s.boards, s.next_id),
    ensures
        known(
            s.with_notes(s.notes().remove(at)).boards.update(
                target,
                BoardView { notes: s.boards[target].notes.push(moved), ..s.boards[target] },
            ),
            s.next_id,
        ),
{
    let here = s.with_notes(s.notes().remove(at)).boards;
    let left = s.notes().remove(at);
    let kept = all_but(s.notes().len() as int, at);
    assert(some_of(s.notes(), left, kept));
    lemma_fewer_ids(s.boards, s.active as int, left, kept, s.next_id);
    assert(here == s.boards.update(s.active as int, BoardView { notes: left, ..s.board() }));
    assert forall|k: int, i: int|
        0 <= k < here.len() && 0 <= i < here[k].notes.len() implies (#[trigger] here[k].notes[i]).id
        != moved.id by {
        let i0 = if k == s.active {
            kept[i]
        } else {
            i
        };
        assert(here[k].notes[i] == s.boards[k].notes[i0]);
        assert(s.boards[s.active as int].notes[at].id == moved.id);
    }
    assert(s.boards[s.active as int].notes[at].id < s.next_id);
    assert(here[target] == s.boards[target]);
    lemma_more_ids(here, target, moved, s.next_id);
}

/// Every pin keeps an id of its own, whatever the mouse does.
pub proof fn law_gestures_keep_ids_apart(s: AppState, m: MouseEvent)
    requires
        s.wf(),
        ids_told_apart(s),
    ensures
        ids_told_apart(s.on_mouse(m)),
{
    reveal(AppState::mouse);
    reveal(AppState::wheel);
    reveal(AppState::zoom_at);
    let begun = s.begin_step();
    let quiet = AppState { status: None, ..begun };
    let handled = begun.mouse(m);
    lemma_down_ids(quiet, m.column, m.row);
    lemma_drag_ids(quiet, m.column, m.row);
    lemma_up_ids(quiet, m.column, m.row);
    crate::laws::lemma_mouse_memory(begun, m);
    lemma_history_ids(begun, handled);
    lemma_end_ids(handled);
}

// ---- where they start ----

proof fn lemma_below_top(notes: Seq<NoteView>, n: int, i: int)
    requires
        0 <= i < n <= notes.len(),
    ensures
        notes[i].id <= top_id(notes, n),
    decreases n,
{
    if i < n - 1 {
        lemma_below_top(notes, n - 1, i);
    }
}

proof fn lemma_below_top_on(boards: Seq<BoardView>, n: int, b: int, i: int)
    requires
        0 <= b < n <= boards.len(),
        0 <= i < boards[b].notes.len(),
    ensures
        boards[b].notes[i].id <= top_id_on(boards, n),
    decreases n,
{
    if b == n - 1 {
        lemma_below_top(boards[b].notes, boards[b].notes.len() as int, i);
    } else {
        lemma_below_top_on(boards, n - 1, b, i);
    }
}

/// A session opened on boards whose pins have ids of their own gives none of them
/// to a new pin.
pub proof fn law_a_session_starts_with_ids_apart(boards: Seq<BoardView>)
    requires
        distinct(boards),
        top_id_on(boards, boards.len() as int) < u64::MAX,
    ensures
        ids_told_apart(AppState::opened(boards)),
{
    let next = AppState::opened(boards).next_id;
    assert forall|b: int, i: int| 0 <= b < boards.len() && 0 <= i < boards[b].notes.len() implies (
    #[trigger] boards[b].notes[i]).id < next by {
        lemma_below_top_on(boards, boards.len() as int, b, i);
        lemma_top_is_some(boards, boards.len() as int);
    }
}

proof fn lemma_top_is_some(boards: Seq<BoardView>, n: int)
    ensures
        top_id_on(boards, n) >= 0,
    decreases n,
{
    if n > 0 {
        lemma_top_is_some(boards, n - 1);
    }
}

proof fn lemma_counted(folders: Seq<Folder>, b: int, c: int)
    requires
        0 <= b <= c <= folders.len(),
    ensures
        0 <= pins_before(folders, b) <= pins_before(folders, c),
    decreases c,
{
    if b < c {
        lemma_counted(folders, b, c - 1);
    } else if c > 0 {
        lemma_counted(folders, b - 1, c - 1);
    }
}

/// Pins read from files are numbered one after the other, so each has an id of
/// its own.
pub proof fn law_a_load_tells_pins_apart(folders: Seq<Folder>)
    requires
        pins_before(folders, folders.len() as int) < u64::MAX,
    ensures
        distinct(boards_in(folders)),
{
    let boards = boards_in(folders);
    assert forall|b: int, i: int, c: int, j: int|
        0 <= b < boards.len() && 0 <= i < boards[b].notes.len() && 0 <= c < boards.len() && 0 <= j
            < boards[c].notes.len() && (#[trigger] boards[b].notes[i]).id == (
        #[trigger] boards[c].notes[j]).id implies b == c && i == j by {
        let n = folders.len() as int;
        lemma_counted(folders, 0, b);
        lemma_counted(folders, 0, c);
        lemma_counted(folders, b + 1, n);
        lemma_counted(folders, c + 1, n);
        assert(boards[b].notes[i].id == 1 + pins_before(folders, b) + i);
        assert(boards[c].notes[j].id == 1 + pins_before(folders, c) + j);
        if b < c {
            lemma_counted(folders, b + 1, c);
        } else if c < b {
            lemma_counted(folders, c + 1, b);
        }
    }
}

/// Pins read from files are nowhere near the edge of what a session has room
/// for.
pub proof fn law_a_load_leaves_room(folders: Seq<Folder>)
    requires
        forall|b: int| 0 <= b < folders.len() ==> (#[trigger] folders[b]).pins@.len() <= usize::MAX,
    ensures
        boards_within(boards_in(folders), pin_limit()),
{
    let boards = boards_in(folders);
    assert forall|b: int| 0 <= b < boards.len() implies board_within(
        #[trigger] boards[b],
        pin_limit(),
    ) by {
        assert forall|i: int| 0 <= i < boards[b].notes.len() implies near(
            (#[trigger] boards[b].notes[i]).position(),
            pin_limit(),
        ) by {
            let block = crate::pinfile::front(folders[b].pins@[i].text@).0;
            if let Some(x) = crate::pinfile::field_of(block, "x"@) {
                crate::coord::law_coordinates_are_on_the_map(x);
            }
            if let Some(y) = crate::pinfile::field_of(block, "y"@) {
                crate::coord::law_coordinates_are_on_the_map(y);
            }
        }
    }
}

} // verus!

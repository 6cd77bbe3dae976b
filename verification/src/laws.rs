//! What holds of the application as a whole, whatever is done to it.

use crate::geometry::{Camera, WorldPoint};
use crate::input::{KeyCode, KeyEvent, KeyModifiers, MouseEvent};
use crate::model::{cascade_fits, free_spot, law_free_spot_is_free, taken, BoardView, NoteView};
use crate::state::{
    blend, body_of, find_from, first_newline, held, journey, near, pan_margin, strip_end,
    tab_width, tabs_of, title_of, whole_text, AppState, Mode, SnapshotView, MAX_WORLDS, UNDO_DEPTH,
};
use crate::view::{pitch_x, pitch_y, world_under};
use crate::wrap::{lemma_placed, lemma_some_row, placed, storable};
use vstd::prelude::*;

verus! {

// ---- undo ----

/// The keys that walk the history rather than add to it.
pub open spec fn history_key(k: KeyEvent) -> bool {
    k.code == KeyCode::Char('u') || k.code == KeyCode::Char('r') && k.modifiers.control
}

/// The key walks the history here: while navigating, with no key list up.
pub open spec fn walks_history(s: AppState, k: KeyEvent) -> bool {
    s.mode == Mode::Nav && !s.help && history_key(k)
}

/// What an undo goes back to once the event being handled is over: the state it
/// found, or the state the gesture it belongs to found.
pub open spec fn found(s: AppState) -> SnapshotView {
    match s.pending {
        Some(snap) => snap,
        None => s.snapshot(),
    }
}

/// An event that took `s` to `t` is in the history as it should be. While a
/// gesture is in flight nothing is recorded and what to go back to is kept, so a
/// whole drag is one step. Otherwise an event that changed no board leaves the
/// history alone, and one that did is the newest undo step and forgets the undone
/// future.
pub open spec fn recorded(s: AppState, t: AppState) -> bool {
    if t.drag is Some {
        found(t) == found(s) && t.undo == s.undo && t.redo == s.redo
    } else if t.boards == found(s).boards {
        t.pending is None && t.undo == s.undo && t.redo == s.redo
    } else {
        &&& t.pending is None
        &&& t.redo.len() == 0
        &&& t.undo == (if s.undo.len() == UNDO_DEPTH {
            s.undo.drop_first()
        } else {
            s.undo
        }).push(found(s))
    }
}

proof fn lemma_recorded(s: AppState, handled: AppState)
    requires
        same_memory(s.begin_step(), handled),
        !s.read_only,
    ensures
        recorded(s, handled.end_step()),
{
    reveal(AppState::end_step);
}

/// Every key is in the history as it should be, but for the two that walk it.
pub proof fn law_keys_are_recorded(s: AppState, k: KeyEvent)
    requires
        !s.read_only,
        !walks_history(s, k),
    ensures
        recorded(s, s.on_key(k)),
{
    let begun = s.begin_step();
    lemma_key_memory(begun, k);
    let handled = begun.key(k);
    lemma_small_memory(handled, true, 0, 0, 0);
    lemma_recorded(s, handled.follow_caret());
}

/// Every paste is in the history as it should be.
pub proof fn law_pastes_are_recorded(s: AppState, text: Seq<char>)
    requires
        !s.read_only,
    ensures
        recorded(s, s.on_paste(text)),
{
    reveal(AppState::paste);
    let handled = s.begin_step().paste(text);
    lemma_small_memory(handled, true, 0, 0, 0);
    lemma_recorded(s, handled.follow_caret());
}

/// Every gesture of the mouse is in the history as it should be.
pub proof fn law_gestures_are_recorded(s: AppState, m: MouseEvent)
    requires
        !s.read_only,
    ensures
        recorded(s, s.on_mouse(m)),
{
    let begun = s.begin_step();
    lemma_mouse_memory(begun, m);
    lemma_recorded(s, begun.mouse(m));
}

/// Whatever happens, once no gesture is in flight nothing waits to be recorded.
pub proof fn law_events_end_at_rest(s: AppState, k: KeyEvent, text: Seq<char>, m: MouseEvent)
    ensures
        s.on_key(k).at_rest(),
        s.on_paste(text).at_rest(),
        s.on_mouse(m).at_rest(),
{
    lemma_ends_at_rest(s.begin_step().key(k).follow_caret());
    lemma_ends_at_rest(s.begin_step().paste(text).follow_caret());
    lemma_ends_at_rest(s.begin_step().mouse(m));
}

pub proof fn lemma_ends_at_rest(s: AppState)
    ensures
        s.end_step().at_rest(),
{
    reveal(AppState::end_step);
    reveal(AppState::restore);
}

pub open spec fn plain_key(c: char) -> KeyEvent {
    KeyEvent {
        code: KeyCode::Char(c),
        modifiers: KeyModifiers { shift: false, control: false, alt: false, sup: false },
    }
}

pub open spec fn control_key(c: char) -> KeyEvent {
    KeyEvent {
        code: KeyCode::Char(c),
        modifiers: KeyModifiers { shift: false, control: true, alt: false, sup: false },
    }
}

/// `u` takes back whatever an event, or a whole gesture, did to the boards: every
/// board, the world that was active and the pin that was selected are what they
/// were. Theme and zoom are no change to a board and are left as they are.
pub proof fn law_u_takes_back(s: AppState, t: AppState)
    requires
        s.wf(),
        recorded(s, t),
        !t.read_only,
        t.drag is None,
        t.boards != found(s).boards,
        t.mode == Mode::Nav,
        !t.help,
    ensures
        t.on_key(plain_key('u')).snapshot() == found(s),
        t.on_key(plain_key('u')).undo == t.undo.drop_last(),
        t.on_key(plain_key('u')).redo == seq![t.snapshot()],
        t.on_key(plain_key('u')).theme_index == t.theme_index,
        t.on_key(plain_key('u')).camera.zoom == t.camera.zoom,
{
    assert(t.undo.last() == found(s));
    lemma_u_key(t);
    assert(t.redo.push(t.snapshot()) =~= seq![t.snapshot()]);
}

/// `ctrl`+`r` puts back what `u` took back, and the history is what it was.
pub proof fn law_ctrl_r_puts_back(s: AppState)
    requires
        s.wf(),
        !s.read_only,
        s.undo.len() > 0,
        s.at_rest(),
        s.drag is None,
        s.mode == Mode::Nav,
        !s.help,
    ensures
        ({
            let back = s.on_key(plain_key('u')).on_key(control_key('r'));
            &&& back.snapshot() == s.snapshot()
            &&& back.undo == s.undo
            &&& back.redo == s.redo
        }),
{
    assert(s.undo[s.undo.len() - 1].active < s.undo.last().boards.len());
    lemma_u_key(s);
    let undone = s.on_key(plain_key('u'));
    assert(undone.redo.drop_last() =~= s.redo);
    lemma_r_key(undone);
    assert(undone.undo.push(s.undo.last()) =~= s.undo);
}

/// A key that changed a board is taken back by `u` and put back by `ctrl`+`r`;
/// one that changed none leaves the history as it was, so `u` takes back the
/// change before it.
pub proof fn law_a_key_is_one_step(s: AppState, k: KeyEvent)
    requires
        s.wf(),
        s.at_rest(),
        !s.read_only,
        s.drag is None,
        !walks_history(s, k),
        ({
            let t = s.on_key(k);
            t.wf() && t.drag is None && t.mode == Mode::Nav && !t.help
        }),
    ensures
        s.on_key(k).boards != s.boards ==> ({
            let back = s.on_key(k).on_key(plain_key('u'));
            &&& back.boards == s.boards
            &&& back.active == s.active
            &&& back.selected == s.selected
            &&& back.on_key(control_key('r')).boards == s.on_key(k).boards
            &&& back.on_key(control_key('r')).active == s.on_key(k).active
            &&& back.on_key(control_key('r')).selected == s.on_key(k).selected
        }),
        s.on_key(k).boards == s.boards ==> s.on_key(k).undo == s.undo && s.on_key(k).redo == s.redo,
{
    let t = s.on_key(k);
    law_keys_are_recorded(s, k);
    lemma_key_memory(s.begin_step(), k);
    let handled = s.begin_step().key(k);
    lemma_small_memory(handled, true, 0, 0, 0);
    assert(!t.read_only) by {
        reveal(AppState::end_step);
    }
    if t.boards != s.boards {
        law_u_takes_back(s, t);
        law_ctrl_r_puts_back(t);
    }
}

proof fn lemma_u_key(t: AppState)
    requires
        !t.read_only,
        t.undo.len() > 0,
        t.undo.last().active < t.undo.last().boards.len(),
        t.pending is None,
        t.drag is None,
        t.mode == Mode::Nav,
        !t.help,
    ensures
        ({
            let after = t.on_key(plain_key('u'));
            &&& after.snapshot() == t.undo.last()
            &&& after.undo == t.undo.drop_last()
            &&& after.redo == t.redo.push(t.snapshot())
            &&& after.pending is None && after.drag is None && !after.read_only
            &&& after.mode == Mode::Nav && !after.help
            &&& after.theme_index == t.theme_index
            &&& after.camera.zoom == t.camera.zoom
        }),
{
    reveal(AppState::key);
    reveal(AppState::nav_key);
    reveal(AppState::nav_char);
    reveal(AppState::undo_step);
    reveal(AppState::let_go);
    reveal(AppState::restore);
    reveal(AppState::follow_caret);
    reveal(AppState::end_step);
}

proof fn lemma_r_key(t: AppState)
    requires
        !t.read_only,
        t.redo.len() > 0,
        t.redo.last().active < t.redo.last().boards.len(),
        t.undo.len() < UNDO_DEPTH,
        t.pending is None,
        t.drag is None,
        t.mode == Mode::Nav,
        !t.help,
    ensures
        ({
            let after = t.on_key(control_key('r'));
            &&& after.snapshot() == t.redo.last()
            &&& after.undo == t.undo.push(t.snapshot())
            &&& after.redo == t.redo.drop_last()
        }),
{
    reveal(AppState::key);
    reveal(AppState::nav_key);
    reveal(AppState::nav_char);
    reveal(AppState::redo_step);
    reveal(AppState::let_go);
    reveal(AppState::restore);
    reveal(AppState::follow_caret);
    reveal(AppState::end_step);
}

/// Undo and redo leave nothing behind for the end of the event to record: an
/// undo never becomes an undo step.
pub proof fn law_undo_does_not_record_itself(s: AppState)
    requires
        !s.read_only,
        s.drag is None,
    ensures
        s.undo.len() > 0 ==> s.undo_step().end_step() == s.undo_step(),
        s.redo.len() > 0 ==> s.redo_step().end_step() == s.redo_step(),
{
    reveal(AppState::end_step);
    reveal(AppState::undo_step);
    reveal(AppState::redo_step);
    reveal(AppState::restore);
}

// ---- time ----

/// Time passing changes nothing but the glide.
pub proof fn law_tick_changes_no_board(s: AppState, dt: u64)
    ensures
        s.tick(dt) == (AppState { glide: s.tick(dt).glide, ..s }),
        dt >= crate::state::GLIDE ==> s.tick(dt).glide is None,
{
}

/// What is on screen during a glide lies between where it set out and where it
/// is going, and is where it set out when it starts.
pub proof fn law_glide_stays_on_the_way(from: int, to: int, part: int)
    requires
        0 <= part <= journey(),
    ensures
        from <= to ==> from <= blend(from, to, part) <= to,
        to <= from ==> to <= blend(from, to, part) <= from,
        blend(from, to, 0) == from,
        blend(from, to, journey()) == to,
        crate::state::travelled(0) == 0,
{
    let d = to - from;
    let j = journey();
    if d >= 0 {
        assert(0 <= d * part <= d * j) by (nonlinear_arith)
            requires
                d >= 0,
                0 <= part <= j,
        ;
    } else {
        assert(d * j <= d * part <= 0) by (nonlinear_arith)
            requires
                d < 0,
                0 <= part <= j,
        ;
    }
    assert(d * 0 == 0) by (nonlinear_arith);
    assert(14_000int * 14_000 * 14_000 == 2_744_000_000_000);
}

// ---- camera ----

/// A zoom step keeps what was under the pointer under it, unless the board's
/// edge holds the camera back.
pub proof fn law_zoom_keeps_the_point(s: AppState, zoom_in: bool, col: u16, row: u16)
    requires
        s.glide is None,
        near(s.camera.origin, 4 * crate::state::pin_limit()),
        s.next_zoom(zoom_in) != s.camera.zoom,
        ({
            let now = Camera { zoom: s.next_zoom(zoom_in), ..s.camera };
            let a = world_under(s.camera, s.viewport, col as int, row as int);
            let b = world_under(now, s.viewport, col as int, row as int);
            let o = WorldPoint {
                x: (s.camera.origin.x + (a.0 - b.0)) as i128,
                y: (s.camera.origin.y + (a.1 - b.1)) as i128,
            };
            held(s.board(), s.viewport, now.zoom, o) == o
        }),
    ensures
        world_under(s.zoom_at(zoom_in, col, row).camera, s.viewport, col as int, row as int)
            == world_under(s.camera, s.viewport, col as int, row as int),
{
    reveal(AppState::zoom_at);
    let z0 = s.camera.zoom;
    let z1 = s.next_zoom(zoom_in);
    let cols = col - s.viewport.x;
    let rows = row - s.viewport.y;
    let (p0, p1, q0, q1) = (pitch_x(z0), pitch_x(z1), pitch_y(z0), pitch_y(z1));
    assert(-65_535 * 148_750 <= cols * p0 <= 65_535 * 148_750) by (nonlinear_arith)
        requires
            -65_535 <= cols <= 65_535,
            0 <= p0 <= 148_750,
    ;
    assert(-65_535 * 148_750 <= cols * p1 <= 65_535 * 148_750) by (nonlinear_arith)
        requires
            -65_535 <= cols <= 65_535,
            0 <= p1 <= 148_750,
    ;
    assert(-65_535 * 297_500 <= rows * q0 <= 65_535 * 297_500) by (nonlinear_arith)
        requires
            -65_535 <= rows <= 65_535,
            0 <= q0 <= 297_500,
    ;
    assert(-65_535 * 297_500 <= rows * q1 <= 65_535 * 297_500) by (nonlinear_arith)
        requires
            -65_535 <= rows <= 65_535,
            0 <= q1 <= 297_500,
    ;
}

/// Wherever the camera is sent, it stops no further than a margin past the
/// pins: their left edge is never off the right of it, nor their right edge off
/// the left by more than the view and the margin.
pub proof fn law_the_camera_is_held(
    b: BoardView,
    viewport: crate::view::Rect,
    zoom: crate::geometry::ZoomLevel,
    o: WorldPoint,
)
    requires
        b.notes.len() > 0,
        crate::state::board_within(b, 3 * crate::state::pin_limit()),
    ensures
        ({
            let h = held(b, viewport, zoom, o);
            let ((x0, y0), (x1, y1)) = b.bounds()->0;
            let w = viewport.width * pitch_x(zoom);
            let t = viewport.height * pitch_y(zoom);
            &&& x0 - pan_margin() <= h.x
            &&& y0 - pan_margin() <= h.y
            &&& h.x <= x0 - pan_margin() || h.x + w <= x1 + pan_margin()
            &&& h.y <= y0 - pan_margin() || h.y + t <= y1 + pan_margin()
        }),
{
    reveal(held);
    crate::app::lemma_board_fits(b, 3 * crate::state::pin_limit());
    let w = viewport.width * pitch_x(zoom);
    let t = viewport.height * pitch_y(zoom);
    crate::app::lemma_span(viewport.width as int, zoom);
    crate::app::lemma_span(viewport.height as int, zoom);
}

// ---- pins never hide each other ----

/// A new note is clear of every pin on its board.
pub proof fn law_a_new_note_is_clear(s: AppState)
    requires
        cascade_fits(s.notes(), s.fresh_wanted()),
    ensures
        !taken(s.notes(), s.fresh_note().position(), None),
{
    law_free_spot_is_free(s.notes(), s.fresh_wanted(), None);
}

/// A pin let go on its board ends up clear of every other pin on it.
pub proof fn law_a_dropped_pin_is_clear(s: AppState, id: u64)
    requires
        s.wf(),
        s.note(id) is Some,
        cascade_fits(s.notes(), (s.note(id)->0).position()),
    ensures
        s.settle_note(id).note(id) matches Some(n) && !taken(
            s.settle_note(id).notes(),
            n.position(),
            Some(id),
        ),
{
    reveal(AppState::settle_note);
    let n = s.note(id)->0;
    crate::app::lemma_find_from(s.notes(), id, 0);
    let i = find_from(s.notes(), id, 0)->0;
    let spot = free_spot(s.notes(), n.position(), Some(id));
    law_free_spot_is_free(s.notes(), n.position(), Some(id));
    if spot != n.position() {
        let moved = NoteView { x: spot.x, y: spot.y, ..n };
        let now = s.notes().update(i, moved);
        assert(s.settle_note(id).notes() == now);
        crate::app::lemma_find_from(now, id, 0);
        let j = find_from(now, id, 0)->0;
        assert(now[i].id == id);
        if j < i {
            assert(s.notes()[j].id != id);
        }
        assert(j == i);
        if taken(now, spot, Some(id)) {
            let k = choose|k: int|
                0 <= k < now.len() && Some((#[trigger] now[k]).id) != Some(id) && now[k].crowds(spot);
            assert(k != i);
            assert(s.notes()[k] == now[k]);
        }
    }
}

/// A pin moved to another world lands clear of every pin already there.
pub proof fn law_a_moved_pin_is_clear(s: AppState, id: u64, target: usize)
    requires
        s.wf(),
        target < s.boards.len(),
        target != s.active,
        find_from(s.notes(), id, 0) is Some,
        ({
            let c = s.boards[target as int].content_center();
            cascade_fits(
                s.boards[target as int].notes,
                WorldPoint { x: (c.0 - 714_000) as i128, y: (c.1 - 535_500) as i128 },
            )
        }),
    ensures
        ({
            let there = s.boards[target as int].notes;
            let after = s.move_note_to_board(id, target).boards[target as int].notes;
            &&& after.len() == there.len() + 1
            &&& after.drop_last() == there
            &&& after.last().id == id
            &&& !taken(there, after.last().position(), None)
        }),
{
    reveal(AppState::move_note_to_board);
    crate::app::lemma_find_from(s.notes(), id, 0);
    let there = s.boards[target as int].notes;
    let c = s.boards[target as int].content_center();
    law_free_spot_is_free(
        there,
        WorldPoint { x: (c.0 - 714_000) as i128, y: (c.1 - 535_500) as i128 },
        None,
    );
    let after = s.move_note_to_board(id, target).boards[target as int].notes;
    assert(after.drop_last() =~= there);
}

// ---- worlds ----

/// The tabs stand side by side: each starts where the one before it ends, the
/// first after one space.
pub proof fn law_tabs_are_contiguous(boards: Seq<BoardView>, active: usize, i: int)
    requires
        strip_end(boards, boards.len() as int) + 3 <= u16::MAX,
        0 <= i < tabs_of(boards, active).len(),
    ensures
        i == 0 ==> tabs_of(boards, active)[i].x == 1,
        i > 0 ==> tabs_of(boards, active)[i].x == tabs_of(boards, active)[i - 1].x + tabs_of(
            boards,
            active,
        )[i - 1].width,
{
    lemma_strip_fits(boards, i);
    if i > 0 {
        lemma_strip_fits(boards, i - 1);
    }
}

pub proof fn lemma_strip_fits(boards: Seq<BoardView>, i: int)
    requires
        0 <= i <= boards.len(),
        strip_end(boards, boards.len() as int) + 3 <= u16::MAX,
    ensures
        1 <= strip_end(boards, i) <= u16::MAX,
        i < boards.len() ==> tab_width(boards[i]) <= u16::MAX,
{
    crate::app::lemma_strip_grows(boards, i, boards.len() as int);
    if i < boards.len() {
        crate::app::lemma_strip_grows(boards, i + 1, boards.len() as int);
    }
}

/// At the limit of worlds, asking for another opens no prompt and changes no
/// board; and the strip offers no `+`.
pub proof fn law_the_limit_of_worlds(s: AppState)
    requires
        s.boards.len() >= MAX_WORLDS,
    ensures
        s.begin_new_world().prompt == s.prompt,
        s.begin_new_world().boards == s.boards,
        tabs_of(s.boards, s.active).len() == s.boards.len(),
{
    reveal(AppState::begin_new_world);
}

/// The last world cannot be deleted.
pub proof fn law_the_last_world_stays(s: AppState)
    requires
        s.boards.len() == 1,
    ensures
        s.begin_delete_world().boards == s.boards,
        s.begin_delete_world().prompt == s.prompt,
        s.begin_delete_world().pending_deletes == s.pending_deletes,
{
    reveal(AppState::begin_delete_world);
}

// ---- editing ----

pub proof fn lemma_first_newline(t: Seq<char>, from: int, at: int)
    requires
        0 <= from <= at <= t.len(),
        forall|k: int| from <= k < at ==> t[k] != '\n',
        at < t.len() ==> t[at] == '\n',
    ensures
        first_newline(t, from) == (if at < t.len() {
            Some(at)
        } else {
            None
        }),
    decreases at - from,
{
    if from < at {
        lemma_first_newline(t, from + 1, at);
    }
}

/// Opening a note and closing it untouched gives back the same title and body.
pub proof fn law_untouched_edit_changes_nothing(n: NoteView)
    requires
        !n.title.contains('\n'),
    ensures
        title_of(whole_text(n)) == n.title,
        body_of(whole_text(n)) == n.body,
{
    let t = whole_text(n);
    assert forall|k: int| 0 <= k < n.title.len() implies t[k] != '\n' by {
        assert(n.title.contains(n.title[k]));
    }
    lemma_first_newline(t, 0, n.title.len() as int);
    if n.body.len() > 0 {
        assert(t.take(n.title.len() as int) =~= n.title);
        assert(t.skip(n.title.len() as int + 1) =~= n.body);
    } else {
        assert(n.body =~= Seq::empty());
    }
}

/// A title never keeps a newline, so a note written back opens the same way.
pub proof fn law_a_title_is_one_line(t: Seq<char>)
    ensures
        !title_of(t).contains('\n'),
    decreases t.len(),
{
    lemma_newline_found(t, 0);
}

pub proof fn lemma_newline_found(t: Seq<char>, from: int)
    requires
        0 <= from <= t.len(),
    ensures
        match first_newline(t, from) {
            Some(i) => from <= i < t.len() && t[i] == '\n' && forall|k: int|
                from <= k < i ==> t[k] != '\n',
            None => forall|k: int| from <= k < t.len() ==> t[k] != '\n',
        },
    decreases t.len() - from,
{
    if from < t.len() && t[from] != '\n' {
        lemma_newline_found(t, from + 1);
    }
}

// ---- read-only sessions ----

/// Two states remember the same things, and may change the same things.
pub open spec fn same_memory(a: AppState, b: AppState) -> bool {
    &&& a.pending == b.pending
    &&& a.undo == b.undo
    &&& a.redo == b.redo
    &&& a.read_only == b.read_only
}

/// A drag in flight stays as it is, or ends.
pub open spec fn drag_kept(a: AppState, b: AppState) -> bool {
    b.drag == a.drag || b.drag is None
}

proof fn lemma_let_go_memory(s: AppState)
    ensures
        same_memory(s, s.let_go()) && drag_kept(s, s.let_go()),
{
    reveal(AppState::let_go);
    reveal(AppState::settle_note);
}

proof fn lemma_center_memory(s: AppState, id: u64)
    ensures
        same_memory(s, s.center_on_note(id)) && s.center_on_note(id).drag == s.drag,
        same_memory(s, s.bring_into_view(id)) && s.bring_into_view(id).drag == s.drag,
{
    reveal(AppState::center_on_note);
    reveal(AppState::bring_into_view);
}

proof fn lemma_edit_memory(s: AppState)
    ensures
        same_memory(s, s.begin_edit()) && s.begin_edit().drag == s.drag,
        same_memory(s, s.commit_edit()) && s.commit_edit().drag == s.drag,
{
    reveal(AppState::begin_edit);
    reveal(AppState::commit_edit);
    if let Some(id) = s.selected {
        if let Some(n) = s.note(id) {
            let opened = AppState {
                editor: Some(crate::state::fresh_editor(whole_text(n))),
                scroll: s.scroll.remove(id),
                mode: Mode::Edit,
                camera: Camera { zoom: crate::geometry::ZoomLevel::Document, ..s.camera },
                ..s
            };
            lemma_center_memory(opened, id);
        }
    }
}

pub proof fn lemma_quit_memory(s: AppState)
    ensures
        same_memory(s, s.quit()) && drag_kept(s, s.quit()),
{
    reveal(AppState::quit);
    lemma_let_go_memory(s);
    lemma_edit_memory(s.let_go());
}

proof fn lemma_new_note_memory(s: AppState)
    ensures
        same_memory(s, s.new_note()) && s.new_note().drag == s.drag,
{
    reveal(AppState::new_note);
    let note = s.fresh_note();
    let placed = AppState {
        camera: Camera { zoom: crate::geometry::ZoomLevel::Document, ..s.camera },
        color_tick: (s.color_tick + 1) as usize,
        next_id: (s.next_id + 1) as u64,
        selected: Some(note.id),
        ..s
    }.touched().with_notes(s.notes().push(note)).clamp_origin();
    lemma_edit_memory(placed);
}

proof fn lemma_select_memory(s: AppState, step: crate::state::Step)
    ensures
        same_memory(s, s.select_toward(step)) && s.select_toward(step).drag == s.drag,
{
    reveal(AppState::select_toward);
    if let Some(id) = s.step_target(step) {
        lemma_center_memory(AppState { selected: Some(id), ..s }, id);
    }
}

proof fn lemma_zoom_memory(s: AppState, zoom_in: bool, col: u16, row: u16)
    ensures
        same_memory(s, s.zoom_at_center(zoom_in)) && s.zoom_at_center(zoom_in).drag == s.drag,
        same_memory(s, s.zoom_at(zoom_in, col, row)) && s.zoom_at(zoom_in, col, row).drag == s.drag,
{
    reveal(AppState::zoom_at_center);
    reveal(AppState::zoom_at);
    reveal(AppState::zoom_onto_note);
}

proof fn lemma_world_memory(s: AppState)
    ensures
        same_memory(s, s.begin_new_world()) && s.begin_new_world().drag == s.drag,
        same_memory(s, s.begin_delete_world()) && s.begin_delete_world().drag == s.drag,
        same_memory(s, s.confirm_prompt()) && s.confirm_prompt().drag == s.drag,
{
    reveal(AppState::begin_new_world);
    reveal(AppState::begin_delete_world);
    reveal(AppState::delete_active_world);
    reveal(AppState::confirm_prompt);
    lemma_edit_memory(s);
}

proof fn lemma_small_memory(s: AppState, forward: bool, index: int, dx: int, dy: int)
    ensures
        same_memory(s, s.delete_selected()) && s.delete_selected().drag == s.drag,
        same_memory(s, s.cycle_theme(forward)) && s.cycle_theme(forward).drag == s.drag,
        same_memory(s, s.cycle_note_color(forward)) && s.cycle_note_color(forward).drag == s.drag,
        same_memory(s, s.yank_note()) && s.yank_note().drag == s.drag,
        same_memory(s, s.copy_selection(forward)) && s.copy_selection(forward).drag == s.drag,
        same_memory(s, s.switch_world(index)) && drag_kept(s, s.switch_world(index)),
        same_memory(s, s.page_selected(forward)) && s.page_selected(forward).drag == s.drag,
        same_memory(s, s.pan_cells(dx, dy)) && s.pan_cells(dx, dy).drag == s.drag,
        same_memory(s, s.follow_caret()) && s.follow_caret().drag == s.drag,
        s.follow_caret().boards == s.boards,
{
    reveal(AppState::delete_selected);
    reveal(AppState::cycle_note_color);
    reveal(AppState::yank_note);
    reveal(AppState::copy_selection);
    reveal(AppState::switch_world);
    reveal(AppState::page_selected);
    reveal(AppState::pan_cells);
    reveal(AppState::follow_caret);
    lemma_let_go_memory(s);
}

/// Following the caret moves the window over the text and nothing else.
pub proof fn lemma_follow_memory(s: AppState)
    ensures
        same_memory(s, s.follow_caret()),
        s.follow_caret().drag == s.drag,
        s.follow_caret().boards == s.boards,
{
    reveal(AppState::follow_caret);
}

proof fn lemma_empty_history_memory(s: AppState)
    requires
        s.read_only,
    ensures
        same_memory(s, s.undo_step()) && s.undo_step().drag == s.drag,
        same_memory(s, s.redo_step()) && s.redo_step().drag == s.drag,
{
    reveal(AppState::undo_step);
    reveal(AppState::redo_step);
}

proof fn lemma_nav_char_memory(s: AppState, c: char, ctrl: bool)
    requires
        s.read_only || !(c == 'u' || c == 'r' && ctrl),
    ensures
        same_memory(s, s.nav_char(c, ctrl)) && drag_kept(s, s.nav_char(c, ctrl)),
{
    reveal(AppState::nav_char);
    if s.read_only {
        lemma_empty_history_memory(s);
    }
    lemma_edit_memory(s);
    lemma_quit_memory(s);
    lemma_new_note_memory(s);
    lemma_world_memory(s);
    lemma_zoom_memory(s, true, 0, 0);
    lemma_zoom_memory(s, false, 0, 0);
    lemma_small_memory(s, true, c as int - '1' as int, 0, 0);
    lemma_small_memory(s, false, 0, 0, 0);
    lemma_select_memory(s, crate::state::Step::Left);
    lemma_select_memory(s, crate::state::Step::Right);
    lemma_select_memory(s, crate::state::Step::Up);
    lemma_select_memory(s, crate::state::Step::Down);
}

pub proof fn lemma_nav_key_memory(s: AppState, k: KeyEvent)
    requires
        s.read_only || !history_key(k),
    ensures
        same_memory(s, s.nav_key(k)) && drag_kept(s, s.nav_key(k)),
{
    reveal(AppState::nav_key);
    lemma_edit_memory(s);
    lemma_small_memory(s, true, s.active + 1, -4, 0);
    lemma_small_memory(s, false, s.active + s.boards.len() - 1, 4, 0);
    lemma_small_memory(s, false, 0, 0, -4);
    lemma_small_memory(s, false, 0, 0, 4);
    lemma_select_memory(s, crate::state::Step::Left);
    lemma_select_memory(s, crate::state::Step::Right);
    lemma_select_memory(s, crate::state::Step::Up);
    lemma_select_memory(s, crate::state::Step::Down);
    if let KeyCode::Char(c) = k.code {
        lemma_nav_char_memory(s, c, k.modifiers.control);
    }
}

pub proof fn lemma_key_memory(s: AppState, k: KeyEvent)
    requires
        s.read_only || !walks_history(s, k),
    ensures
        same_memory(s, s.key(k)),
        s.key(k).drag == s.drag || s.key(k).drag is None,
{
    reveal(AppState::key);
    reveal(AppState::edit_key);
    reveal(AppState::prompt_key);
    let quiet = AppState { status: None, ..s };
    if s.read_only || !history_key(k) {
        lemma_nav_key_memory(quiet, k);
    }
    lemma_edit_memory(quiet);
    lemma_quit_memory(quiet);
    lemma_world_memory(quiet);
    lemma_small_memory(quiet, true, 0, 0, 0);
    lemma_small_memory(quiet, false, 0, 0, 0);
}

/// A session that may look but not touch, over boards `b`: between events the
/// boards are `b`, and during a gesture the state to go back to is.
pub open spec fn looks_only(s: AppState, b: Seq<BoardView>) -> bool {
    &&& s.read_only
    &&& match s.pending {
        Some(snap) => snap.boards == b,
        None => s.boards == b && s.drag is None,
    }
}

proof fn lemma_looks_only_ends(s: AppState, b: Seq<BoardView>)
    requires
        s.read_only,
        s.pending matches Some(snap) && snap.boards == b,
    ensures
        looks_only(s.end_step(), b),
        s.end_step().drag is None ==> s.end_step().boards == b,
{
    reveal(AppState::end_step);
    reveal(AppState::restore);
}

/// A read-only session never changes a board: no key does, in any state it can
/// be in. Once no gesture is in flight the boards are what they were.
pub proof fn law_read_only_keys(s: AppState, b: Seq<BoardView>, k: KeyEvent)
    requires
        looks_only(s, b),
    ensures
        looks_only(s.on_key(k), b),
        s.on_key(k).drag is None ==> s.on_key(k).boards == b,
{
    let begun = s.begin_step();
    lemma_key_memory(begun, k);
    let handled = begun.key(k);
    lemma_small_memory(handled, true, 0, 0, 0);
    lemma_looks_only_ends(handled.follow_caret(), b);
}

/// A read-only session never changes a board: no paste does.
pub proof fn law_read_only_pastes(s: AppState, b: Seq<BoardView>, text: Seq<char>)
    requires
        looks_only(s, b),
    ensures
        looks_only(s.on_paste(text), b),
        s.on_paste(text).drag is None ==> s.on_paste(text).boards == b,
{
    reveal(AppState::paste);
    let handled = s.begin_step().paste(text);
    lemma_small_memory(handled, true, 0, 0, 0);
    lemma_looks_only_ends(handled.follow_caret(), b);
}

pub proof fn lemma_mouse_memory(s: AppState, m: MouseEvent)
    ensures
        same_memory(s, s.mouse(m)),
{
    reveal(AppState::mouse);
    let quiet = AppState { status: None, ..s };
    let (col, row) = (m.column, m.row);
    lemma_wheel_memory(quiet, col, row);
    lemma_down_memory(quiet, col, row);
    lemma_up_memory(quiet, col, row);
    lemma_drag_memory(quiet, col, row);
}

proof fn lemma_wheel_memory(s: AppState, col: u16, row: u16)
    ensures
        same_memory(s, s.wheel(true, col, row)),
        same_memory(s, s.wheel(false, col, row)),
{
    reveal(AppState::wheel);
    lemma_zoom_memory(s, true, col, row);
    lemma_zoom_memory(s, false, col, row);
}

proof fn lemma_press_memory(s: AppState, col: u16, row: u16)
    ensures
        same_memory(s, s.press_board(col, row)),
{
    reveal(AppState::press_board);
    reveal(AppState::bring_to_front);
}

proof fn lemma_down_memory(s: AppState, col: u16, row: u16)
    ensures
        same_memory(s, s.mouse_down(col, row)),
{
    reveal(AppState::mouse_down);
    lemma_let_go_memory(s);
    lemma_pressed_memory(s.let_go(), col, row);
}

proof fn lemma_pressed_memory(s: AppState, col: u16, row: u16)
    ensures
        same_memory(s, s.pressed(col, row)),
{
    reveal(AppState::pressed);
    reveal(AppState::click_tab);
    lemma_press_memory(s, col, row);
    lemma_edit_memory(s);
    lemma_press_memory(s.commit_edit(), col, row);
    let closed = AppState { prompt: None, mode: Mode::Nav, ..s };
    lemma_world_memory(s);
    lemma_world_memory(closed);
    if let Some(crate::state::TabKindView::World { index, name: _, notes: _, active: _ }) = s.tab_at(
        col,
    ) {
        lemma_small_memory(s, true, index as int, 0, 0);
        lemma_small_memory(closed, true, index as int, 0, 0);
        lemma_small_memory(s.commit_edit(), true, index as int, 0, 0);
    }
}

proof fn lemma_up_memory(s: AppState, col: u16, row: u16)
    ensures
        same_memory(s, s.mouse_up(col, row)),
{
    reveal(AppState::mouse_up);
    reveal(AppState::move_note_to_board);
    reveal(AppState::settle_note);
}

proof fn lemma_drag_memory(s: AppState, col: u16, row: u16)
    ensures
        same_memory(s, s.mouse_drag(col, row)),
{
    reveal(AppState::mouse_drag);
}

/// A read-only session never changes a board: no gesture of the mouse does,
/// once it is over.
pub proof fn law_read_only_mouse(s: AppState, b: Seq<BoardView>, m: MouseEvent)
    requires
        looks_only(s, b),
    ensures
        looks_only(s.on_mouse(m), b),
        s.on_mouse(m).drag is None ==> s.on_mouse(m).boards == b,
{
    let begun = s.begin_step();
    lemma_mouse_memory(begun, m);
    lemma_looks_only_ends(begun.mouse(m), b);
}

// ---- the caret ----

proof fn lemma_caret_followed(s: AppState)
    requires
        s.mode == Mode::Edit,
        s.edit_layout() matches Some((cells, rows)) && cells.height > 2 && 1 <= rows.len()
            <= usize::MAX,
    ensures
        caret_shows(s.follow_caret()),
        s.follow_caret().edit_layout() == s.edit_layout(),
{
    reveal(AppState::follow_caret);
    let id = s.selected->0;
    let t = s.follow_caret();
    let (cells, rows) = s.edit_layout()->0;
    lemma_placed(rows, (s.editor->0).cursor());
    assert(t.edit_layout() == s.edit_layout());
    assert(t.max_scroll_of(id) == s.max_scroll_of(id));
    assert(t.scroll.contains_key(id));
}

/// The caret's row is inside the window of the note being edited.
pub open spec fn caret_shows(s: AppState) -> bool {
    let id = s.selected->0;
    let (cells, rows) = s.edit_layout()->0;
    let row = placed(rows, (s.editor->0).cursor()).0;
    s.scroll_of(id) <= row < s.scroll_of(id) + (cells.height - 2)
}

/// A note is open, big enough to show a row, and its text is one a machine can
/// hold.
pub open spec fn writing(s: AppState) -> bool {
    &&& s.edit_layout() matches Some((cells, rows)) && cells.height > 2 && rows.len() <= usize::MAX
    &&& s.editor matches Some(e) && storable(e.lines)
    &&& s.mode == Mode::Edit
}

/// After every key and every paste the caret is in sight: the window of the note
/// being edited has moved to it if it had to.
pub proof fn law_the_caret_is_in_view(s: AppState, k: KeyEvent, text: Seq<char>)
    requires
        !s.read_only,
    ensures
        !walks_history(s, k) && s.on_key(k).drag is None && writing(s.on_key(k)) ==> caret_shows(
            s.on_key(k),
        ),
        s.on_paste(text).drag is None && writing(s.on_paste(text)) ==> caret_shows(
            s.on_paste(text),
        ),
{
    let begun = s.begin_step();
    if !walks_history(s, k) {
        lemma_key_memory(begun, k);
        lemma_caret_after(begun.key(k));
    }
    reveal(AppState::paste);
    lemma_caret_after(begun.paste(text));
}

proof fn lemma_caret_after(handled: AppState)
    requires
        !handled.read_only,
    ensures
        ({
            let t = handled.follow_caret().end_step();
            t.drag is None && writing(t) ==> caret_shows(t)
        }),
{
    reveal(AppState::end_step);
    let t = handled.follow_caret().end_step();
    lemma_follow_memory(handled);
    if t.drag is None && writing(t) {
        assert(t.edit_layout() == handled.follow_caret().edit_layout());
        lemma_follow_layout(handled);
        let (cells, rows) = handled.edit_layout()->0;
        lemma_some_row((handled.editor->0).lines, cells.width - 2);
        lemma_caret_followed(handled);
        assert(t.text_extent(t.selected->0) == handled.follow_caret().text_extent(t.selected->0));
    }
}

proof fn lemma_follow_layout(s: AppState)
    ensures
        s.follow_caret().edit_layout() == s.edit_layout(),
        s.follow_caret().editor == s.editor,
        s.follow_caret().selected == s.selected,
        s.follow_caret().active == s.active,
        s.follow_caret().mode == s.mode,
        s.follow_caret().help == s.help,
{
    reveal(AppState::follow_caret);
    assert(s.follow_caret().note(s.selected->0) == s.note(s.selected->0));
}

// ---- notes and the wheel ----

/// A note never scrolls past either end of its text, and one that fits does not
/// scroll at all.
pub proof fn law_scrolling_stops_at_both_ends(s: AppState, id: u64)
    ensures
        0 <= s.scroll_of(id) <= s.max_scroll_of(id),
        s.text_extent(id) matches Some((height, rows)) ==> if rows <= height {
            s.scroll_of(id) == 0
        } else {
            s.scroll_of(id) + height <= rows
        },
{
}

/// What the wheel does is decided by what is under the pointer and never by how
/// much is written there: while a note is open it moves that note's text; where
/// bodies show it moves the text of the pin it is over; and everywhere else it
/// zooms. A wheel that moves text moves nothing else.
pub proof fn law_the_wheel_goes_by_what_it_is_over(s: AppState, down: bool, col: u16, row: u16)
    ensures
        ({
            let bodies = s.camera.zoom == crate::geometry::ZoomLevel::Preview || s.camera.zoom
                == crate::geometry::ZoomLevel::Document;
            let text = if s.mode == Mode::Edit {
                s.selected
            } else if bodies && s.pin_at(col, row) is Some {
                Some((s.pin_at(col, row)->0).id)
            } else {
                None
            };
            match text {
                Some(id) => s.wheel(down, col, row) == (AppState {
                    scroll: s.scroll.insert(id, s.wheel(down, col, row).scroll[id]),
                    ..s
                }),
                None => s.wheel(down, col, row) == s.zoom_at(!down, col, row),
            }
        }),
{
    reveal(AppState::wheel);
}

/// Stepping to a pin that is in view does not move the board.
pub proof fn law_a_pin_in_view_moves_no_board(s: AppState, step: crate::state::Step)
    requires
        s.step_target(step) matches Some(id) && s.note(id) matches Some(n) && s.in_view(n),
    ensures
        s.select_toward(step).camera == s.camera,
        s.select_toward(step).glide == s.glide,
        s.select_toward(step).selected == s.step_target(step),
{
    reveal(AppState::select_toward);
    reveal(AppState::bring_into_view);
    let id = s.step_target(step)->0;
    assert(AppState { selected: Some(id), ..s }.note(id) == s.note(id));
}

/// Opening a note and closing it without typing changes no board and records
/// nothing.
pub proof fn law_opening_and_closing_records_nothing(s: AppState, id: u64)
    requires
        s.wf(),
        !s.read_only,
        s.pending is None,
        s.drag is None,
        s.mode == Mode::Nav,
        !s.help,
        s.selected == Some(id),
        s.note(id) matches Some(n) && !n.title.contains('\n'),
    ensures
        ({
            let closed = s.on_key(plain_key('e')).on_key(esc_key());
            &&& closed.mode == Mode::Nav
            &&& closed.boards == s.boards
            &&& closed.undo == s.undo
            &&& closed.redo == s.redo
        }),
{
    reveal(AppState::key);
    reveal(AppState::nav_key);
    reveal(AppState::nav_char);
    reveal(AppState::begin_edit);
    reveal(AppState::center_on_note);
    reveal(AppState::edit_key);
    reveal(AppState::commit_edit);
    reveal(AppState::end_step);
    let n = s.note(id)->0;
    let e = crate::state::fresh_editor(whole_text(n));
    let found = s.begin_step();
    let opened = found.key(plain_key('e'));
    assert(AppState { status: None, ..found }.note(id) == Some(n));
    assert(opened.editor == Some(e) && opened.mode == Mode::Edit && !opened.help);
    assert(opened.boards == s.boards && opened.active == s.active && opened.selected == Some(id));
    law_keys_are_recorded(s, plain_key('e'));
    lemma_follow_memory(opened);
    lemma_follow_layout(opened);
    let open = s.on_key(plain_key('e'));
    assert(open.drag is None && open.pending is None);
    assert(open.boards == s.boards && open.active == s.active && open.editor == Some(e));
    crate::text::lemma_join_split(whole_text(n), '\n');
    assert(e.text() == whole_text(n));
    law_untouched_edit_changes_nothing(n);
    let begun = open.begin_step();
    let closing = begun.key(esc_key());
    crate::app::lemma_find_from(s.notes(), id, 0);
    let at = find_from(s.notes(), id, 0)->0;
    assert(s.notes().update(at, n) =~= s.notes());
    assert(begun.notes() == s.notes());
    assert(closing.boards =~= s.boards);
    law_keys_are_recorded(open, esc_key());
    lemma_follow_memory(closing);
    lemma_follow_layout(closing);
}

pub open spec fn esc_key() -> KeyEvent {
    KeyEvent {
        code: KeyCode::Esc,
        modifiers: KeyModifiers { shift: false, control: false, alt: false, sup: false },
    }
}

} // verus!

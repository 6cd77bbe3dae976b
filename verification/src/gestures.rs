//! What the mouse is for: taking hold of the board or of a pin, carrying it
//! along, and putting it down.

use crate::camera::{
    free_x, free_y, law_the_camera_goes_where_it_may, lemma_cells_in_grains, span_x, span_y,
};
use crate::geometry::WorldPoint;
use crate::input::{MouseButton, MouseEvent, MouseEventKind};
use crate::model::{
    cascade, cascade_fits, free_spot, law_free_spot_is_free, taken, BoardView, NoteView,
};
use crate::state::{
    board_within, find_from, pin_limit, top_z, AppState, Drag, DropTarget, Mode,
};
use crate::view::{pitch_x, pitch_y};
use vstd::prelude::*;

verus! {

pub open spec fn left_down(col: u16, row: u16) -> MouseEvent {
    MouseEvent { kind: MouseEventKind::Down(MouseButton::Left), column: col, row }
}

pub open spec fn left_drag(col: u16, row: u16) -> MouseEvent {
    MouseEvent { kind: MouseEventKind::Drag(MouseButton::Left), column: col, row }
}

pub open spec fn left_up(col: u16, row: u16) -> MouseEvent {
    MouseEvent { kind: MouseEventKind::Up(MouseButton::Left), column: col, row }
}

/// The point of the world that is drawn at a cell, from left to right, when the
/// camera is at `x`.
pub open spec fn seen_x(s: AppState, x: int, col: u16) -> int {
    x + (col - s.viewport.x) * pitch_x(s.camera.zoom)
}

/// The same, from top to bottom.
pub open spec fn seen_y(s: AppState, y: int, row: u16) -> int {
    y + (row - s.viewport.y) * pitch_y(s.camera.zoom)
}

/// Nothing but what is on the boards is as it was.
pub open spec fn pins_kept(a: Seq<NoteView>, b: Seq<NoteView>, but: int) -> bool {
    a.len() == b.len() && forall|i: int| 0 <= i < a.len() && i != but ==> #[trigger] a[i] == b[i]
}

/// All boards but one are as they were.
pub open spec fn boards_kept(a: Seq<BoardView>, b: Seq<BoardView>, but: int) -> bool {
    a.len() == b.len() && forall|i: int| 0 <= i < a.len() && i != but ==> #[trigger] a[i] == b[i]
}

// ---- the board ----

/// A press on the bare board takes hold of it where the pointer is, lets go of
/// the selection, and moves nothing.
pub proof fn law_a_press_takes_hold_of_the_board(s: AppState, col: u16, row: u16)
    requires
        !s.help,
        s.drag is None,
        s.mode == Mode::Nav,
        s.viewport.holds(col, row),
        !s.tabs.holds(col, row),
        s.pin_at(col, row) is None,
    ensures
        ({
            let t = s.on_mouse(left_down(col, row));
            &&& t.drag == Some(Drag::Pan { col, row, origin: s.camera.origin })
            &&& t.selected is None
            &&& t.camera == s.camera && t.glide == s.glide
            &&& t.viewport == s.viewport && t.boards == s.boards && t.active == s.active
        }),
{
    reveal(AppState::mouse);
    reveal(AppState::mouse_down);
    reveal(AppState::let_go);
    reveal(AppState::pressed);
    reveal(AppState::press_board);
    reveal(AppState::end_step);
    let quiet = AppState { status: None, ..s.begin_step() };
    assert(quiet.pin_at(col, row) == s.pin_at(col, row));
}

/// While the board is dragged it follows the pointer: what was under it where the
/// board was taken hold of is under it now, unless the edge of the board holds the
/// camera back.
pub proof fn law_the_board_follows_the_pointer(
    s: AppState,
    c0: u16,
    r0: u16,
    o: WorldPoint,
    col: u16,
    row: u16,
)
    requires
        s.has_room(),
        !s.help,
        s.drag == Some(Drag::Pan { col: c0, row: r0, origin: o }),
    ensures
        ({
            let t = s.on_mouse(left_drag(col, row));
            let z = s.camera.zoom;
            let x = o.x - (col - c0) * pitch_x(z);
            let y = o.y - (row - r0) * pitch_y(z);
            &&& t.boards == s.boards && t.drag == s.drag && t.camera.zoom == z
            &&& t.viewport == s.viewport && t.selected == s.selected && t.active == s.active
            &&& t.shown() == t.camera
            &&& free_x(s.notes(), span_x(s.viewport, z), x) ==> seen_x(
                s,
                t.camera.origin.x as int,
                col,
            ) == seen_x(s, o.x as int, c0)
            &&& free_y(s.notes(), span_y(s.viewport, z), y) ==> seen_y(
                s,
                t.camera.origin.y as int,
                row,
            ) == seen_y(s, o.y as int, r0)
        }),
{
    reveal(AppState::mouse);
    reveal(AppState::mouse_drag);
    reveal(AppState::end_step);
    let z = s.camera.zoom;
    let (px, py) = (pitch_x(z), pitch_y(z));
    lemma_cells_in_grains(col - c0, row - r0, z);
    let to = WorldPoint {
        x: (o.x - (col - c0) * px) as i128,
        y: (o.y - (row - r0) * py) as i128,
    };
    assert(board_within(s.boards[s.active as int], pin_limit()));
    law_the_camera_goes_where_it_may(s.board(), s.viewport, z, to);
    let (vx, vy) = (s.viewport.x as int, s.viewport.y as int);
    let (c, r, d, e) = (col as int, row as int, c0 as int, r0 as int);
    assert((c - vx) * px - (c - d) * px == (d - vx) * px) by (nonlinear_arith);
    assert((r - vy) * py - (r - e) * py == (e - vy) * py) by (nonlinear_arith);
}

/// Letting go of the board leaves it where it is.
pub proof fn law_letting_go_of_the_board_moves_nothing(s: AppState, col: u16, row: u16)
    requires
        !s.help,
        s.drag matches Some(Drag::Pan { col: _, row: _, origin: _ }),
        s.pending is None || s.pending->0.boards == s.boards,
    ensures
        ({
            let t = s.on_mouse(left_up(col, row));
            &&& t.drag is None
            &&& t.camera == s.camera && t.boards == s.boards && t.selected == s.selected
            &&& t.undo == s.undo && t.redo == s.redo
        }),
{
    reveal(AppState::mouse);
    reveal(AppState::mouse_up);
    reveal(AppState::end_step);
}

// ---- a pin ----

/// The highest place in the stack is some pin's, and no pin is above it.
pub proof fn law_the_top_is_above_all(notes: Seq<NoteView>)
    ensures
        forall|i: int| 0 <= i < notes.len() ==> (#[trigger] notes[i]).z <= top_z(notes),
        0 <= top_z(notes) <= u32::MAX,
        notes.len() > 0 ==> exists|i: int| 0 <= i < notes.len() && (#[trigger] notes[i]).z == top_z(
            notes,
        ),
    decreases notes.len(),
{
    if notes.len() > 0 {
        let before = notes.drop_last();
        let last = notes.len() - 1;
        law_the_top_is_above_all(before);
        assert(notes[last] == notes.last());
        assert forall|i: int| 0 <= i < notes.len() implies (#[trigger] notes[i]).z <= top_z(
            notes,
        ) by {
            if i < last {
                assert(notes[i] == before[i]);
            }
        }
        if notes.last().z <= top_z(before) {
            if before.len() > 0 {
                let k = choose|i: int|
                    0 <= i < before.len() && (#[trigger] before[i]).z == top_z(before);
                assert(notes[k] == before[k]);
            } else {
                assert(notes[last].z == 0);
            }
        }
    }
}

/// A press on a pin takes hold of the one on top there: it is selected, held by
/// the point the pointer is on, and raised above every other pin as far as there
/// are places above; what it says, its color and its place stay, and so does
/// every other pin.
pub proof fn law_a_press_takes_hold_of_the_pin_on_top(s: AppState, col: u16, row: u16)
    requires
        s.has_room(),
        !s.help,
        s.drag is None,
        s.mode == Mode::Nav,
        s.viewport.holds(col, row),
        !s.tabs.holds(col, row),
        s.pin_at(col, row) is Some,
        crate::changes::distinct(s.boards),
    ensures
        ({
            let n = s.pin_at(col, row)->0;
            let t = s.on_mouse(left_down(col, row));
            let p = s.world_at(col, row);
            &&& t.selected == Some(n.id)
            &&& t.drag == Some(
                Drag::Note { id: n.id, off_x: (p.x - n.x) as i128, off_y: (p.y - n.y) as i128 },
            )
            &&& t.camera == s.camera && t.active == s.active
            &&& exists|at: int|
                {
                    &&& 0 <= at < s.notes().len()
                    &&& s.notes()[at] == n
                    &&& #[trigger] pins_kept(s.notes(), t.notes(), at)
                    &&& t.notes()[at] == (NoteView { z: t.notes()[at].z, ..n })
                    &&& forall|i: int|
                        0 <= i < s.notes().len() && i != at ==> {
                            ||| (#[trigger] t.notes()[i]).z < t.notes()[at].z
                            ||| t.notes()[at].z == u32::MAX
                            ||| t.notes()[at].z == n.z && t.notes()[i].z <= n.z
                        }
                }
            &&& boards_kept(s.boards, t.boards, s.active as int)
            &&& t.board().name == s.board().name
        }),
{
    reveal(AppState::mouse);
    reveal(AppState::mouse_down);
    reveal(AppState::let_go);
    reveal(AppState::pressed);
    reveal(AppState::press_board);
    reveal(AppState::bring_to_front);
    reveal(AppState::end_step);
    let quiet = AppState { status: None, ..s.begin_step() };
    assert(quiet.pin_at(col, row) == s.pin_at(col, row));
    let n = s.pin_at(col, row)->0;
    let t = s.on_mouse(left_down(col, row));
    let notes = s.notes();
    crate::model::law_top_at(notes, s.world_at(col, row), notes.len() as int);
    crate::app::lemma_find_from(notes, n.id, 0);
    let top = crate::model::top_at(notes, s.world_at(col, row), notes.len() as int)->0;
    assert(notes[top] == n);
    let at = find_from(notes, n.id, 0)->0;
    assert(s.boards[s.active as int].notes[at].id == s.boards[s.active as int].notes[top].id);
    law_the_top_is_above_all(notes);
    assert(pins_kept(notes, t.notes(), at));
    assert forall|i: int| 0 <= i < notes.len() && i != at implies {
        ||| (#[trigger] t.notes()[i]).z < t.notes()[at].z
        ||| t.notes()[at].z == u32::MAX
        ||| t.notes()[at].z == n.z && t.notes()[i].z <= n.z
    } by {
        assert(t.notes()[i] == notes[i]);
        assert(notes[i].z <= top_z(notes));
    }
}

/// A held pin follows the pointer: the point of it that was taken hold of is under
/// the pointer, wherever on the board that is. Nothing else of it changes, and no
/// other pin does.
pub proof fn law_a_held_pin_follows_the_pointer(
    s: AppState,
    id: u64,
    off_x: i128,
    off_y: i128,
    col: u16,
    row: u16,
)
    requires
        s.has_room(),
        !s.help,
        s.drag == Some(Drag::Note { id, off_x, off_y }),
        s.note(id) is Some,
        !s.tabs.holds(col, row),
        s.glide is None,
    ensures
        ({
            let t = s.on_mouse(left_drag(col, row));
            let n = s.note(id)->0;
            let o = s.camera.origin;
            &&& t.drag == s.drag && t.drop_target is None && t.camera == s.camera
            &&& t.active == s.active && t.selected == s.selected
            &&& exists|at: int|
                {
                    &&& 0 <= at < s.notes().len() && s.notes()[at] == n
                    &&& #[trigger] pins_kept(s.notes(), t.notes(), at)
                    &&& t.notes()[at].x + off_x == seen_x(s, o.x as int, col)
                    &&& t.notes()[at].y + off_y == seen_y(s, o.y as int, row)
                    &&& t.notes()[at] == (NoteView {
                        x: t.notes()[at].x,
                        y: t.notes()[at].y,
                        ..n
                    })
                }
            &&& boards_kept(s.boards, t.boards, s.active as int)
            &&& t.board().name == s.board().name
        }),
{
    reveal(AppState::mouse);
    reveal(AppState::mouse_drag);
    reveal(AppState::end_step);
    crate::app::lemma_find_from(s.notes(), id, 0);
    let at = find_from(s.notes(), id, 0)->0;
    let t = s.on_mouse(left_drag(col, row));
    lemma_cells_in_grains(col - s.viewport.x, row - s.viewport.y, s.camera.zoom);
    assert(pins_kept(s.notes(), t.notes(), at));
}

/// Over the tabs a held pin stays where it was, and a world whose tab the pointer
/// is on is marked as where it would go.
pub proof fn law_a_pin_over_a_tab_waits(
    s: AppState,
    id: u64,
    off_x: i128,
    off_y: i128,
    col: u16,
    row: u16,
)
    requires
        !s.help,
        s.drag == Some(Drag::Note { id, off_x, off_y }),
        s.tabs.holds(col, row),
    ensures
        ({
            let t = s.on_mouse(left_drag(col, row));
            &&& t.boards == s.boards && t.drag == s.drag && t.camera == s.camera
            &&& t.drop_target == match s.world_at_point(col, row) {
                Some(world) => Some(DropTarget { world, col }),
                None => None,
            }
        }),
{
    reveal(AppState::mouse);
    reveal(AppState::mouse_drag);
    reveal(AppState::end_step);
    let quiet = AppState { status: None, ..s.begin_step() };
    assert(quiet.world_at_point(col, row) == s.world_at_point(col, row));
}

/// A pin on a board, moved to another one: there it is last, with the id, the
/// title, the body and the color it had, above every pin already there as far as
/// there are places above; it is gone from where it was; and nothing else of
/// either board, or of any other, is any different.
pub open spec fn moved_over(a: AppState, b: AppState, at: int, target: int) -> bool {
    let n = a.notes()[at];
    let there = a.boards[target].notes;
    let now = b.boards[target].notes;
    &&& b.boards.len() == a.boards.len() && b.active == a.active
    &&& now.len() == there.len() + 1
    &&& forall|i: int| 0 <= i < there.len() ==> #[trigger] now[i] == there[i]
    &&& now.last().id == n.id && now.last().title == n.title && now.last().body == n.body
    &&& now.last().color == n.color
    &&& forall|i: int|
        0 <= i < there.len() ==> (#[trigger] there[i]).z < now.last().z || now.last().z == u32::MAX
    &&& !taken(there, now.last().position(), None)
    &&& b.notes().len() == a.notes().len() - 1
    &&& forall|i: int| 0 <= i < at ==> #[trigger] b.notes()[i] == a.notes()[i]
    &&& forall|i: int| at <= i < b.notes().len() ==> #[trigger] b.notes()[i] == a.notes()[i + 1]
    &&& forall|i: int|
        0 <= i < a.boards.len() ==> (#[trigger] b.boards[i]).name == a.boards[i].name
    &&& forall|i: int|
        0 <= i < a.boards.len() && i != a.active && i != target ==> #[trigger] b.boards[i]
            == a.boards[i]
}

/// A pin moved to another world arrives there whole, and leaves the world it was
/// on.
pub proof fn law_a_moved_pin_arrives_whole(s: AppState, id: u64, target: usize)
    requires
        s.wf(),
        s.note(id) is Some,
        target < s.boards.len(),
        target != s.active,
        cascade_fits(
            s.boards[target as int].notes,
            crate::spacing::landing(s.boards[target as int]),
        ),
    ensures
        exists|at: int|
            {
                &&& 0 <= at < s.notes().len() && s.notes()[at].id == id
                &&& #[trigger] moved_over(s, s.move_note_to_board(id, target), at, target as int)
            },
        s.move_note_to_board(id, target).selected is None,
        s.move_note_to_board(id, target).camera == s.camera,
        s.move_note_to_board(id, target).drag == s.drag,
{
    reveal(AppState::move_note_to_board);
    crate::app::lemma_find_from(s.notes(), id, 0);
    let at = find_from(s.notes(), id, 0)->0;
    let there = s.boards[target as int].notes;
    let t = s.move_note_to_board(id, target);
    law_the_top_is_above_all(there);
    law_free_spot_is_free(there, crate::spacing::landing(s.boards[target as int]), None);
    assert(t.notes() =~= s.notes().remove(at));
    assert(t.boards[target as int].notes.len() == there.len() + 1);
    assert forall|i: int| 0 <= i < there.len() implies (#[trigger] there[i]).z
        < t.boards[target as int].notes.last().z || t.boards[target as int].notes.last().z
        == u32::MAX by {}
    assert(moved_over(s, t, at, target as int));
}

/// A pin moved to another world lands in the middle of the pins there, to the grain, or
/// about the origin of an empty one; where that is taken, on the first free place down
/// and to the right of it.
pub proof fn law_where_a_moved_pin_lands(s: AppState, id: u64, target: usize, k: int)
    requires
        s.safe(),
        s.note(id) is Some,
        target < s.boards.len(),
        target != s.active,
        cascade_fits(
            s.boards[target as int].notes,
            crate::spacing::landing(s.boards[target as int]),
        ),
        0 <= k,
    ensures
        ({
            let there = s.boards[target as int];
            let n = s.move_note_to_board(id, target).boards[target as int].notes.last();
            let first = crate::spacing::landing(there);
            let right = 2 * first.x + 200 * 7140;
            let down = 2 * first.y + 150 * 7140;
            &&& there.notes.len() == 0 ==> right == 0 && down == 0
            &&& there.bounds() matches Some((min, max)) ==> {
                &&& right <= min.0 + max.0 <= right + 1
                &&& down <= min.1 + max.1 <= down + 1
            }
            &&& !taken(there.notes, first, None) ==> n.position() == first
            &&& n.x - first.x >= 0 && (n.x - first.x) * 3 == (n.y - first.y) * 4
            &&& first.x + k * 178_500 < n.x ==> taken(
                there.notes,
                WorldPoint {
                    x: (first.x + k * 178_500) as i128,
                    y: (first.y + k * 133_875) as i128,
                },
                None,
            )
        }),
{
    reveal(AppState::move_note_to_board);
    let there = s.boards[target as int];
    let first = crate::spacing::landing(there);
    assert(board_within(there, 3 * pin_limit()));
    crate::app::lemma_board_fits(there, 3 * pin_limit());
    law_free_spot_is_free(there.notes, first, None);
    let step = crate::model::free_step(there.notes, first, None, 0);
    let n = s.move_note_to_board(id, target).boards[target as int].notes.last();
    assert(n.position() == free_spot(there.notes, first, None));
    assert(n.x == first.x + step * 178_500 && n.y == first.y + step * 133_875);
    if first.x + k * 178_500 < n.x {
        assert(k < step);
        assert(taken(there.notes, cascade(first, k), None));
    }
}

/// A pin dropped on another world's tab goes to that world; on the tab of its own
/// it stays as it is; and dropped anywhere else it settles on its board. Whichever
/// it is, nothing is in hand any more, and the whole drag can be undone in one.
pub proof fn law_where_a_pin_is_dropped(
    s: AppState,
    id: u64,
    off_x: i128,
    off_y: i128,
    col: u16,
    row: u16,
)
    requires
        s.wf(),
        s.boards.len() <= usize::MAX,
        !s.help,
        !s.read_only,
        s.drag == Some(Drag::Note { id, off_x, off_y }),
        s.note(id) is Some,
        crate::spacing::drop_fits(s),
    ensures
        ({
            let t = s.on_mouse(left_up(col, row));
            &&& t.drag is None && t.drop_target is None && t.camera == s.camera
            &&& t.active == s.active
            &&& match s.world_at_point(col, row) {
                Some(world) => if world == s.active {
                    t.boards == s.boards
                } else {
                    exists|at: int|
                        0 <= at < s.notes().len() && s.notes()[at].id == id && #[trigger] moved_over(
                            s,
                            t,
                            at,
                            world as int,
                        )
                },
                None => settled(s, t, id),
            }
            &&& crate::laws::recorded(s, t)
        }),
{
    reveal(AppState::mouse);
    reveal(AppState::mouse_up);
    reveal(AppState::end_step);
    let quiet = AppState { status: None, ..s.begin_step() };
    assert(quiet.world_at_point(col, row) == s.world_at_point(col, row));
    crate::laws::law_gestures_are_recorded(s, left_up(col, row));
    crate::laws::lemma_mouse_memory(s.begin_step(), left_up(col, row));
    let t = s.on_mouse(left_up(col, row));
    crate::app::lemma_find_from(s.notes(), id, 0);
    assert(quiet.note(id) == s.note(id));
    match s.world_at_point(col, row) {
        Some(world) => {
            crate::spacing::lemma_covering(s.boards, s.active, col - s.tabs.x, 0);
            reveal(AppState::move_note_to_board);
            if world != s.active {
                law_a_moved_pin_arrives_whole(quiet, id, world);
                let up = quiet.move_note_to_board(id, world);
                let at = choose|at: int|
                    {
                        &&& 0 <= at < quiet.notes().len() && quiet.notes()[at].id == id
                        &&& #[trigger] moved_over(quiet, up, at, world as int)
                    };
                assert(t.boards == up.boards);
                assert(moved_over(s, t, at, world as int));
            }
        },
        None => {
            law_a_settled_pin_is_the_same_pin(quiet, id);
            let up = quiet.settle_note(id);
            assert(up.camera == s.camera) by {
                reveal(AppState::settle_note);
            }
            assert(t.boards == up.boards);
            let (at, k) = choose|at: int, k: int|
                {
                    &&& 0 <= at < quiet.notes().len() && quiet.notes()[at] == quiet.note(id)->0
                    &&& #[trigger] pins_kept(quiet.notes(), up.notes(), at)
                    &&& #[trigger] steps_down(quiet.note(id)->0, up.notes()[at], k)
                    &&& !taken(quiet.notes(), up.notes()[at].position(), Some(id))
                    &&& forall|j: int|
                        0 <= j < k ==> taken(
                            quiet.notes(),
                            #[trigger] crate::model::cascade((quiet.note(id)->0).position(), j),
                            Some(id),
                        )
                };
            assert(pins_kept(s.notes(), t.notes(), at));
            assert(steps_down(s.note(id)->0, t.notes()[at], k));
            assert(settled(s, t, id));
        },
    }
}

/// A pin let go on its board: it is where it was held, if that hides nothing, and
/// otherwise the first free place down and to the right of there; what it says,
/// its color and its place in the stack stay, and so does every other pin.
pub open spec fn settled(a: AppState, b: AppState, id: u64) -> bool {
    let n = a.note(id)->0;
    &&& b.active == a.active
    &&& boards_kept(a.boards, b.boards, a.active as int)
    &&& b.board().name == a.board().name
    &&& exists|at: int, k: int|
        {
            &&& 0 <= at < a.notes().len() && a.notes()[at] == n
            &&& #[trigger] pins_kept(a.notes(), b.notes(), at)
            &&& #[trigger] steps_down(n, b.notes()[at], k)
            &&& !taken(a.notes(), b.notes()[at].position(), Some(id))
            &&& forall|j: int|
                0 <= j < k ==> taken(a.notes(), #[trigger] crate::model::cascade(n.position(), j), Some(id))
        }
}

/// The same pin, `k` steps of an eighth of a pin's size down and to the right.
pub open spec fn steps_down(a: NoteView, b: NoteView, k: int) -> bool {
    &&& 0 <= k
    &&& b.x == a.x + k * 178_500
    &&& b.y == a.y + k * 133_875
    &&& b == (NoteView { x: b.x, y: b.y, ..a })
}

pub proof fn law_a_settled_pin_is_the_same_pin(s: AppState, id: u64)
    requires
        s.wf(),
        s.note(id) is Some,
        cascade_fits(s.notes(), (s.note(id)->0).position()),
    ensures
        settled(s, s.settle_note(id), id),
{
    reveal(AppState::settle_note);
    crate::app::lemma_find_from(s.notes(), id, 0);
    let at = find_from(s.notes(), id, 0)->0;
    let n = s.notes()[at];
    let t = s.settle_note(id);
    law_free_spot_is_free(s.notes(), n.position(), Some(id));
    let k = crate::model::free_step(s.notes(), n.position(), Some(id), 0);
    let m = s.notes().len() as int;
    assert(k * 178_500 <= (2 * m + 1) * 178_500) by (nonlinear_arith)
        requires
            k <= 2 * m,
    ;
    assert(k * 133_875 <= (2 * m + 1) * 133_875) by (nonlinear_arith)
        requires
            k <= 2 * m,
    ;
    assert(0 <= k * 178_500 && 0 <= k * 133_875) by (nonlinear_arith)
        requires
            0 <= k,
    ;
    assert(pins_kept(s.notes(), t.notes(), at));
    assert(steps_down(n, t.notes()[at], k));
}

// ---- the wheel ----

/// The wheel over a note that shows its text scrolls that text by three rows, as
/// far as there is text; anywhere else it zooms the board about the pointer.
/// Rolling up is toward the start, or in.
pub proof fn law_what_the_wheel_does(s: AppState, col: u16, row: u16, down: bool)
    ensures
        ({
            let t = s.wheel(down, col, row);
            match s.wheel_target(col, row) {
                Some(id) => {
                    let (at, end) = (s.scroll_of(id), s.max_scroll_of(id));
                    &&& t == (AppState { scroll: t.scroll, ..s })
                    &&& t.scroll == s.scroll.insert(id, t.scroll[id])
                    &&& down && 0 <= at && at + 3 <= end <= usize::MAX ==> t.scroll[id] == at + 3
                    &&& down && 0 <= at <= end < at + 3 && end <= usize::MAX ==> t.scroll[id] == end
                    &&& !down && 3 <= at <= end <= usize::MAX ==> t.scroll[id] == at - 3
                    &&& !down && 0 <= at < 3 && at <= end ==> t.scroll[id] == 0
                },
                None => t == s.zoom_at(!down, col, row),
            }
        }),
{
    reveal(AppState::wheel);
    if let Some(id) = s.wheel_target(col, row) {
        let t = s.wheel(down, col, row);
        assert(t.scroll =~= s.scroll.insert(id, t.scroll[id]));
    }
}

/// Rolling the wheel is what the wheel does, and no change to a board.
pub proof fn law_rolling_changes_no_board(s: AppState, col: u16, row: u16)
    requires
        !s.help,
        s.drag is None,
        s.pending is None,
    ensures
        ({
            let up = s.on_mouse(MouseEvent { kind: MouseEventKind::ScrollUp, column: col, row });
            let down = s.on_mouse(MouseEvent { kind: MouseEventKind::ScrollDown, column: col, row });
            let quiet = AppState { status: None, ..s.begin_step() };
            &&& up.camera == quiet.wheel(false, col, row).camera
            &&& up.scroll == quiet.wheel(false, col, row).scroll
            &&& down.camera == quiet.wheel(true, col, row).camera
            &&& down.scroll == quiet.wheel(true, col, row).scroll
            &&& up.boards == s.boards && down.boards == s.boards
            &&& up.undo == s.undo && down.undo == s.undo
        }),
{
    reveal(AppState::mouse);
    reveal(AppState::end_step);
    let quiet = AppState { status: None, ..s.begin_step() };
    assert forall|down: bool|
        {
            let t = #[trigger] quiet.wheel(down, col, row);
            &&& t.boards == s.boards && t.drag is None && t.pending == quiet.pending
            &&& t.undo == s.undo && t.read_only == s.read_only
        } by {
        reveal(AppState::wheel);
        reveal(AppState::zoom_at);
    }
}

} // verus!

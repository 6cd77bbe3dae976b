//! What the keys are for while navigating: pinning, deleting, recoloring and opening
//! notes, stepping between them, moving the view, and going from world to world.

use crate::camera::{in_the_middle, span_x, span_y};
use crate::changes::distinct;
use crate::geometry::ZoomLevel;
use crate::gestures::{boards_kept, law_the_top_is_above_all, pins_kept};
use crate::input::{KeyCode, KeyEvent};
use crate::laws::plain_key;
use crate::model::{cascade_fits, taken, BoardView, Color, NoteView};
use crate::state::{
    best_step, copy_chord, distance2, find_from, named_world, nearest, step_cost,
    without_id, AppState, Mode, PromptKind, PromptView, Step,
};
use vstd::prelude::*;

verus! {

/// A key that gets to what it means while navigating.
pub open spec fn navigates(s: AppState, k: KeyEvent) -> bool {
    s.mode == Mode::Nav && !s.help && k.code != KeyCode::F(1) && copy_chord(k) is None
}

/// The state a key finds: the last message is gone.
pub open spec fn found_by_key(s: AppState) -> AppState {
    AppState { status: None, ..s.begin_step() }
}

/// The same but for the history, and for how far notes are scrolled.
pub open spec fn same_but_history(a: AppState, b: AppState) -> bool {
    b == AppState { pending: b.pending, undo: b.undo, redo: b.redo, scroll: b.scroll, ..a }
}

/// While navigating, a key does what it means to the state it finds, and the end of
/// the event adds nothing but history - unless the board is read-only.
pub proof fn lemma_navigates(s: AppState, k: KeyEvent)
    requires
        navigates(s, k),
        !found_by_key(s).nav_key(k).read_only,
    ensures
        same_but_history(found_by_key(s).nav_key(k), s.on_key(k)),
{
    reveal(AppState::key);
    reveal(AppState::follow_caret);
    reveal(AppState::end_step);
}

proof fn lemma_keeps_read_only(s: AppState, k: KeyEvent)
    requires
        !crate::laws::history_key(k),
    ensures
        found_by_key(s).nav_key(k).read_only == s.read_only,
{
    crate::laws::lemma_nav_key_memory(found_by_key(s), k);
}

// ---- pins ----

/// `n` pins a note in the middle of the view, or the first free place down and to
/// the right of it, and opens it for writing. It has an id no note had, is above
/// every other as far as there are places above, and says "new note". Every other
/// pin stays as it is.
pub proof fn law_n_pins_a_note(s: AppState)
    requires
        s.has_room(),
        navigates(s, plain_key('n')),
        !s.read_only,
        cascade_fits(s.notes(), s.fresh_wanted()),
        crate::changes::below(s.boards, s.next_id),
    ensures
        ({
            let t = s.on_key(plain_key('n'));
            let n = t.notes().last();
            &&& t.active == s.active && boards_kept(s.boards, t.boards, s.active as int)
            &&& t.board().name == s.board().name
            &&& t.notes().len() == s.notes().len() + 1
            &&& forall|i: int| 0 <= i < s.notes().len() ==> #[trigger] t.notes()[i] == s.notes()[i]
            &&& n.id == s.next_id && t.next_id == s.next_id + 1
            &&& n.title == "new note"@ && n.body.len() == 0
            &&& n.color == Color::ALL@[s.color_tick as int % 8] && t.color_tick == s.color_tick + 1
            &&& forall|i: int|
                0 <= i < s.notes().len() ==> (#[trigger] s.notes()[i]).z < n.z || n.z == u32::MAX
            &&& !taken(s.notes(), n.position(), None)
            &&& forall|p: NoteView|
                #![trigger p.position()]
                in_the_middle(p, s.viewport, ZoomLevel::Document, s.camera.origin) && !taken(
                    s.notes(),
                    p.position(),
                    None,
                ) ==> n.position() == p.position()
            &&& t.selected == Some(n.id) && t.mode == Mode::Edit && t.camera.zoom
                == ZoomLevel::Document
            &&& t.editor matches Some(e) && e.text() == "new note"@ && e.selection() is None
        }),
{
    let k = plain_key('n');
    let q = found_by_key(s);
    lemma_keeps_read_only(s, k);
    lemma_navigates(s, k);
    let note = q.fresh_note();
    assert(note == s.fresh_note());
    crate::model::law_free_spot_is_free(s.notes(), s.fresh_wanted(), None);
    law_the_top_is_above_all(s.notes());
    let z = ZoomLevel::Document;
    crate::camera::lemma_halves(s.viewport, z);
    reveal(AppState::nav_key);
    reveal(AppState::nav_char);
    reveal(AppState::new_note);
    let placed = AppState {
        camera: crate::geometry::Camera { zoom: z, ..q.camera },
        color_tick: (q.color_tick + 1) as usize,
        next_id: (q.next_id + 1) as u64,
        selected: Some(note.id),
        ..q
    }.touched().with_notes(q.notes().push(note)).clamp_origin();
    assert(q.nav_key(k) == placed.begin_edit());
    assert(placed.notes() == s.notes().push(note));
    crate::app::lemma_find_from(placed.notes(), note.id, 0);
    assert forall|i: int| 0 <= i < s.notes().len() implies (#[trigger] s.notes()[i]).id
        != note.id by {
        assert(s.boards[s.active as int].notes[i].id < s.next_id);
    }
    assert(placed.notes()[s.notes().len() as int].id == note.id);
    assert(placed.note(note.id) == Some(note));
    law_opening_a_note(placed, note.id);
    let t = s.on_key(k);
    assert(t.notes() == s.notes().push(note));
    assert forall|p: NoteView|
        #![trigger p.position()]
        in_the_middle(p, s.viewport, z, s.camera.origin) && !taken(
            s.notes(),
            p.position(),
            None,
        ) implies t.notes().last().position() == p.position() by {
        assert(p.position() == s.fresh_wanted());
    }
}

/// Opening a note puts all of its text in an editor - the title, and under it the
/// body if there is one - with the caret at the end and nothing selected, at the
/// zoom that shows it whole. No board changes.
pub proof fn law_opening_a_note(s: AppState, id: u64)
    requires
        !s.read_only,
        s.selected == Some(id),
        s.note(id) is Some,
    ensures
        ({
            let t = s.begin_edit();
            let n = s.note(id)->0;
            &&& t.boards == s.boards && t.active == s.active && t.selected == s.selected
            &&& t.mode == Mode::Edit && t.camera.zoom == ZoomLevel::Document
            &&& t.read_only == s.read_only && t.next_id == s.next_id
            &&& t.color_tick == s.color_tick
            &&& !t.scroll.contains_key(id)
            &&& t.editor matches Some(e) && {
                &&& n.body.len() == 0 ==> e.text() == n.title
                &&& n.body.len() > 0 ==> e.text() == n.title + seq!['\n'] + n.body
                &&& e.selection() is None
                &&& e.lines.len() <= usize::MAX && e.lines.last().len() <= usize::MAX ==> e.row
                    == e.lines.len() - 1 && e.col == e.lines.last().len()
            }
        }),
{
    reveal(AppState::begin_edit);
    reveal(AppState::center_on_note);
    let n = s.note(id)->0;
    let text = crate::state::whole_text(n);
    crate::text::lemma_join_split(text, '\n');
    crate::text::lemma_split_pieces(text, '\n');
    assert(n.title.push('\n') + n.body =~= n.title + seq!['\n'] + n.body);
}

/// Nobody writes on a board that is another session's: opening a note there is
/// refused.
pub proof fn law_a_read_only_note_stays_closed(s: AppState)
    requires
        s.read_only,
    ensures
        s.begin_edit().editor == s.editor,
        s.begin_edit().mode == s.mode,
        s.begin_edit().boards == s.boards,
        s.begin_edit().status == Some("read-only: another pinz owns this board"@),
{
    reveal(AppState::begin_edit);
}

/// Closing a note writes down what the editor holds: the first line is its title,
/// and everything under it is its body. Where it is pinned, how high, its color and
/// its id stay, and so does every other pin.
pub proof fn law_closing_a_note_writes_it_down(s: AppState, id: u64)
    requires
        s.wf(),
        s.selected == Some(id),
        s.note(id) is Some,
        s.editor is Some,
    ensures
        ({
            let t = s.commit_edit();
            let text = (s.editor->0).text();
            &&& t.mode == Mode::Nav && t.editor is None && t.selected == s.selected
            &&& t.camera == s.camera && t.active == s.active
            &&& boards_kept(s.boards, t.boards, s.active as int)
            &&& t.board().name == s.board().name
            &&& exists|at: int|
                {
                    &&& 0 <= at < s.notes().len() && s.notes()[at] == s.note(id)->0
                    &&& #[trigger] pins_kept(s.notes(), t.notes(), at)
                    &&& written_down(s.notes()[at], t.notes()[at], text)
                }
        }),
{
    reveal(AppState::commit_edit);
    let text = (s.editor->0).text();
    let t = s.commit_edit();
    crate::app::lemma_find_from(s.notes(), id, 0);
    let at = find_from(s.notes(), id, 0)->0;
    assert(pins_kept(s.notes(), t.notes(), at));
    crate::laws::lemma_newline_found(text, 0);
    crate::laws::law_a_title_is_one_line(text);
    if let Some(i) = crate::state::first_newline(text, 0) {
        assert(text =~= text.take(i) + seq!['\n'] + text.skip(i + 1));
    } else {
        assert forall|i: int| 0 <= i < text.len() implies text[i] != '\n' by {}
        assert(!text.contains('\n'));
    }
}

/// A pin with its text replaced by another, whose first line is the title.
pub open spec fn written_down(a: NoteView, b: NoteView, text: Seq<char>) -> bool {
    &&& b == (NoteView { title: b.title, body: b.body, ..a })
    &&& !b.title.contains('\n')
    &&& text == b.title + seq!['\n'] + b.body || (text == b.title && b.body.len() == 0)
}

/// Deleting takes the selected pin off its board and nothing else, and leaves
/// nothing selected.
pub proof fn law_deleting_takes_the_selected_pin(s: AppState, id: u64)
    requires
        s.wf(),
        s.selected == Some(id),
        s.note(id) is Some,
        distinct(s.boards),
    ensures
        ({
            let t = s.delete_selected();
            &&& t.selected is None && t.camera == s.camera && t.active == s.active
            &&& boards_kept(s.boards, t.boards, s.active as int)
            &&& t.board().name == s.board().name
            &&& exists|at: int|
                0 <= at < s.notes().len() && s.notes()[at].id == id && t.notes()
                    == #[trigger] s.notes().remove(at)
        }),
        s.selected is None ==> s.delete_selected() == s,
{
    reveal(AppState::delete_selected);
    crate::app::lemma_find_from(s.notes(), id, 0);
    let at = find_from(s.notes(), id, 0)->0;
    let notes = s.notes();
    assert forall|i: int| 0 <= i < notes.len() && i != at implies (#[trigger] notes[i]).id
        != id by {
        assert(s.boards[s.active as int].notes[i].id != s.boards[s.active as int].notes[at].id);
    }
    lemma_without_one(notes, id, at);
    assert(s.delete_selected().notes() == s.notes().remove(at));
}

proof fn lemma_without_one(notes: Seq<NoteView>, id: u64, at: int)
    requires
        0 <= at < notes.len(),
        notes[at].id == id,
        forall|i: int| 0 <= i < notes.len() && i != at ==> (#[trigger] notes[i]).id != id,
    ensures
        without_id(notes, id) == notes.remove(at),
    decreases notes.len(),
{
    let before = notes.drop_last();
    assert(forall|i: int| 0 <= i < before.len() ==> #[trigger] before[i] == notes[i]);
    if at == notes.len() - 1 {
        lemma_without_none(before, id);
        assert(notes.remove(at) =~= before);
    } else {
        lemma_without_one(before, id, at);
        assert(notes.remove(at) =~= before.remove(at).push(notes.last()));
    }
}

proof fn lemma_without_none(notes: Seq<NoteView>, id: u64)
    requires
        forall|i: int| 0 <= i < notes.len() ==> (#[trigger] notes[i]).id != id,
    ensures
        without_id(notes, id) == notes,
    decreases notes.len(),
{
    if notes.len() > 0 {
        let before = notes.drop_last();
        assert(forall|i: int| 0 <= i < before.len() ==> #[trigger] before[i] == notes[i]);
        lemma_without_none(before, id);
        assert(before.push(notes.last()) =~= notes);
    } else {
        assert(notes =~= Seq::<NoteView>::empty());
    }
}

/// Recoloring gives the selected pin the next color, or the one before, and changes
/// nothing else of it and no other pin.
pub proof fn law_recoloring_changes_one_color(s: AppState, id: u64, forward: bool)
    requires
        s.wf(),
        s.selected == Some(id),
        s.note(id) is Some,
    ensures
        ({
            let t = s.cycle_note_color(forward);
            let n = s.note(id)->0;
            &&& t.selected == s.selected && t.camera == s.camera && t.active == s.active
            &&& boards_kept(s.boards, t.boards, s.active as int)
            &&& t.board().name == s.board().name
            &&& exists|at: int|
                {
                    &&& 0 <= at < s.notes().len() && s.notes()[at] == n
                    &&& #[trigger] pins_kept(s.notes(), t.notes(), at)
                    &&& t.notes()[at] == (NoteView { color: t.notes()[at].color, ..n })
                    &&& t.notes()[at].color != n.color
                    &&& t.notes()[at].color.stepped(!forward) == n.color
                    &&& forward ==> (t.notes()[at].color.rank() == n.color.rank() + 1
                        || n.color.rank() == 7 && t.notes()[at].color.rank() == 0)
                }
        }),
{
    reveal(AppState::cycle_note_color);
    reveal(Color::stepped);
    let t = s.cycle_note_color(forward);
    crate::app::lemma_find_from(s.notes(), id, 0);
    let at = find_from(s.notes(), id, 0)->0;
    crate::model::law_color_steps(s.notes()[at].color);
    assert(pins_kept(s.notes(), t.notes(), at));
}

/// Copying a note hands its whole text to the clipboard and changes nothing.
pub proof fn law_copying_hands_the_text_over(s: AppState, id: u64)
    requires
        s.selected == Some(id),
        s.note(id) is Some,
    ensures
        ({
            let t = s.yank_note();
            let n = s.note(id)->0;
            &&& n.body.len() == 0 ==> t.pending_copy == Some(n.title)
            &&& n.body.len() > 0 ==> t.pending_copy == Some(n.title + seq!['\n'] + n.body)
            &&& t == (AppState { pending_copy: t.pending_copy, status: t.status, ..s })
        }),
{
    reveal(AppState::yank_note);
    let n = s.note(id)->0;
    assert(n.title.push('\n') + n.body =~= n.title + seq!['\n'] + n.body);
}

// ---- stepping from pin to pin ----

/// How far a pin is ahead of another in a direction, and how far off to the side.
pub open spec fn ahead(step: Step, from: NoteView, to: NoteView) -> int {
    match step {
        Step::Left => from.x - to.x,
        Step::Right => to.x - from.x,
        Step::Up => from.y - to.y,
        Step::Down => to.y - from.y,
    }
}

pub open spec fn aside(step: Step, from: NoteView, to: NoteView) -> int {
    let d = match step {
        Step::Left => to.y - from.y,
        Step::Right => to.y - from.y,
        Step::Up => to.x - from.x,
        Step::Down => to.x - from.x,
    };
    if d < 0 {
        -d
    } else {
        d
    }
}

proof fn lemma_best_step(notes: Seq<NoteView>, current: NoteView, step: Step, n: int)
    requires
        0 <= n <= notes.len(),
    ensures
        match best_step(notes, current, step, n) {
            Some((cost, id)) => {
                &&& exists|i: int|
                    0 <= i < n && (#[trigger] notes[i]).id == id && id != current.id && ahead(
                        step,
                        current,
                        notes[i],
                    ) > 0 && cost == ahead(step, current, notes[i]) + 2 * aside(
                        step,
                        current,
                        notes[i],
                    )
                &&& forall|j: int|
                    0 <= j < n && (#[trigger] notes[j]).id != current.id && ahead(
                        step,
                        current,
                        notes[j],
                    ) > 0 ==> {
                        let other = ahead(step, current, notes[j]) + 2 * aside(
                            step,
                            current,
                            notes[j],
                        );
                        cost < other || cost == other && id <= notes[j].id
                    }
            },
            None => forall|j: int|
                0 <= j < n && (#[trigger] notes[j]).id != current.id ==> ahead(
                    step,
                    current,
                    notes[j],
                ) <= 0,
        },
    decreases n,
{
    if n > 0 {
        lemma_best_step(notes, current, step, n - 1);
        let last = notes[n - 1];
        let cost = step_cost(step, current.position(), last.position());
        if let Some((c, id)) = best_step(notes, current, step, n - 1) {
            let i = choose|i: int|
                0 <= i < n - 1 && (#[trigger] notes[i]).id == id && id != current.id && ahead(
                    step,
                    current,
                    notes[i],
                ) > 0 && c == ahead(step, current, notes[i]) + 2 * aside(step, current, notes[i]);
            assert(notes[i].id == id);
        }
        assert(last.id == notes[n - 1].id);
    }
}

/// A step goes to the pin ahead that is nearest, counting what it is off to the side
/// twice; between two as near, to the one made first. With no pin ahead the
/// selection stays, and nothing moves.
pub proof fn law_a_step_goes_to_the_nearest_pin_ahead(s: AppState, step: Step, id: u64)
    requires
        s.selected == Some(id),
        s.note(id) is Some,
    ensures
        ({
            let t = s.select_toward(step);
            let (notes, c) = (s.notes(), s.note(id)->0);
            &&& t.boards == s.boards && t.active == s.active && t.camera.zoom == s.camera.zoom
            &&& (forall|j: int|
                0 <= j < notes.len() && (#[trigger] notes[j]).id != id ==> ahead(step, c, notes[j])
                    <= 0) ==> t == s
            &&& t != s ==> exists|i: int|
                {
                    &&& 0 <= i < notes.len()
                    &&& t.selected == Some((#[trigger] notes[i]).id)
                    &&& notes[i].id != id
                    &&& ahead(step, c, notes[i]) > 0
                    &&& nearest_ahead(notes, c, step, i)
                }
            &&& (exists|j: int|
                0 <= j < notes.len() && (#[trigger] notes[j]).id != id && ahead(step, c, notes[j])
                    > 0) ==> t.selected != s.selected
        }),
{
    reveal(AppState::select_toward);
    reveal(AppState::bring_into_view);
    reveal(AppState::center_on_note);
    crate::app::lemma_find_from(s.notes(), id, 0);
    let (notes, c) = (s.notes(), s.note(id)->0);
    assert(c.id == id);
    lemma_best_step(notes, c, step, notes.len() as int);
    if let Some((cost, to)) = best_step(notes, c, step, notes.len() as int) {
        let i = choose|i: int|
            0 <= i < notes.len() && (#[trigger] notes[i]).id == to && to != c.id && ahead(
                step,
                c,
                notes[i],
            ) > 0 && cost == ahead(step, c, notes[i]) + 2 * aside(step, c, notes[i]);
        assert(nearest_ahead(notes, c, step, i));
        assert(s.select_toward(step).selected == Some(notes[i].id));
    }
}

/// No pin ahead is nearer than the one at `i`, or as near and made sooner.
pub open spec fn nearest_ahead(notes: Seq<NoteView>, c: NoteView, step: Step, i: int) -> bool {
    let cost = ahead(step, c, notes[i]) + 2 * aside(step, c, notes[i]);
    forall|j: int|
        0 <= j < notes.len() && (#[trigger] notes[j]).id != c.id && ahead(step, c, notes[j]) > 0 ==> {
            let other = ahead(step, c, notes[j]) + 2 * aside(step, c, notes[j]);
            cost < other || cost == other && notes[i].id <= notes[j].id
        }
}

proof fn lemma_nearest(notes: Seq<NoteView>, x: int, y: int, n: int)
    requires
        0 <= n <= notes.len(),
    ensures
        match nearest(notes, x, y, n) {
            Some((d, id)) => {
                &&& exists|i: int|
                    0 <= i < n && (#[trigger] notes[i]).id == id && d == distance2(notes[i], x, y)
                &&& forall|j: int|
                    0 <= j < n ==> d < distance2(#[trigger] notes[j], x, y) || d == distance2(
                        notes[j],
                        x,
                        y,
                    ) && id <= notes[j].id
            },
            None => n == 0,
        },
    decreases n,
{
    if n > 0 {
        lemma_nearest(notes, x, y, n - 1);
        if let Some((d, id)) = nearest(notes, x, y, n - 1) {
            let i = choose|i: int|
                0 <= i < n - 1 && (#[trigger] notes[i]).id == id && d == distance2(notes[i], x, y);
            assert(notes[i].id == id);
        }
        assert(notes[n - 1].id == notes[n - 1].id);
    }
}

/// How far a pin's middle is from the middle of the view, multiplied with itself.
pub open spec fn from_the_middle(s: AppState, n: NoteView) -> int {
    let dx = 2 * (n.x - s.camera.origin.x) + 200 * 7140 - span_x(s.viewport, s.camera.zoom);
    let dy = 2 * (n.y - s.camera.origin.y) + 150 * 7140 - span_y(s.viewport, s.camera.zoom);
    dx * dx + dy * dy
}

/// With nothing selected, a step in any direction selects the pin nearest the middle
/// of the view; between two as near, the one made first.
pub proof fn law_the_first_step_is_to_the_middle(s: AppState, step: Step)
    requires
        s.selected is None,
        s.notes().len() > 0,
    ensures
        ({
            let t = s.select_toward(step);
            let notes = s.notes();
            &&& t.boards == s.boards && t.active == s.active
            &&& exists|i: int|
                0 <= i < notes.len() && t.selected == Some((#[trigger] notes[i]).id) && nearest_middle(
                    s,
                    i,
                )
        }),
{
    reveal(AppState::select_toward);
    reveal(AppState::bring_into_view);
    reveal(AppState::center_on_note);
    let notes = s.notes();
    crate::camera::lemma_halves(s.viewport, s.camera.zoom);
    let x = s.camera.origin.x + crate::state::half_w(s.viewport, s.camera.zoom);
    let y = s.camera.origin.y + crate::state::half_h(s.viewport, s.camera.zoom);
    lemma_nearest(notes, x, y, notes.len() as int);
    let (d, id) = nearest(notes, x, y, notes.len() as int)->0;
    let i = choose|i: int|
        0 <= i < notes.len() && (#[trigger] notes[i]).id == id && d == distance2(notes[i], x, y);
    assert forall|j: int| 0 <= j < notes.len() implies from_the_middle(s, #[trigger] notes[j]) == 4
        * distance2(notes[j], x, y) by {
        let (a, b) = (notes[j].x + 714_000 - x, notes[j].y + 535_500 - y);
        assert((2 * a) * (2 * a) == 4 * (a * a)) by (nonlinear_arith);
        assert((2 * b) * (2 * b) == 4 * (b * b)) by (nonlinear_arith);
    }
    assert(nearest_middle(s, i));
    assert(s.select_toward(step).selected == Some(notes[i].id));
}

pub open spec fn nearest_middle(s: AppState, i: int) -> bool {
    forall|j: int|
        0 <= j < s.notes().len() ==> {
            ||| from_the_middle(s, s.notes()[i]) < from_the_middle(s, #[trigger] s.notes()[j])
            ||| from_the_middle(s, s.notes()[i]) == from_the_middle(s, s.notes()[j])
                && s.notes()[i].id <= s.notes()[j].id
        }
}

// ---- worlds ----

/// Going to another world shows that world and nothing of the one before: nothing is
/// selected or open, and the view centers itself anew. No board changes, when no pin
/// is in hand.
pub proof fn law_going_to_a_world(s: AppState, index: int)
    requires
        s.wf(),
        s.boards.len() <= usize::MAX,
        s.drag is None,
        0 <= index,
    ensures
        ({
            let t = s.switch_world(index);
            let n = s.boards.len() as int;
            &&& index < n ==> t.active == index
            &&& t.active == index % n
            &&& t.boards == s.boards
            &&& t.active == s.active ==> t == s
            &&& t.active != s.active ==> t.selected is None && t.editor is None && t.prompt is None
                && t.mode == Mode::Nav && !t.centered
            &&& t.camera.zoom == s.camera.zoom
        }),
{
    reveal(AppState::switch_world);
    reveal(AppState::let_go);
    if index < s.boards.len() {
        vstd::arithmetic::div_mod::lemma_small_mod(index as nat, s.boards.len());
    }
    vstd::arithmetic::div_mod::lemma_mod_bound(index, s.boards.len() as int);
}

/// Tab goes to the world after this one and shift-Tab to the one before, round the
/// ends; going forward and back again is back where it was.
pub proof fn law_tab_goes_round(s: AppState, tab: KeyEvent, back: KeyEvent)
    requires
        s.wf(),
        s.boards.len() <= usize::MAX,
        s.drag is None,
        !s.read_only,
        navigates(s, tab),
        tab.code == KeyCode::Tab,
        back.code == KeyCode::BackTab,
        navigates(s, back),
    ensures
        ({
            let n = s.boards.len() as int;
            let (t, u) = (s.on_key(tab), s.on_key(back));
            &&& t.boards == s.boards && u.boards == s.boards
            &&& s.active < n - 1 ==> t.active == s.active + 1
            &&& s.active == n - 1 ==> t.active == 0
            &&& s.active > 0 ==> u.active == s.active - 1
            &&& s.active == 0 ==> u.active == n - 1
        }),
{
    lemma_keeps_read_only(s, tab);
    lemma_navigates(s, tab);
    lemma_keeps_read_only(s, back);
    lemma_navigates(s, back);
    reveal(AppState::nav_key);
    let q = found_by_key(s);
    let n = s.boards.len() as int;
    law_going_to_a_world(q, s.active + 1);
    law_going_to_a_world(q, s.active + n - 1);
    if s.active == n - 1 {
        vstd::arithmetic::div_mod::lemma_mod_self_0(n);
    }
    if s.active > 0 {
        vstd::arithmetic::div_mod::lemma_mod_add_multiples_vanish(s.active - 1, n);
        vstd::arithmetic::div_mod::lemma_small_mod((s.active - 1) as nat, n as nat);
    }
}

/// A digit goes to the world of that number, where there is one.
pub proof fn law_a_digit_goes_to_its_world(s: AppState, c: char)
    requires
        s.wf(),
        s.boards.len() <= usize::MAX,
        s.drag is None,
        !s.read_only,
        '1' <= c <= '9',
        navigates(s, plain_key(c)),
        c as int - '1' as int <= s.boards.len() - 1,
    ensures
        s.on_key(plain_key(c)).active == c as int - '1' as int,
        s.on_key(plain_key(c)).boards == s.boards,
{
    lemma_keeps_read_only(s, plain_key(c));
    lemma_navigates(s, plain_key(c));
    reveal(AppState::nav_key);
    reveal(AppState::nav_char);
    law_going_to_a_world(found_by_key(s), c as int - '1' as int);
}

// ---- which key does what ----

/// The keys for pins: `d`, `x` and Delete delete the selected one, `c` and `C` recolor
/// it, `e` and Enter open it, and `y` copies it.
pub proof fn law_keys_for_pins(s: AppState, k: KeyEvent)
    requires
        navigates(s, k),
        !s.read_only,
    ensures
        ({
            let q = found_by_key(s);
            let t = s.on_key(k);
            &&& k.code == KeyCode::Char('d') || k.code == KeyCode::Char('x') || k.code
                == KeyCode::Delete ==> same_but_history(q.delete_selected(), t)
            &&& k.code == KeyCode::Char('c') ==> same_but_history(q.cycle_note_color(true), t)
            &&& k.code == KeyCode::Char('C') ==> same_but_history(q.cycle_note_color(false), t)
            &&& k.code == KeyCode::Char('e') || k.code == KeyCode::Enter ==> same_but_history(
                q.begin_edit(),
                t,
            )
            &&& k.code == KeyCode::Char('y') ==> same_but_history(q.yank_note(), t)
            &&& k.code == KeyCode::Esc ==> same_but_history(AppState { selected: None, ..q }, t)
        }),
{
    if !crate::laws::history_key(k) {
        lemma_keeps_read_only(s, k);
        lemma_navigates(s, k);
    }
    reveal(AppState::nav_key);
    reveal(AppState::nav_char);
}

/// The keys for the view: arrows pan by four cells the way they point; with shift, or
/// as `H`, `J`, `K` and `L`, they step between pins; `+` and `=` zoom in, `-` and `_`
/// out.
pub proof fn law_keys_for_the_view(s: AppState, k: KeyEvent)
    requires
        navigates(s, k),
        !s.read_only,
    ensures
        ({
            let q = found_by_key(s);
            let t = s.on_key(k);
            let shift = k.modifiers.shift;
            &&& k.code == KeyCode::Left && !shift ==> same_but_history(q.pan_cells(-4, 0), t)
            &&& k.code == KeyCode::Right && !shift ==> same_but_history(q.pan_cells(4, 0), t)
            &&& k.code == KeyCode::Up && !shift ==> same_but_history(q.pan_cells(0, -4), t)
            &&& k.code == KeyCode::Down && !shift ==> same_but_history(q.pan_cells(0, 4), t)
            &&& k.code == KeyCode::Left && shift || k.code == KeyCode::Char('H')
                ==> same_but_history(q.select_toward(Step::Left), t)
            &&& k.code == KeyCode::Right && shift || k.code == KeyCode::Char('L')
                ==> same_but_history(q.select_toward(Step::Right), t)
            &&& k.code == KeyCode::Up && shift || k.code == KeyCode::Char('K')
                ==> same_but_history(q.select_toward(Step::Up), t)
            &&& k.code == KeyCode::Down && shift || k.code == KeyCode::Char('J')
                ==> same_but_history(q.select_toward(Step::Down), t)
            &&& k.code == KeyCode::Char('+') || k.code == KeyCode::Char('=') ==> same_but_history(
                q.zoom_at_center(true),
                t,
            )
            &&& k.code == KeyCode::Char('-') || k.code == KeyCode::Char('_') ==> same_but_history(
                q.zoom_at_center(false),
                t,
            )
            &&& k.code == KeyCode::PageDown ==> same_but_history(q.page_selected(true), t)
            &&& k.code == KeyCode::PageUp ==> same_but_history(q.page_selected(false), t)
        }),
{
    if !crate::laws::history_key(k) {
        lemma_keeps_read_only(s, k);
        lemma_navigates(s, k);
    }
    reveal(AppState::nav_key);
    reveal(AppState::nav_char);
}

/// The keys for the rest: `t` and `T` change the theme, `w` asks for a new world and
/// `W` deletes this one, `?` shows the keys and `q` leaves.
pub proof fn law_keys_for_the_rest(s: AppState, k: KeyEvent)
    requires
        navigates(s, k),
        !s.read_only,
    ensures
        ({
            let q = found_by_key(s);
            let t = s.on_key(k);
            &&& k.code == KeyCode::Char('t') ==> same_but_history(q.cycle_theme(true), t)
            &&& k.code == KeyCode::Char('T') ==> same_but_history(q.cycle_theme(false), t)
            &&& k.code == KeyCode::Char('w') ==> same_but_history(q.begin_new_world(), t)
            &&& k.code == KeyCode::Char('W') ==> same_but_history(q.begin_delete_world(), t)
            &&& k.code == KeyCode::Char('?') ==> same_but_history(AppState { help: true, ..q }, t)
            &&& k.code == KeyCode::Char('q') ==> t.should_quit
        }),
{
    if !crate::laws::history_key(k) {
        lemma_keeps_read_only(s, k);
        lemma_navigates(s, k);
    }
    reveal(AppState::nav_key);
    reveal(AppState::nav_char);
    reveal(AppState::quit);
}

/// The list of keys comes up on F1 whatever is going on, and the next key only closes
/// it. Ctrl-C leaves, unless there is text selected to copy.
pub proof fn law_keys_that_mean_the_same_anywhere(s: AppState, k: KeyEvent)
    requires
        !s.read_only,
    ensures
        s.help ==> !s.on_key(k).help && s.on_key(k).boards == s.boards && s.on_key(k).camera
            == s.camera && s.on_key(k).mode == s.mode && s.on_key(k).should_quit == s.should_quit,
        !s.help && k.code == KeyCode::F(1) ==> s.on_key(k).help && s.on_key(k).boards == s.boards
            && s.on_key(k).mode == s.mode,
        !s.help && k.code == KeyCode::Char('c') && k.modifiers.control && !(s.mode == Mode::Edit
            && s.has_selection()) ==> s.on_key(k).should_quit,
{
    reveal(AppState::key);
    reveal(AppState::follow_caret);
    reveal(AppState::end_step);
    reveal(AppState::quit);
    crate::laws::lemma_quit_memory(AppState { status: None, ..s.begin_step() });
}

// ---- asking for a name ----

/// A name can be a world's when it is not empty, does not start with a dot, has no
/// slash of either kind in it, is at most 40 characters long, and is no other
/// world's.
pub proof fn law_which_names_a_world_can_have(s: AppState, name: Seq<char>)
    ensures
        s.create_error(name) is None <==> {
            &&& 0 < name.len() <= 40
            &&& name[0] != '.'
            &&& !name.contains('/') && !name.contains('\\')
            &&& forall|i: int| 0 <= i < s.boards.len() ==> (#[trigger] s.boards[i]).name != name
        },
{
    if named_world(s.boards, name) {
        let i = choose|i: int| 0 <= i < s.boards.len() && (#[trigger] s.boards[i]).name == name;
        assert(s.boards[i].name == name);
    } else {
        assert forall|i: int| 0 <= i < s.boards.len() implies (#[trigger] s.boards[i]).name
            != name by {}
    }
}

/// A name that can be a world's makes one: empty, after all the others, under the
/// name less the blanks around it. The world that is open stays open. A name that
/// cannot be one makes none, and says why.
pub proof fn law_a_name_makes_a_world(s: AppState, p: PromptView)
    requires
        s.prompt == Some(p),
        p.kind == PromptKind::NewWorld,
    ensures
        ({
            let t = s.confirm_prompt();
            let name = crate::text::trim(p.input);
            &&& s.create_error(name) is None ==> {
                &&& t.boards.len() == s.boards.len() + 1
                &&& forall|i: int| 0 <= i < s.boards.len() ==> #[trigger] t.boards[i] == s.boards[i]
                &&& t.boards.last().name == name && t.boards.last().notes.len() == 0
                &&& t.prompt is None && t.mode == Mode::Nav && t.active == s.active
                &&& t.pending_deletes == s.pending_deletes
            }
            &&& s.create_error(name) matches Some(why) ==> {
                &&& t.boards == s.boards && t.mode == s.mode
                &&& t.prompt matches Some(q) && q.error == Some(why) && q.input == p.input
            }
        }),
{
    reveal(AppState::confirm_prompt);
}

/// Typing a world's own name deletes it, with everything on it, and queues its
/// directory for removal; the worlds around it stay as they are, in order. Typing
/// anything else deletes nothing.
pub proof fn law_a_world_goes_by_its_name(s: AppState, p: PromptView)
    requires
        s.wf(),
        s.boards.len() > 1,
        s.prompt == Some(p),
        p.kind == PromptKind::DeleteWorld,
    ensures
        ({
            let t = s.confirm_prompt();
            let named = crate::text::trim(p.input) == s.board().name;
            &&& named ==> {
                &&& t.boards.len() == s.boards.len() - 1
                &&& forall|i: int| 0 <= i < s.active ==> #[trigger] t.boards[i] == s.boards[i]
                &&& forall|i: int|
                    s.active <= i < t.boards.len() ==> #[trigger] t.boards[i] == s.boards[i + 1]
                &&& t.pending_deletes == s.pending_deletes.push(s.board().name)
                &&& t.prompt is None && t.mode == Mode::Nav && t.selected is None
                &&& t.active < t.boards.len() && t.active <= s.active
                &&& s.active < s.boards.len() - 1 ==> t.active == s.active
            }
            &&& !named ==> t.boards == s.boards && t.pending_deletes == s.pending_deletes && t.mode
                == s.mode && t.prompt is Some
        }),
{
    reveal(AppState::confirm_prompt);
    reveal(AppState::delete_active_world);
}

/// What is typed is added to the end, up to 40 characters; Backspace takes the last
/// one back; and Esc forgets it all. Nothing is done before Enter.
pub proof fn law_typing_a_name(s: AppState, p: PromptView, k: KeyEvent)
    requires
        s.prompt == Some(p),
        !k.modifiers.control,
        !k.modifiers.alt,
    ensures
        ({
            let t = s.prompt_key(k);
            &&& k.code != KeyCode::Enter ==> t.boards == s.boards && t.pending_deletes
                == s.pending_deletes && t.active == s.active
            &&& k.code matches KeyCode::Char(c) ==> (t.prompt matches Some(q) && q.kind == p.kind
                && q.error is None && q.input == (if p.input.len() < 40 {
                p.input.push(c)
            } else {
                p.input
            }) && t.mode == s.mode)
            &&& k.code == KeyCode::Backspace && p.input.len() > 0 ==> (t.prompt matches Some(q)
                && q.input == p.input.drop_last() && q.kind == p.kind)
            &&& k.code == KeyCode::Esc ==> t.prompt is None && t.mode == Mode::Nav
            &&& k.code == KeyCode::Enter ==> t == s.confirm_prompt()
        }),
{
    reveal(AppState::prompt_key);
}

/// A world with pins on it is asked about before it is deleted; an empty one goes at
/// once.
pub proof fn law_asking_before_deleting(s: AppState)
    requires
        s.wf(),
        s.boards.len() > 1,
        !s.read_only,
    ensures
        s.notes().len() > 0 ==> s.begin_delete_world().boards == s.boards && (
        s.begin_delete_world().prompt matches Some(p) && p.kind == PromptKind::DeleteWorld
            && p.input.len() == 0) && s.begin_delete_world().mode == Mode::Prompt,
        s.notes().len() == 0 ==> s.begin_delete_world().boards == s.boards.remove(s.active as int)
            && s.begin_delete_world().pending_deletes == s.pending_deletes.push(s.board().name),
{
    reveal(AppState::begin_delete_world);
    reveal(AppState::delete_active_world);
}

// ---- tabs ----

/// A column of the strip belongs to the tab that covers it: each world's tab starts
/// where the one before it ends, so what is pointed at is what is drawn there.
pub proof fn law_a_tab_is_hit_where_it_is(s: AppState, i: int, col: u16, row: u16)
    requires
        s.tabs.holds(col, row),
        0 <= i < s.boards.len(),
        crate::state::strip_end(s.boards, s.boards.len() as int) + 3 <= u16::MAX,
        s.tabs.x + crate::state::strip_end(s.boards, i) <= col < s.tabs.x + crate::state::strip_end(
            s.boards,
            i + 1,
        ),
        s.boards.len() <= usize::MAX,
    ensures
        s.world_at_point(col, row) == Some(i as usize),
{
    lemma_hit(s.boards, s.active, col - s.tabs.x, 0, i);
}

proof fn lemma_hit(boards: Seq<BoardView>, active: usize, offset: int, from: int, i: int)
    requires
        0 <= from <= i < boards.len() <= usize::MAX,
        crate::state::strip_end(boards, boards.len() as int) + 3 <= u16::MAX,
        crate::state::strip_end(boards, i) <= offset < crate::state::strip_end(boards, i + 1),
    ensures
        crate::state::tab_covering(crate::state::tabs_of(boards, active), offset, from) == Some(
            crate::state::world_tab(boards, active, i).kind,
        ),
    decreases i - from,
{
    let tabs = crate::state::tabs_of(boards, active);
    crate::laws::lemma_strip_fits(boards, from);
    crate::laws::lemma_strip_fits(boards, from + 1);
    crate::app::lemma_strip_grows(boards, from + 1, i + 1);
    assert(tabs[from] == crate::state::world_tab(boards, active, from));
    if from < i {
        crate::app::lemma_strip_grows(boards, from + 1, i);
        lemma_hit(boards, active, offset, from + 1, i);
    }
}

/// A page further down begins with the last row in view before it, and a page further
/// up ends with the first; at either end of the text it stops. Nothing else changes.
pub proof fn law_a_page_keeps_one_row_in_view(s: AppState, id: u64, height: int, rows: int)
    requires
        s.selected == Some(id),
        s.text_extent(id) == Some((height, rows)),
        height > 2,
        rows <= usize::MAX,
    ensures
        ({
            let from = s.scroll_of(id);
            let down = s.page_selected(true);
            let up = s.page_selected(false);
            &&& down == (AppState { scroll: down.scroll, ..s })
            &&& up == (AppState { scroll: up.scroll, ..s })
            &&& forall|other: u64|
                other != id ==> #[trigger] down.scroll_of(other) == s.scroll_of(other)
            &&& forall|other: u64| other != id ==> #[trigger] up.scroll_of(other) == s.scroll_of(other)
            &&& from + height - 1 <= rows - height ==> down.scroll_of(id) == from + height - 1
            &&& from + height - 1 > rows - height && rows > height ==> down.scroll_of(id) == rows
                - height
            &&& from >= height - 1 ==> up.scroll_of(id) + height - 1 == from
            &&& from < height - 1 ==> up.scroll_of(id) == 0
        }),
{
    reveal(AppState::page_selected);
}

} // verus!

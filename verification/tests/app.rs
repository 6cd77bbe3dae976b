//! The board state machine, driven the way a terminal drives it.

use pinz::app::{App, TabKind};
use pinz::editor::{Cursor, TextEditor};
use pinz::geometry::{WorldPoint, ZoomLevel, GRAIN};
use pinz::input::{KeyCode, KeyEvent, KeyModifiers, MouseButton, MouseEvent, MouseEventKind};
use pinz::model::{Board, Color, Note, CASCADE_X, CASCADE_Y, NOTE_H, NOTE_W};
use pinz::state::{Mode, GLIDE, MAX_WORLDS, UNDO_DEPTH};
use pinz::store::{MemoryStore, Store};
use pinz::theme::{theme_at, THEME_COUNT};
use pinz::view::{Rect, View, CELL_PARTS};

const NONE: KeyModifiers = KeyModifiers { shift: false, control: false, alt: false, sup: false };
const SHIFT: KeyModifiers = KeyModifiers { shift: true, control: false, alt: false, sup: false };
const CONTROL: KeyModifiers = KeyModifiers { shift: false, control: true, alt: false, sup: false };
const ALT: KeyModifiers = KeyModifiers { shift: false, control: false, alt: true, sup: false };
const SUPER: KeyModifiers = KeyModifiers { shift: false, control: false, alt: false, sup: true };
const ALT_SHIFT: KeyModifiers = KeyModifiers { shift: true, control: false, alt: true, sup: false };
const SUPER_SHIFT: KeyModifiers = KeyModifiers { shift: true, control: false, alt: false, sup: true };

/// Rows one notch of the wheel moves a note's text.
const WHEEL_ROWS: usize = 3;

/// A distance in world units, in the grains the board counts in.
fn grains(units: f64) -> i128 {
    (units * GRAIN as f64).round() as i128
}

/// A place counted in parts of a cell, in cells.
fn in_cells(parts: (i128, i128)) -> (f64, f64) {
    (parts.0 as f64 / CELL_PARTS as f64, parts.1 as f64 / CELL_PARTS as f64)
}

fn key(code: KeyCode) -> KeyEvent {
    KeyEvent {
        code,
        modifiers: NONE,
    }
}

/// Pins at known world positions, for the spatial tests. A cross around the
/// origin plus one decoy far to the right and well below, which is nearer
/// on the x axis than the pin due right but badly off it.
const PINS: &[(f64, f64)] = &[
    (0.0, 0.0),      // 1, the middle
    (1200.0, 0.0),   // 2, due right
    (0.0, 900.0),    // 3, due down
    (-900.0, 0.0),   // 4, due left
    (0.0, -900.0),   // 5, due up
    (1800.0, 700.0), // 6, the decoy
];

fn app_with_pins(positions: &[(f64, f64)]) -> App {
    let mut board = Board::new("spatial");
    for (i, (x, y)) in positions.iter().enumerate() {
        board.notes.push(Note {
            id: i as u64 + 1,
            title: format!("pin {}", i + 1),
            body: String::new(),
            x: grains(*x),
            y: grains(*y),
            z: i as u32 + 1,
            color: Color::Yellow,
        });
    }
    let mut a = App::new(vec![board]);
    a.set_viewport(VIEWPORT);
    a
}

const VIEWPORT: Rect = Rect {
    x: 0,
    y: 2,
    width: 100,
    height: 30,
};

/// Where a pin's centre lands on screen, in cells from the viewport corner.
fn pin_cell(a: &App, id: u64) -> (f64, f64) {
    let n = a
        .active_board()
        .notes
        .iter()
        .find(|n| n.id == id)
        .expect("pin");
    in_cells(View::new(a.camera(), VIEWPORT).cell_of(WorldPoint {
        x: n.x + NOTE_W / 2,
        y: n.y + NOTE_H / 2,
    }))
}

fn shift(code: KeyCode) -> KeyEvent {
    chord(code, SHIFT)
}

#[test]
fn the_first_step_takes_the_pin_nearest_the_view() {
    let mut a = app_with_pins(PINS);
    assert!(a.selected().is_none());
    a.on_key(shift(KeyCode::Right));
    assert_eq!(a.selected(), Some(1), "the middle pin is the closest one");
}

#[test]
fn shift_arrows_step_to_the_nearest_pin_that_way() {
    let mut a = app_with_pins(PINS);
    a.on_key(shift(KeyCode::Right)); // onto pin 1
    for (code, want, why) in [
        (KeyCode::Right, 2, "the decoy is nearer on x but far off the axis"),
        (KeyCode::Left, 1, "and back"),
        (KeyCode::Down, 3, "straight down beats the decoy"),
        (KeyCode::Up, 1, "and back again"),
        (KeyCode::Left, 4, "due left"),
        (KeyCode::Right, 1, "returns"),
        (KeyCode::Up, 5, "due up"),
    ] {
        a.on_key(shift(code));
        assert_eq!(a.selected(), Some(want), "{why}");
    }
}

#[test]
fn shift_hjkl_steps_the_same_way_as_the_arrows() {
    let mut a = app_with_pins(PINS);
    a.on_key(shift(KeyCode::Char('L'))); // onto pin 1
    a.on_key(shift(KeyCode::Char('L')));
    assert_eq!(a.selected(), Some(2), "l goes right");
    a.on_key(shift(KeyCode::Char('H')));
    assert_eq!(a.selected(), Some(1), "h goes left");
    a.on_key(shift(KeyCode::Char('J')));
    assert_eq!(a.selected(), Some(3), "j goes down");
    a.on_key(shift(KeyCode::Char('K')));
    assert_eq!(a.selected(), Some(1), "k goes up");
}

#[test]
fn stepping_past_the_last_pin_stays_put() {
    let mut a = app_with_pins(PINS);
    a.on_key(shift(KeyCode::Right)); // pin 1
    a.on_key(shift(KeyCode::Left)); // pin 4, the leftmost
    assert_eq!(a.selected(), Some(4));
    a.on_key(shift(KeyCode::Left));
    assert_eq!(a.selected(), Some(4), "no wrap-around off the edge");
}

#[test]
fn the_camera_moves_only_for_a_pin_it_cannot_show() {
    let mut a = app_with_pins(PINS);
    let still = a.camera().origin;
    a.on_key(shift(KeyCode::Right)); // pin 1, already on screen
    assert_eq!(
        a.camera().origin,
        still,
        "a visible pin must not lurch the board"
    );

    a.on_key(shift(KeyCode::Right)); // pin 2, off to the right
    a.tick(GLIDE); // it travels rather than jumping; let it arrive
    assert_ne!(a.camera().origin, still, "an off-screen pin must be fetched");
    let (cx, cy) = pin_cell(&a, 2);
    assert!(
        cx > 0.0 && cx < VIEWPORT.width as f64,
        "pin 2 still off screen at {cx}"
    );
    assert!(cy > 0.0 && cy < VIEWPORT.height as f64, "off vertically: {cy}");
}

#[test]
fn stepping_onto_a_pin_names_it() {
    // At cluster zoom no title is drawn, so this is the only thing telling
    // you which pin you just landed on.
    let mut a = app_with_pins(PINS);
    a.on_key(shift(KeyCode::Right));
    a.on_key(shift(KeyCode::Right));
    assert!(
        a.status().is_some_and(|s| s.contains("pin 2")),
        "got {:?}",
        a.status()
    );
}

// ---- camera glide ----

#[test]
fn a_step_to_an_off_screen_pin_glides_rather_than_jumping() {
    let mut a = app_with_pins(PINS);
    a.on_key(shift(KeyCode::Right)); // pin 1, already on screen
    let before = a.camera().origin;

    a.on_key(shift(KeyCode::Right)); // pin 2, off to the right
    assert!(a.animating(), "an off-screen pin starts a glide");
    assert_eq!(a.camera().origin, before, "the board has not moved yet");

    a.tick(GLIDE);
    assert!(!a.animating(), "and the glide finishes");
    let (cx, _) = pin_cell(&a, 2);
    assert!(
        cx > 0.0 && cx < VIEWPORT.width as f64,
        "pin 2 never arrived: {cx}"
    );
}

#[test]
fn half_a_glide_is_partway_there() {
    // Otherwise a "glide" that snapped straight to the end would pass any
    // test that only checked where it finished.
    let mut a = app_with_pins(PINS);
    a.on_key(shift(KeyCode::Right));
    let from = a.camera().origin;
    a.on_key(shift(KeyCode::Right));

    a.tick(GLIDE / 2);
    let mid = a.camera().origin;
    a.tick(GLIDE);
    let to = a.camera().origin;
    assert!(
        mid.x > from.x && mid.x < to.x,
        "not between: {} .. {} .. {}",
        from.x,
        mid.x,
        to.x
    );
}

#[test]
fn a_step_mid_glide_carries_on_from_what_is_on_screen() {
    let mut a = app_with_pins(PINS);
    a.on_key(shift(KeyCode::Right)); // pin 1
    a.on_key(shift(KeyCode::Right)); // pin 2, glide starts
    a.tick(GLIDE / 2);
    let shown = a.camera().origin;

    a.on_key(shift(KeyCode::Left)); // back to pin 1, mid-flight
    assert!(a.animating(), "still travelling");
    assert_eq!(
        a.camera().origin,
        shown,
        "a retarget must not lurch back to where the last one began"
    );
}

#[test]
fn a_pin_fetched_from_off_screen_lands_in_the_middle() {
    // Scrolling the least that made a pin fit put it flush against the edge
    // it came in from, so where a pin ended up depended on which way you
    // approached it - and it was never the middle.
    let mut a = app_with_pins(PINS);
    for _ in 0..3 {
        a.on_key(key(KeyCode::Char('+'))); // document zoom, so pins do not all fit
    }
    a.on_key(shift(KeyCode::Right)); // land on pin 1
    a.tick(GLIDE);

    let (mid_x, mid_y) = (VIEWPORT.width as f64 / 2.0, VIEWPORT.height as f64 / 2.0);
    for (step, from) in [
        (KeyCode::Right, "the left"),
        (KeyCode::Left, "the right"),
        (KeyCode::Down, "above"),
        (KeyCode::Up, "below"),
    ] {
        a.on_key(shift(step));
        a.tick(GLIDE);
        let id = a.selected().unwrap();
        let (cx, cy) = pin_cell(&a, id);
        assert!(
            (cx - mid_x).abs() < 1.0,
            "pin {id} approached from {from} landed at x={cx}, wanted {mid_x}"
        );
        assert!(
            (cy - mid_y).abs() < 1.0,
            "pin {id} approached from {from} landed at y={cy}, wanted {mid_y}"
        );
    }
}

#[test]
fn a_glide_writes_no_pins() {
    // The runner saves when `revision` moves. An animation that bumped it
    // would rewrite every pin file at frame rate.
    let mut a = app_with_pins(PINS);
    a.on_key(shift(KeyCode::Right));
    a.on_key(shift(KeyCode::Right));
    let rev = a.revision();
    a.tick(GLIDE / 2);
    a.tick(GLIDE);
    assert_eq!(a.revision(), rev);
}

#[test]
fn a_manipulation_cuts_and_cancels_a_glide() {
    // Your hand is on these, so anything but 1:1 reads as lag.
    let arrow_pan = |a: &mut App| a.on_key(key(KeyCode::Right));
    let zoom = |a: &mut App| a.on_key(key(KeyCode::Char('+')));
    let drag = |a: &mut App| {
        a.on_mouse(mouse_down(5, 5)); // empty board, above every pin
        a.on_mouse(mouse_drag(20, 5));
    };
    for (act, what) in [
        (&arrow_pan as &dyn Fn(&mut App), "an arrow pan"),
        (&zoom, "a zoom"),
        (&drag, "a drag"),
    ] {
        let mut a = app_with_pins(PINS);
        a.on_key(shift(KeyCode::Right));
        a.on_key(shift(KeyCode::Right));
        assert!(a.animating(), "setup: a glide should be in flight");
        act(&mut a);
        assert!(!a.animating(), "{what} must cut, not glide");
    }
}

#[test]
fn e_centres_the_pin_it_opens() {
    let mut a = app_with_pins(PINS);
    a.on_key(shift(KeyCode::Right)); // pin 1
    a.on_key(key(KeyCode::Char('e')));
    a.tick(GLIDE); // e glides there like any other jump
    assert_eq!(a.zoom(), ZoomLevel::Document);
    let (cx, cy) = pin_cell(&a, 1);
    let (want_x, want_y) = (VIEWPORT.width as f64 / 2.0, VIEWPORT.height as f64 / 2.0);
    assert!((cx - want_x).abs() < 1.0, "off centre horizontally: {cx}");
    assert!((cy - want_y).abs() < 1.0, "off centre vertically: {cy}");
}

#[test]
fn zooming_with_a_pin_selected_centres_it() {
    let mut a = app_with_pins(PINS);
    a.on_key(shift(KeyCode::Right)); // pin 1
    a.tick(GLIDE);
    for _ in 0..6 {
        a.on_key(key(KeyCode::Right)); // shove it well off centre
    }
    let (before, _) = pin_cell(&a, 1);
    assert!(before < 20.0, "setup: the pin should be off centre, at {before}");

    a.on_key(key(KeyCode::Char('+')));
    let (cx, cy) = pin_cell(&a, 1);
    let (want_x, want_y) = (VIEWPORT.width as f64 / 2.0, VIEWPORT.height as f64 / 2.0);
    assert!((cx - want_x).abs() < 1.0, "off centre horizontally: {cx}");
    assert!((cy - want_y).abs() < 1.0, "off centre vertically: {cy}");
}

#[test]
fn zooming_out_keeps_the_selected_pin_centred() {
    let mut a = app_with_pins(PINS);
    a.on_key(shift(KeyCode::Right)); // pin 1
    a.tick(GLIDE);
    for _ in 0..6 {
        a.on_key(key(KeyCode::Down));
    }
    a.on_key(key(KeyCode::Char('-')));
    let (cx, cy) = pin_cell(&a, 1);
    let (want_x, want_y) = (VIEWPORT.width as f64 / 2.0, VIEWPORT.height as f64 / 2.0);
    assert!((cx - want_x).abs() < 1.0, "off centre horizontally: {cx}");
    assert!((cy - want_y).abs() < 1.0, "off centre vertically: {cy}");
}

#[test]
fn zooming_with_nothing_selected_holds_the_middle_of_the_view() {
    let mut a = app_with_pins(PINS);
    for _ in 0..6 {
        a.on_key(key(KeyCode::Right));
    }
    assert!(a.selected().is_none());
    let (col, row) = (VIEWPORT.x + VIEWPORT.width / 2, VIEWPORT.y + VIEWPORT.height / 2);
    let before = View::new(a.camera(), VIEWPORT).world_at(col, row);
    a.on_key(key(KeyCode::Char('+')));
    let after = View::new(a.camera(), VIEWPORT).world_at(col, row);
    assert!((after.x - before.x).abs() < GRAIN, "the focal point moved: {after:?}");
    assert!((after.y - before.y).abs() < GRAIN, "the focal point moved: {after:?}");
}

/// A board list already at the world limit, for testing the cap.
fn filled_to_the_limit() -> App {
    let mut a = app();
    for n in a.boards().len()..MAX_WORLDS {
        a.on_key(key(KeyCode::Char('w')));
        for c in format!("world{n}").chars() {
            a.on_key(key(KeyCode::Char(c)));
        }
        a.on_key(key(KeyCode::Enter));
    }
    a
}

fn app() -> App {
    let mut store = MemoryStore::seeded();
    let mut app = App::new(store.load().unwrap());
    // Give it a viewport so spatial math has something to work with.
    app.set_viewport(Rect {
        x: 0,
        y: 2,
        width: 100,
        height: 30,
    });
    app
}

#[test]
fn starts_on_first_board_at_titles() {
    let app = app();
    assert_eq!(app.active_index(), 0);
    assert_eq!(app.zoom(), ZoomLevel::Titles);
    assert!(app.selected().is_none());
}

#[test]
fn q_quits_and_ctrl_c_quits() {
    let mut a = app();
    a.on_key(key(KeyCode::Char('q')));
    assert!(a.should_quit());

    let mut b = app();
    b.on_key(KeyEvent {
        code: KeyCode::Char('c'),
        modifiers: CONTROL,
    });
    assert!(b.should_quit());
}

#[test]
fn question_mark_opens_the_key_list_and_any_key_closes_it() {
    let mut a = app();
    a.on_key(key(KeyCode::Char('?')));
    assert!(a.help(), "? opens the key list");

    let before = a.boards().to_vec();
    a.on_key(key(KeyCode::Char('n')));
    assert!(!a.help(), "any key closes it");
    assert_eq!(
        a.boards(),
        before.as_slice(),
        "and that key does nothing else"
    );
}

#[test]
fn f1_opens_the_key_list_without_disturbing_the_note() {
    let mut a = app();
    a.on_key(key(KeyCode::Char('n')));
    for c in "hi".chars() {
        a.on_key(key(KeyCode::Char(c)));
    }
    a.on_key(key(KeyCode::F(1)));
    assert!(a.help(), "f1 reaches the list from inside a note");

    a.on_key(key(KeyCode::Esc));
    assert!(!a.help());
    assert_eq!(a.mode(), Mode::Edit, "back in the note you were writing");
    assert_eq!(
        a.editor().unwrap().text(),
        "new notehi",
        "with the text untouched"
    );
}

#[test]
fn a_question_mark_while_editing_is_just_a_character() {
    let mut a = app();
    a.on_key(key(KeyCode::Char('n')));
    a.on_key(key(KeyCode::Char('?')));
    assert!(!a.help());
    assert_eq!(a.editor().unwrap().text(), "new note?");
}

#[test]
fn the_mouse_does_nothing_while_the_key_list_is_up() {
    let mut a = app();
    a.on_key(key(KeyCode::Char('?')));
    let before = a.boards().to_vec();
    a.on_mouse(mouse_down(10, 10));
    assert!(a.help(), "a click is not a way out either");
    assert_eq!(a.boards(), before.as_slice());
}

#[test]
fn zoom_in_and_out_clamps_at_the_ends() {
    let mut a = app();
    for _ in 0..10 {
        a.on_key(key(KeyCode::Char('+')));
    }
    assert_eq!(a.zoom(), ZoomLevel::Document);
    for _ in 0..10 {
        a.on_key(key(KeyCode::Char('-')));
    }
    assert_eq!(a.zoom(), ZoomLevel::Cluster);
}

#[test]
fn tab_cycles_worlds_and_numbers_jump() {
    let mut a = app();
    a.on_key(key(KeyCode::Tab));
    assert_eq!(a.active_index(), 1);
    a.on_key(key(KeyCode::Char('1')));
    assert_eq!(a.active_index(), 0);
    a.on_key(key(KeyCode::Char('3')));
    assert_eq!(a.active_index(), 2);
}

#[test]
fn new_note_adds_selects_and_enters_edit() {
    let mut a = app();
    let before = a.active_board().notes.len();
    a.on_key(key(KeyCode::Char('n')));
    assert_eq!(a.active_board().notes.len(), before + 1);
    assert!(a.selected().is_some());
    assert_eq!(a.mode(), Mode::Edit);
    assert_eq!(a.zoom(), ZoomLevel::Document);
}

/// Two pins closer than one cascade step on *both* axes hide each other,
/// and become the same pin outright once positions round on the way to
/// disk. No board may ever hold such a pair.
fn assert_nothing_is_stacked(board: &Board) {
    for (i, a) in board.notes.iter().enumerate() {
        for b in &board.notes[i + 1..] {
            assert!(
                (a.x - b.x).abs() >= CASCADE_X || (a.y - b.y).abs() >= CASCADE_Y,
                "{:?} and {:?} are stacked at ({}, {}) and ({}, {})",
                a.title,
                b.title,
                a.x,
                a.y,
                b.x,
                b.y
            );
        }
    }
}

#[test]
fn two_fresh_notes_do_not_land_on_the_same_spot() {
    let mut a = app();
    a.on_key(key(KeyCode::Char('n')));
    a.on_key(key(KeyCode::Esc));
    a.on_key(key(KeyCode::Char('n')));
    a.on_key(key(KeyCode::Esc));
    assert_nothing_is_stacked(a.active_board());
}

#[test]
fn a_pin_dropped_on_another_settles_clear_of_it() {
    let mut a = app();
    let target = a.active_board().notes[1].clone();
    let (tc, tr) = cell_of_note(&a, target.id);
    let id = drag_first_pin_to(&mut a, tc, tr);
    a.on_mouse(mouse_up(tc, tr));

    assert_ne!(id, target.id, "the drag must grab a different pin");
    assert_nothing_is_stacked(a.active_board());
}

#[test]
fn typing_then_esc_saves_the_title() {
    let mut a = app();
    a.on_key(key(KeyCode::Char('n'))); // edit, editor holds "new note"
    for c in "hi".chars() {
        a.on_key(key(KeyCode::Char(c)));
    }
    a.on_key(key(KeyCode::Esc)); // esc saves
    assert_eq!(a.mode(), Mode::Nav);
    let id = a.selected().unwrap();
    let note = a.active_board().notes.iter().find(|n| n.id == id).unwrap();
    assert_eq!(note.title, "new notehi");
    assert_eq!(note.body, "");
}

#[test]
fn quitting_mid_edit_saves_the_note() {
    let mut a = app();
    a.on_key(key(KeyCode::Char('n'))); // edit, editor holds "new note"
    a.on_key(key(KeyCode::Enter));
    for c in "body".chars() {
        a.on_key(key(KeyCode::Char(c)));
    }
    a.on_key(chord(KeyCode::Char('c'), CONTROL)); // the only way out of edit
    assert!(a.should_quit());
    let id = a.selected().unwrap();
    let note = a.active_board().notes.iter().find(|n| n.id == id).unwrap();
    assert_eq!(note.title, "new note");
    assert_eq!(note.body, "body", "quitting must not drop the open edit");
}

#[test]
fn enter_inserts_a_newline_rather_than_committing() {
    let mut a = app();
    a.on_key(key(KeyCode::Char('n')));
    a.on_key(key(KeyCode::Enter)); // a newline, not a save
    assert_eq!(a.mode(), Mode::Edit, "enter keeps editing");
    assert!(a.selected().is_some());
}

#[test]
fn t_cycles_themes_forward_and_wraps() {
    let mut a = app();
    let first = a.theme().name;
    a.on_key(key(KeyCode::Char('t')));
    assert_ne!(a.theme().name, first, "cycling should change the theme");
    // Walk all the way around; it must land back on the first.
    for _ in 1..THEME_COUNT {
        a.on_key(key(KeyCode::Char('t')));
    }
    assert_eq!(a.theme().name, first, "cycling should wrap");
}

#[test]
fn shift_t_cycles_backward() {
    let mut a = app();
    let first = a.theme().name;
    a.on_key(key(KeyCode::Char('T')));
    // One step back from the first theme is the last theme.
    assert_eq!(a.theme().name, theme_at(THEME_COUNT - 1).name);
    a.on_key(key(KeyCode::Char('t')));
    assert_eq!(a.theme().name, first);
}

#[test]
fn set_theme_by_name_matches_loosely() {
    let mut a = app();
    assert!(a.set_theme_by_name("gruvbox"));
    assert_eq!(a.theme().name, "Gruvbox");
    assert!(!a.set_theme_by_name("nonesuch"));
    assert_eq!(a.theme().name, "Gruvbox", "a miss leaves the theme alone");
}

#[test]
fn editing_splits_first_line_as_title_rest_as_body() {
    let mut a = app();
    a.on_key(key(KeyCode::Char('n'))); // edit, editor holds "new note"
    assert_eq!(a.zoom(), ZoomLevel::Document, "edit forces document zoom");
    a.on_key(key(KeyCode::Enter)); // newline -> start the body
    for c in "line1".chars() {
        a.on_key(key(KeyCode::Char(c)));
    }
    a.on_key(key(KeyCode::Enter));
    for c in "line2".chars() {
        a.on_key(key(KeyCode::Char(c)));
    }
    a.on_key(key(KeyCode::Esc)); // save
    assert_eq!(a.mode(), Mode::Nav);
    let id = a.selected().unwrap();
    let note = a.active_board().notes.iter().find(|n| n.id == id).unwrap();
    assert_eq!(note.title, "new note");
    assert_eq!(note.body, "line1\nline2");
    assert!(a.editor().is_none(), "editor is cleared after saving");
}

#[test]
fn edit_does_nothing_without_a_selection() {
    let mut a = app();
    a.selected = None;
    a.on_key(key(KeyCode::Char('e')));
    assert_eq!(a.mode(), Mode::Nav);
    assert!(a.editor().is_none());
}

#[test]
fn c_cycles_the_selected_notes_color_both_ways() {
    let mut a = app();
    a.on_key(key(KeyCode::Char('n')));
    a.on_key(key(KeyCode::Esc)); // save, still selected in Nav
    let id = a.selected().unwrap();
    let color_of = |a: &App| {
        a.active_board()
            .notes
            .iter()
            .find(|n| n.id == id)
            .unwrap()
            .color
    };
    let before = color_of(&a);
    a.on_key(key(KeyCode::Char('c')));
    assert_ne!(color_of(&a), before, "c should change the color");
    a.on_key(key(KeyCode::Char('C')));
    assert_eq!(color_of(&a), before, "C should step back");
}

#[test]
fn ctrl_backspace_deletes_a_word_while_editing() {
    let mut a = app();
    a.on_key(key(KeyCode::Char('n'))); // edit, editor holds "new note"
    a.on_key(KeyEvent {
        code: KeyCode::Backspace,
        modifiers: CONTROL,
    });
    a.on_key(key(KeyCode::Esc));
    let id = a.selected().unwrap();
    let note = a.active_board().notes.iter().find(|n| n.id == id).unwrap();
    assert_eq!(note.title, "new ");
}

#[test]
fn alt_arrows_move_by_word_instead_of_typing_letters() {
    let alt = |code| KeyEvent {
        code,
        modifiers: ALT,
    };
    // Both spellings of Option+arrow a terminal may send, plus an unbound
    // Alt chord - none of them may reach the buffer as text.
    for code in [
        KeyCode::Left,
        KeyCode::Right,
        KeyCode::Char('b'),
        KeyCode::Char('f'),
        KeyCode::Char('z'),
    ] {
        let mut a = app();
        a.on_key(key(KeyCode::Char('n'))); // edit, editor holds "new note"
        a.on_key(alt(code));
        a.on_key(key(KeyCode::Esc));
        let id = a.selected().unwrap();
        let note = a.active_board().notes.iter().find(|n| n.id == id).unwrap();
        assert_eq!(note.title, "new note", "{code:?} typed into the note");
    }

    // And the bound ones actually move: alt+left lands before "note", so
    // typing there splits the title.
    let mut a = app();
    a.on_key(key(KeyCode::Char('n')));
    a.on_key(alt(KeyCode::Left));
    a.on_key(key(KeyCode::Char('X')));
    a.on_key(key(KeyCode::Esc));
    let id = a.selected().unwrap();
    let note = a.active_board().notes.iter().find(|n| n.id == id).unwrap();
    assert_eq!(note.title, "new Xnote");
}

#[test]
fn the_revision_tracks_changes_worth_saving() {
    let mut a = app();
    let start = a.revision();

    // Looking around changes nothing on disk.
    a.on_key(key(KeyCode::Char('+')));
    a.on_key(key(KeyCode::Tab));
    a.on_key(key(KeyCode::Right));
    assert_eq!(a.revision(), start, "panning and zooming are not changes");

    a.on_key(key(KeyCode::Char('n'))); // new note
    let after_new = a.revision();
    assert!(after_new > start, "creating a pin is a change");

    for c in "hi".chars() {
        a.on_key(key(KeyCode::Char(c)));
    }
    a.on_key(key(KeyCode::Esc)); // save the edit
    let after_edit = a.revision();
    assert!(after_edit > after_new, "editing a pin is a change");

    a.on_key(key(KeyCode::Char('c'))); // recolor
    assert!(a.revision() > after_edit, "recoloring is a change");

    let before_delete = a.revision();
    a.on_key(key(KeyCode::Char('d')));
    assert!(a.revision() > before_delete, "deleting a pin is a change");
}

#[test]
fn w_opens_the_new_world_prompt_and_esc_backs_out() {
    let mut a = app();
    let before = a.boards().len();
    a.on_key(key(KeyCode::Char('w')));
    assert_eq!(a.mode(), Mode::Prompt);
    assert!(a.prompt().is_some());

    for c in "wavez".chars() {
        a.on_key(key(KeyCode::Char(c)));
    }
    assert_eq!(a.prompt().unwrap().input, "wavez");

    a.on_key(key(KeyCode::Esc));
    assert_eq!(a.mode(), Mode::Nav, "esc backs out");
    assert!(a.prompt().is_none());
    assert_eq!(a.boards().len(), before, "nothing was created");
}

#[test]
fn confirming_the_prompt_creates_the_world_without_leaving_this_one() {
    let mut a = app();
    // A note, selected, so there is something to be disturbed.
    a.on_key(key(KeyCode::Char('n')));
    a.on_key(key(KeyCode::Esc));
    let (here, selected, before) = (a.active_index(), a.selected(), a.boards().len());

    a.on_key(key(KeyCode::Char('w')));
    for c in "reading".chars() {
        a.on_key(key(KeyCode::Char(c)));
    }
    a.on_key(key(KeyCode::Enter));

    assert_eq!(a.mode(), Mode::Nav);
    assert_eq!(a.boards().len(), before + 1);
    assert_eq!(a.boards().last().unwrap().name, "reading");
    assert!(a.boards().last().unwrap().notes.is_empty());
    assert_eq!(a.active_index(), here, "creating a world must not move you");
    assert_eq!(a.selected(), selected, "nor drop what you had selected");
}

#[test]
fn creating_a_world_says_where_it_went() {
    // Staying put means the only sign is the tab strip growing, so the
    // footer names the world and the key that opens it.
    let mut a = app();
    a.on_key(key(KeyCode::Char('w')));
    for c in "reading".chars() {
        a.on_key(key(KeyCode::Char(c)));
    }
    a.on_key(key(KeyCode::Enter));

    let status = a.status().unwrap_or_default().to_string();
    assert!(status.contains("reading"), "got {status:?}");
    assert!(
        status.contains('4'),
        "the tab number is how you get there, got {status:?}"
    );
}

#[test]
fn the_tenth_world_is_refused_before_the_prompt_opens() {
    let mut a = filled_to_the_limit();
    assert_eq!(a.boards().len(), MAX_WORLDS);

    a.on_key(key(KeyCode::Char('w')));
    assert_eq!(a.mode(), Mode::Nav, "the prompt does not even open");
    assert!(a.prompt().is_none());
    assert!(
        a.status().is_some_and(|s| s.contains('9')),
        "a refusal must say what the limit is, got {:?}",
        a.status()
    );
    assert_eq!(a.boards().len(), MAX_WORLDS);
}

/// A world with nothing on it, made the way you would make one, and left
/// as the world you are looking at.
fn app_with_an_empty_world() -> App {
    let mut a = app();
    a.on_key(key(KeyCode::Char('w')));
    type_into(&mut a, "scratch");
    a.on_key(key(KeyCode::Enter));
    let tab = char::from_digit(a.boards().len() as u32, 10).unwrap();
    a.on_key(key(KeyCode::Char(tab)));
    a
}

fn type_into(a: &mut App, text: &str) {
    for c in text.chars() {
        a.on_key(key(KeyCode::Char(c)));
    }
}

#[test]
fn shift_w_will_not_delete_the_last_world() {
    let mut a = App::new(vec![Board::new("ideas")]);
    a.on_key(shift(KeyCode::Char('W')));

    assert_eq!(a.boards().len(), 1, "the last world stays");
    assert_eq!(a.mode(), Mode::Nav, "and is not even asked about");
    assert!(
        a.status().is_some_and(|s| s.contains("ideas")),
        "a refusal should name the world, got {:?}",
        a.status()
    );
}

#[test]
fn a_read_only_board_refuses_to_delete_a_world() {
    let mut a = app();
    a.set_read_only(true);
    let before = a.boards().len();
    a.on_key(shift(KeyCode::Char('W')));

    assert_eq!(a.boards().len(), before);
    assert_eq!(a.mode(), Mode::Nav);
    assert!(a.take_pending_deletes().is_empty());
}

#[test]
fn an_empty_world_goes_without_being_asked_about() {
    let mut a = app_with_an_empty_world();
    let before = a.boards().len();
    assert!(a.active_board().notes.is_empty());

    a.on_key(shift(KeyCode::Char('W')));

    assert_eq!(a.mode(), Mode::Nav, "nothing to confirm on an empty world");
    assert_eq!(a.boards().len(), before - 1);
    assert!(!a.boards().iter().any(|b| b.name == "scratch"));
    assert!(
        a.status().is_some_and(|s| s.contains("scratch")),
        "got {:?}",
        a.status()
    );
}

#[test]
fn a_world_with_pins_on_it_asks_for_its_name_first() {
    let mut a = app();
    let (before, name) = (a.boards().len(), a.active_board().name.clone());

    a.on_key(shift(KeyCode::Char('W')));
    assert_eq!(a.mode(), Mode::Prompt);
    assert!(a.prompt().is_some());
    assert_eq!(a.boards().len(), before, "nothing is gone yet");

    type_into(&mut a, &name);
    a.on_key(key(KeyCode::Enter));

    assert_eq!(a.mode(), Mode::Nav);
    assert_eq!(a.boards().len(), before - 1);
    assert!(!a.boards().iter().any(|b| b.name == name));
}

#[test]
fn the_wrong_name_keeps_the_world_and_what_you_typed() {
    let mut a = app();
    let before = a.boards().len();
    a.on_key(shift(KeyCode::Char('W')));
    type_into(&mut a, "ideaz");
    a.on_key(key(KeyCode::Enter));

    assert_eq!(a.mode(), Mode::Prompt, "the prompt stays open");
    let prompt = a.prompt().unwrap();
    assert_eq!(prompt.input, "ideaz", "and keeps what was typed");
    assert!(prompt.error.is_some(), "with the reason shown");
    assert_eq!(a.boards().len(), before);
}

#[test]
fn esc_out_of_the_delete_prompt_leaves_the_worlds_alone() {
    let mut a = app();
    let before = a.boards().len();
    a.on_key(shift(KeyCode::Char('W')));
    a.on_key(key(KeyCode::Esc));

    assert_eq!(a.mode(), Mode::Nav);
    assert!(a.prompt().is_none());
    assert_eq!(a.boards().len(), before);
    assert!(a.take_pending_deletes().is_empty());
}

#[test]
fn deleting_the_last_tab_falls_back_one() {
    let mut a = app();
    let last = a.boards().len() - 1;
    a.on_key(key(KeyCode::Char(
        char::from_digit(a.boards().len() as u32, 10).unwrap(),
    )));
    assert_eq!(a.active_index(), last);
    let name = a.active_board().name.clone();

    a.on_key(shift(KeyCode::Char('W')));
    type_into(&mut a, &name);
    a.on_key(key(KeyCode::Enter));

    assert_eq!(
        a.active_index(),
        last - 1,
        "the tab beside it is the one to show"
    );
    assert!(a.selected().is_none());
}

#[test]
fn undo_brings_a_deleted_world_back_with_its_pins() {
    let mut a = app();
    let before = a.boards().to_vec();
    let name = a.active_board().name.clone();

    a.on_key(shift(KeyCode::Char('W')));
    type_into(&mut a, &name);
    a.on_key(key(KeyCode::Enter));
    assert_eq!(a.boards().len(), before.len() - 1);

    a.on_key(key(KeyCode::Char('u')));
    assert_eq!(a.boards(), before, "pins and all");
    assert_eq!(a.active_index(), 0);
}

#[test]
fn a_deleted_world_is_handed_over_exactly_once() {
    let mut a = app_with_an_empty_world();
    a.on_key(shift(KeyCode::Char('W')));

    assert_eq!(a.take_pending_deletes(), vec!["scratch".to_string()]);
    assert!(
        a.take_pending_deletes().is_empty(),
        "a delete is delivered once"
    );
}

#[test]
fn deleting_a_world_is_a_change_worth_saving() {
    let mut a = app_with_an_empty_world();
    let before = a.revision();
    a.on_key(shift(KeyCode::Char('W')));
    assert!(a.revision() > before);
}

#[test]
fn the_tab_strip_drops_the_plus_at_the_limit() {
    // A + that can only ever refuse is worse than no +.
    let a = filled_to_the_limit();
    let tabs = a.tabs();
    assert_eq!(tabs.len(), MAX_WORLDS, "nine worlds and nothing else");
    assert!(!tabs.iter().any(|t| matches!(t.kind, TabKind::New)));
}

#[test]
fn a_refused_name_keeps_the_prompt_and_what_was_typed() {
    let mut a = app();
    let before = a.boards().len();
    a.on_key(key(KeyCode::Char('w')));
    for c in "a/b".chars() {
        a.on_key(key(KeyCode::Char(c)));
    }
    a.on_key(key(KeyCode::Enter));

    assert_eq!(
        a.mode(),
        Mode::Prompt,
        "a bad name does not close the prompt"
    );
    let prompt = a.prompt().unwrap();
    assert_eq!(prompt.input, "a/b", "the typed name survives");
    assert!(prompt.error.is_some(), "and it says why");
    assert_eq!(a.boards().len(), before);

    // Fixing it in place works.
    a.on_key(key(KeyCode::Backspace));
    a.on_key(key(KeyCode::Backspace));
    a.on_key(key(KeyCode::Char('b')));
    a.on_key(key(KeyCode::Enter));
    assert_eq!(a.mode(), Mode::Nav, "the fixed name was accepted");
    assert_eq!(a.boards().last().unwrap().name, "ab");
}

#[test]
fn naming_an_existing_world_is_refused_rather_than_switched_to() {
    let mut a = app();
    let before = a.boards().len();
    let existing = a.boards()[1].name.clone();
    a.on_key(key(KeyCode::Char('w')));
    for c in existing.chars() {
        a.on_key(key(KeyCode::Char(c)));
    }
    a.on_key(key(KeyCode::Enter));
    assert_eq!(
        a.boards().len(),
        before,
        "two directories cannot share a name"
    );
    assert_eq!(a.mode(), Mode::Prompt, "the prompt stays open to be fixed");
    assert!(a.prompt().unwrap().error.is_some(), "and says why");
    assert_eq!(a.active_index(), 0, "a refusal does not move you either");
}

#[test]
fn an_empty_or_dotted_name_is_refused() {
    for bad in ["", "   ", ".hidden"] {
        let mut a = app();
        let before = a.boards().len();
        a.on_key(key(KeyCode::Char('w')));
        for c in bad.chars() {
            a.on_key(key(KeyCode::Char(c)));
        }
        a.on_key(key(KeyCode::Enter));
        assert_eq!(a.mode(), Mode::Prompt, "{bad:?} should be refused");
        assert_eq!(a.boards().len(), before);
    }
}

#[test]
fn the_tab_strip_ends_with_a_plus_and_spans_do_not_overlap() {
    let a = app();
    let tabs = a.tabs();
    assert_eq!(tabs.len(), a.boards().len() + 1);
    assert!(matches!(tabs.last().unwrap().kind, TabKind::New));

    // Each span starts where the previous one ended: this is what makes a
    // click land on the tab it looks like it landed on.
    for pair in tabs.windows(2) {
        assert_eq!(
            pair[0].x + pair[0].width,
            pair[1].x,
            "gap or overlap in the strip"
        );
    }
    match &tabs[0].kind {
        TabKind::World { index, active, .. } => {
            assert_eq!(*index, 0);
            assert!(active, "the first world starts active");
        }
        _ => panic!("expected a world first"),
    }
}

#[test]
fn clicking_a_tab_switches_worlds_and_clicking_plus_opens_the_prompt() {
    let mut a = app();
    a.set_tabs_area(Rect {
        x: 0,
        y: 1,
        width: 100,
        height: 1,
    });
    let tabs = a.tabs();

    // The second world's tab.
    let second = &tabs[1];
    a.on_mouse(mouse_down(second.x, 1));
    assert_eq!(a.active_index(), 1, "clicked the second world");

    // The + at the end.
    let plus = a.tabs().last().unwrap().clone();
    a.on_mouse(mouse_down(plus.x + 1, 1));
    assert_eq!(a.mode(), Mode::Prompt, "the + opens the new-world prompt");
}

#[test]
fn a_prompt_takes_text_not_board_shortcuts() {
    // In the prompt, "n" and "q" are letters, not new-note and quit.
    let mut a = app();
    let before = a.active_board().notes.len();
    a.on_key(key(KeyCode::Char('w')));
    for c in "nq".chars() {
        a.on_key(key(KeyCode::Char(c)));
    }
    assert_eq!(a.prompt().unwrap().input, "nq");
    assert!(!a.should_quit(), "q must not quit while naming");
    assert_eq!(a.boards()[0].notes.len(), before, "n must not add a pin");
}

#[test]
fn delete_removes_the_selected_note() {
    let mut a = app();
    a.on_key(key(KeyCode::Char('n')));
    a.on_key(key(KeyCode::Esc)); // save edit, back to Nav, still selected
    let before = a.active_board().notes.len();
    a.on_key(key(KeyCode::Char('d')));
    assert_eq!(a.active_board().notes.len(), before - 1);
    assert!(a.selected().is_none());
}

#[test]
fn clicking_a_note_selects_the_topmost_and_raises_it() {
    let mut a = app();
    // Two notes stacked at the same spot; the higher z should win the click
    // and then be raised further.
    a.boards[0].notes.clear();
    a.boards[0].notes.push(Note {
        id: 100,
        title: "under".into(),
        body: String::new(),
        x: grains(300.0),
        y: grains(300.0),
        z: 1,
        color: Color::Yellow,
    });
    a.boards[0].notes.push(Note {
        id: 200,
        title: "over".into(),
        body: String::new(),
        x: grains(300.0),
        y: grains(300.0),
        z: 2,
        color: Color::Blue,
    });
    a.center_on_content();

    // Click the center of the stack.
    let v = a.screen_view();
    let (cx, cy) = in_cells(v.cell_of(WorldPoint {
        x: grains(300.0) + NOTE_W / 2,
        y: grains(300.0) + NOTE_H / 2,
    }));
    let col = (v_area(&a).x as f64 + cx) as u16;
    let row = (v_area(&a).y as f64 + cy) as u16;
    a.on_mouse(mouse_down(col, row));

    assert_eq!(a.selected(), Some(200));
    let over = a.active_board().notes.iter().find(|n| n.id == 200).unwrap();
    let under = a.active_board().notes.iter().find(|n| n.id == 100).unwrap();
    assert!(over.z > under.z, "clicked note should be raised to the top");
}

#[test]
fn clicking_empty_space_clears_selection() {
    let mut a = app();
    a.selected = Some(1);
    // Corner of the viewport, far from any seeded note once centered.
    a.on_mouse(mouse_down(a.viewport.x, a.viewport.y));
    assert!(a.selected().is_none());
}

// ---- selection and copy ----

/// A note in edit mode holding `text`, with the caret at the end.
fn editing(text: &str) -> App {
    let mut a = app();
    a.on_key(key(KeyCode::Char('n')));
    a.editor = Some(TextEditor::new(text));
    a
}

#[test]
fn shift_arrow_builds_a_selection() {
    let mut a = editing("hello");
    a.on_key(chord(KeyCode::Left, SHIFT));
    a.on_key(chord(KeyCode::Left, SHIFT));
    assert_eq!(a.editor().unwrap().selected_text().as_deref(), Some("lo"));
}

#[test]
fn a_plain_arrow_collapses_the_selection() {
    let mut a = editing("hello");
    a.on_key(chord(KeyCode::Left, SHIFT));
    a.on_key(key(KeyCode::Left));
    assert_eq!(a.editor().unwrap().selection(), None);
}

#[test]
fn alt_shift_arrow_extends_by_word() {
    let mut a = editing("foo bar baz");
    a.on_key(chord(
        KeyCode::Left,
        ALT_SHIFT,
    ));
    assert_eq!(a.editor().unwrap().selected_text().as_deref(), Some("baz"));
}

#[test]
fn cmd_arrows_jump_to_the_line_edges() {
    let mut a = editing("hello");
    a.on_key(chord(KeyCode::Left, SUPER));
    assert_eq!(a.editor().unwrap().cursor(), Cursor { row: 0, col: 0 });
    a.on_key(chord(KeyCode::Right, SUPER));
    assert_eq!(a.editor().unwrap().cursor(), Cursor { row: 0, col: 5 });
}

#[test]
fn cmd_shift_arrow_selects_to_the_line_edge() {
    let mut a = editing("hello");
    a.on_key(chord(
        KeyCode::Left,
        SUPER_SHIFT,
    ));
    assert_eq!(
        a.editor().unwrap().selected_text().as_deref(),
        Some("hello")
    );
}

#[test]
fn a_cmd_chord_never_types_its_letter() {
    let mut a = editing("hi");
    a.on_key(chord(KeyCode::Char('z'), SUPER));
    assert_eq!(a.editor().unwrap().text(), "hi");
}

#[test]
fn ctrl_a_selects_the_whole_note() {
    let mut a = editing("one\ntwo");
    a.on_key(chord(KeyCode::Char('a'), CONTROL));
    assert_eq!(
        a.editor().unwrap().selected_text().as_deref(),
        Some("one\ntwo")
    );
}

#[test]
fn ctrl_c_with_a_selection_copies_instead_of_quitting() {
    let mut a = editing("hello");
    a.on_key(chord(KeyCode::Left, SHIFT));
    a.on_key(chord(KeyCode::Char('c'), CONTROL));
    assert!(!a.should_quit(), "a copy must not quit the app");
    assert_eq!(a.take_pending_copy().as_deref(), Some("o"));
    assert_eq!(
        a.editor().unwrap().text(),
        "hello",
        "copy does not remove text"
    );
}

#[test]
fn a_read_only_board_refuses_every_change() {
    let mut a = app();
    a.set_read_only(true);
    let before = a.boards().to_vec();

    // A new pin, an edit, a delete and a recolor: none may land.
    a.on_key(key(KeyCode::Char('n')));
    a.on_key(key(KeyCode::Char('d')));
    a.on_key(key(KeyCode::Char('c')));
    assert_eq!(a.boards(), before.as_slice(), "the board must be untouched");
}

#[test]
fn a_read_only_board_does_not_open_an_editor() {
    let mut a = app();
    a.set_read_only(true);
    a.on_key(key(KeyCode::Char('e')));
    assert_eq!(a.mode(), Mode::Nav, "editing is refused outright");
    assert!(a.editor().is_none());
    a.on_key(key(KeyCode::Char('w')));
    assert_eq!(a.mode(), Mode::Nav, "so is naming a new world");
}

#[test]
fn a_read_only_board_says_why_it_refused() {
    let mut a = app();
    a.set_read_only(true);
    a.on_key(key(KeyCode::Char('n')));
    assert!(
        a.status().is_some_and(|s| s.contains("read-only")),
        "a refusal must explain itself, got {:?}",
        a.status()
    );
}

#[test]
fn a_writable_board_still_accepts_changes() {
    let mut a = app();
    let before = a.boards().to_vec();
    a.on_key(key(KeyCode::Char('n')));
    assert_ne!(a.boards(), before.as_slice(), "the guard must not misfire");
}

#[test]
fn ctrl_c_without_a_selection_still_quits() {
    let mut a = editing("hello");
    a.on_key(chord(KeyCode::Char('c'), CONTROL));
    assert!(a.should_quit());
    assert_eq!(a.take_pending_copy(), None);
}

#[test]
fn cmd_c_copies_but_never_quits() {
    let mut a = editing("hello");
    a.on_key(chord(KeyCode::Char('c'), SUPER));
    assert!(!a.should_quit(), "cmd+c is not an escape hatch");
    assert_eq!(
        a.take_pending_copy(),
        None,
        "nothing selected, nothing copied"
    );
}

#[test]
fn ctrl_x_cuts_the_selection() {
    let mut a = editing("hello");
    a.on_key(chord(KeyCode::Left, SHIFT));
    a.on_key(chord(KeyCode::Left, SHIFT));
    a.on_key(chord(KeyCode::Char('x'), CONTROL));
    assert_eq!(a.take_pending_copy().as_deref(), Some("lo"));
    assert_eq!(a.editor().unwrap().text(), "hel");
}

#[test]
fn typing_over_a_selection_replaces_it() {
    let mut a = editing("hello");
    a.on_key(chord(KeyCode::Left, SHIFT));
    a.on_key(chord(KeyCode::Left, SHIFT));
    a.on_key(key(KeyCode::Char('p')));
    assert_eq!(a.editor().unwrap().text(), "help");
}

#[test]
fn y_in_nav_copies_the_selected_note() {
    let mut a = app();
    a.on_key(key(KeyCode::Char('n')));
    a.on_key(key(KeyCode::Enter));
    for c in "body".chars() {
        a.on_key(key(KeyCode::Char(c)));
    }
    a.on_key(key(KeyCode::Esc)); // save, still selected in Nav
    a.on_key(key(KeyCode::Char('y')));
    assert_eq!(a.take_pending_copy().as_deref(), Some("new note\nbody"));
}

#[test]
fn y_in_nav_copies_the_title_alone_when_there_is_no_body() {
    let mut a = app();
    a.on_key(key(KeyCode::Char('n')));
    a.on_key(key(KeyCode::Esc));
    a.on_key(key(KeyCode::Char('y')));
    assert_eq!(a.take_pending_copy().as_deref(), Some("new note"));
}

#[test]
fn y_in_nav_does_nothing_with_no_note_selected() {
    let mut a = app();
    a.selected = None;
    a.on_key(key(KeyCode::Char('y')));
    assert_eq!(a.take_pending_copy(), None);
}

#[test]
fn a_sync_warning_stays_up_while_one_off_statuses_come_and_go() {
    let mut a = app();
    a.set_warning("sync stopped: the same pin changed on both machines".into());
    a.on_key(key(KeyCode::Left));
    assert!(
        a.warning().is_some_and(|w| w.contains("sync stopped")),
        "a keystroke must not clear the warning"
    );
    a.set_status("copied 3 chars".into());
    a.on_key(key(KeyCode::Left));
    assert!(
        a.warning().is_some(),
        "a one-off status clearing must not take the warning with it"
    );
}

#[test]
fn a_copy_reports_a_status_that_the_next_key_clears() {
    let mut a = editing("hello");
    a.on_key(chord(KeyCode::Left, SHIFT));
    a.on_key(chord(KeyCode::Char('c'), CONTROL));
    assert!(
        a.status().is_some_and(|s| s.contains("copied")),
        "{:?}",
        a.status()
    );
    a.on_key(key(KeyCode::Left));
    assert_eq!(a.status(), None);
}

#[test]
fn taking_the_pending_copy_leaves_nothing_behind() {
    let mut a = editing("hello");
    a.on_key(chord(KeyCode::Char('a'), CONTROL));
    a.on_key(chord(KeyCode::Char('c'), CONTROL));
    assert!(a.take_pending_copy().is_some());
    assert_eq!(a.take_pending_copy(), None, "a copy is delivered once");
}

// ---- paste ----

#[test]
fn paste_inserts_multi_line_text_into_the_editor() {
    let mut a = editing("hi ");
    a.on_paste("one\ntwo".to_string());
    assert_eq!(a.editor().unwrap().text(), "hi one\ntwo");
}

#[test]
fn paste_replaces_a_selection() {
    let mut a = editing("hello");
    a.on_key(chord(KeyCode::Char('a'), CONTROL));
    a.on_paste("bye".to_string());
    assert_eq!(a.editor().unwrap().text(), "bye");
}

#[test]
fn paste_into_a_prompt_takes_only_the_first_line() {
    let mut a = app();
    a.on_key(key(KeyCode::Char('w')));
    a.on_paste("world\nignored".to_string());
    a.on_key(key(KeyCode::Enter));
    assert_eq!(a.mode(), Mode::Nav);
    assert_eq!(a.boards().last().unwrap().name, "world");
}

#[test]
fn paste_in_nav_does_nothing() {
    let mut a = app();
    let before = a.active_board().notes.len();
    a.on_paste("text".to_string());
    assert_eq!(a.active_board().notes.len(), before);
}

// ---- mouse selection ----

/// The screen cell of a character inside the note currently being edited.
fn cell_in_note(a: &App, vrow: u16, vcol: u16) -> (u16, u16) {
    let (cells, _) = a.edit_layout().expect("a note should be open");
    ((cells.x + 1) as u16 + vcol, (cells.y + 1) as u16 + vrow)
}

#[test]
fn dragging_inside_the_edited_note_selects_text() {
    let mut a = editing("hello world");
    let (c0, r0) = cell_in_note(&a, 0, 0);
    a.on_mouse(mouse_down(c0, r0));
    assert_eq!(a.editor().unwrap().cursor(), Cursor { row: 0, col: 0 });
    a.on_mouse(mouse_drag(c0 + 5, r0));
    assert_eq!(
        a.editor().unwrap().selected_text().as_deref(),
        Some("hello")
    );
    assert_eq!(a.mode(), Mode::Edit, "a text drag must not end the edit");
}

#[test]
fn a_plain_click_inside_the_note_just_moves_the_caret() {
    let mut a = editing("hello world");
    let (c0, r0) = cell_in_note(&a, 0, 3);
    a.on_mouse(mouse_down(c0, r0));
    a.on_mouse(mouse_up(c0, r0));
    assert_eq!(a.editor().unwrap().cursor(), Cursor { row: 0, col: 3 });
    assert_eq!(a.editor().unwrap().selection(), None);
    assert_eq!(a.mode(), Mode::Edit);
}

#[test]
fn dragging_past_the_note_edge_clamps_instead_of_stopping() {
    let mut a = editing("hello world");
    let (c0, r0) = cell_in_note(&a, 0, 0);
    a.on_mouse(mouse_down(c0, r0));
    a.on_mouse(mouse_drag(c0 + 500, r0));
    let selected = a.editor().unwrap().selected_text().unwrap();
    assert!(
        selected.starts_with("hello"),
        "clamped to the row's end: {selected:?}"
    );
}

#[test]
fn clicking_outside_the_edited_note_still_commits_the_edit() {
    let mut a = editing("hello");
    a.on_mouse(mouse_down(a.viewport.x, a.viewport.y));
    assert_eq!(
        a.mode(),
        Mode::Nav,
        "a click on the board saves and leaves edit"
    );
}

// ---- undo / redo ----

fn titles(a: &App) -> Vec<String> {
    a.active_board()
        .notes
        .iter()
        .map(|n| n.title.clone())
        .collect()
}

/// Title and body of every note. The editor opens with the cursor at the end
/// of the whole buffer, so typing lands in the body - titles alone would not
/// see an edit at all.
fn contents(a: &App) -> Vec<String> {
    a.active_board()
        .notes
        .iter()
        .map(|n| format!("{}\n{}", n.title, n.body))
        .collect()
}

#[test]
fn u_undoes_a_new_note() {
    let mut a = app();
    let before = titles(&a);
    a.on_key(key(KeyCode::Char('n')));
    a.on_key(key(KeyCode::Esc)); // save
    assert_ne!(titles(&a), before);
    a.on_key(key(KeyCode::Char('u')));
    assert_eq!(titles(&a), before, "the note should be gone again");
}

#[test]
fn u_undoes_a_delete() {
    let mut a = app();
    a.selected = Some(a.active_board().notes[0].id);
    let before = titles(&a);
    a.on_key(key(KeyCode::Char('d')));
    assert_ne!(titles(&a), before);
    a.on_key(key(KeyCode::Char('u')));
    assert_eq!(titles(&a), before);
}

#[test]
fn u_undoes_a_recolor() {
    let mut a = app();
    let id = a.active_board().notes[0].id;
    a.selected = Some(id);
    let color_of = |a: &App| {
        a.active_board()
            .notes
            .iter()
            .find(|n| n.id == id)
            .unwrap()
            .color
    };
    let before = color_of(&a);
    a.on_key(key(KeyCode::Char('c')));
    assert_ne!(color_of(&a), before);
    a.on_key(key(KeyCode::Char('u')));
    assert_eq!(color_of(&a), before);
}

#[test]
fn a_finished_edit_is_one_undo_step() {
    let mut a = app();
    a.selected = Some(a.active_board().notes[0].id);
    let before = contents(&a);
    a.on_key(key(KeyCode::Char('e')));
    for c in "xyz".chars() {
        a.on_key(key(KeyCode::Char(c)));
    }
    a.on_key(key(KeyCode::Esc)); // one edit, three keystrokes
    assert_ne!(contents(&a), before);
    a.on_key(key(KeyCode::Char('u')));
    assert_eq!(
        contents(&a),
        before,
        "one undo should take back the whole edit"
    );
}

#[test]
fn opening_a_note_and_closing_it_untouched_records_nothing() {
    let mut a = app();
    a.selected = Some(a.active_board().notes[0].id);
    a.on_key(key(KeyCode::Char('d'))); // one real step to undo back to
    let deleted = contents(&a);
    a.selected = Some(a.active_board().notes[0].id);
    a.on_key(key(KeyCode::Char('e')));
    a.on_key(key(KeyCode::Esc)); // opened and closed, changed nothing
    a.on_key(key(KeyCode::Char('u')));
    assert_ne!(
        contents(&a),
        deleted,
        "the no-op edit must not eat the undo"
    );
}

#[test]
fn a_drag_is_one_undo_step() {
    let mut a = app();
    let note = &a.active_board().notes[0];
    let (id, x0, y0) = (note.id, note.x, note.y);
    // Aim at the note's centre: a corner rounds outside it at this zoom.
    let (sc, sr) = cell_of_note(&a, id);
    a.on_mouse(mouse_down(sc, sr));
    assert_eq!(
        a.selected(),
        Some(id),
        "the drag should have grabbed the note"
    );
    for step in 1..=5 {
        a.on_mouse(mouse_drag(sc + step, sr + step));
    }
    a.on_mouse(mouse_up(sc + 5, sr + 5));
    let moved = a.active_board().notes.iter().find(|n| n.id == id).unwrap();
    assert_ne!((moved.x, moved.y), (x0, y0), "the note should have moved");

    a.on_key(key(KeyCode::Char('u')));
    let back = a.active_board().notes.iter().find(|n| n.id == id).unwrap();
    assert_eq!(
        (back.x, back.y),
        (x0, y0),
        "one undo should take back the whole drag"
    );
}

#[test]
fn a_key_that_changes_nothing_records_no_undo_step() {
    let mut a = app();
    a.selected = Some(a.active_board().notes[0].id);
    a.on_key(key(KeyCode::Char('d'))); // one real step
    let after_delete = titles(&a);
    for _ in 0..5 {
        a.on_key(key(KeyCode::Left)); // pans; no board change
    }
    a.on_key(key(KeyCode::Char('u')));
    assert_ne!(titles(&a), after_delete, "undo should reach past the pans");
}

#[test]
fn ctrl_r_redoes_what_u_undid() {
    let mut a = app();
    a.on_key(key(KeyCode::Char('n')));
    a.on_key(key(KeyCode::Esc));
    let created = titles(&a);
    a.on_key(key(KeyCode::Char('u')));
    assert_ne!(titles(&a), created);
    a.on_key(chord(KeyCode::Char('r'), CONTROL));
    assert_eq!(titles(&a), created, "redo should put it back");
}

#[test]
fn a_new_action_clears_the_redo_stack() {
    let mut a = app();
    a.on_key(key(KeyCode::Char('n')));
    a.on_key(key(KeyCode::Esc));
    a.on_key(key(KeyCode::Char('u')));
    a.selected = Some(a.active_board().notes[0].id);
    a.on_key(key(KeyCode::Char('c'))); // a fresh action
    let after = titles(&a);
    a.on_key(chord(KeyCode::Char('r'), CONTROL));
    assert_eq!(
        titles(&a),
        after,
        "redo must not resurrect a discarded future"
    );
}

#[test]
fn undo_and_redo_on_empty_stacks_do_nothing() {
    let mut a = app();
    let before = titles(&a);
    a.on_key(key(KeyCode::Char('u')));
    a.on_key(chord(KeyCode::Char('r'), CONTROL));
    assert_eq!(titles(&a), before);
    assert!(
        a.status().is_some_and(|s| s.contains("nothing")),
        "{:?}",
        a.status()
    );
}

#[test]
fn undo_does_not_record_itself() {
    let mut a = app();
    a.on_key(key(KeyCode::Char('n')));
    a.on_key(key(KeyCode::Esc));
    let created = titles(&a);
    let empty = titles(&app());
    a.on_key(key(KeyCode::Char('u')));
    assert_eq!(titles(&a), empty);
    // A second undo has nothing left; if undo recorded itself it would
    // bounce back to the created state here.
    a.on_key(key(KeyCode::Char('u')));
    assert_ne!(titles(&a), created, "undo recorded itself");
}

#[test]
fn the_undo_depth_is_capped() {
    let mut a = app();
    let id = a.active_board().notes[0].id;
    a.selected = Some(id);
    let color_of = |a: &App| {
        a.active_board()
            .notes
            .iter()
            .find(|n| n.id == id)
            .unwrap()
            .color
    };
    let oldest = color_of(&a);
    for _ in 0..(UNDO_DEPTH + 10) {
        a.on_key(key(KeyCode::Char('c')));
    }
    for _ in 0..(UNDO_DEPTH + 10) {
        a.on_key(key(KeyCode::Char('u')));
    }
    assert_ne!(
        color_of(&a),
        oldest,
        "the oldest steps should have been evicted"
    );
}

// ---- dropping a pin on another world ----

/// An app with both a viewport and a tab strip placed, so a gesture can
/// travel from the board to the tabs.
fn with_tabs() -> App {
    let mut a = app();
    a.set_tabs_area(Rect {
        x: 0,
        y: 1,
        width: 100,
        height: 1,
    });
    a
}

/// The cell in the middle of world `index`'s tab.
fn cell_of_tab(a: &App, index: usize) -> (u16, u16) {
    let tab = a
        .tabs()
        .into_iter()
        .find(|t| matches!(t.kind, TabKind::World { index: i, .. } if i == index))
        .expect("world tab");
    (a.tabs.x + tab.x + tab.width / 2, a.tabs.y)
}

/// Pick up the first pin on the active board and drag the cursor to `(col, row)`.
fn drag_first_pin_to(a: &mut App, col: u16, row: u16) -> u64 {
    let id = a.active_board().notes[0].id;
    let (sc, sr) = cell_of_note(a, id);
    a.on_mouse(mouse_down(sc, sr));
    assert_eq!(
        a.selected(),
        Some(id),
        "the drag should have grabbed the pin"
    );
    a.on_mouse(mouse_drag(col, row));
    id
}

#[test]
fn dropping_a_pin_on_another_worlds_tab_moves_it() {
    let mut a = with_tabs();
    let before_here = a.active_board().notes.len();
    let before_there = a.boards()[1].notes.len();
    let (tc, tr) = cell_of_tab(&a, 1);
    let id = drag_first_pin_to(&mut a, tc, tr);
    a.on_mouse(mouse_up(tc, tr));

    assert_eq!(
        a.active_board().notes.len(),
        before_here - 1,
        "left this board"
    );
    assert_eq!(
        a.boards()[1].notes.len(),
        before_there + 1,
        "landed on that one"
    );
    assert!(a.boards()[1].notes.iter().any(|n| n.id == id));
    assert_eq!(
        a.active_index(),
        0,
        "you stay on the board you were clearing"
    );
    assert_eq!(a.selected(), None, "the pin is not on this board any more");
    assert!(
        a.status().is_some_and(|s| s.contains("moved to")),
        "{:?}",
        a.status()
    );
}

/// Worlds do not share a coordinate space: a pin keeping its old x and y
/// can land arbitrarily far from the board it arrives on, and since the
/// camera frames the *union* of a board's pins, that strands both the pin
/// and everything already there. It lands in the middle instead, cascaded
/// clear of whatever the middle already holds.
#[test]
fn a_dropped_pin_lands_in_the_middle_of_the_world_it_arrives_in() {
    let mut a = with_tabs();
    let note = a.active_board().notes[0].clone();
    let top_before = a.boards()[1].notes.iter().map(|n| n.z).max().unwrap_or(0);
    let center = a.boards()[1].content_center();
    let wanted = WorldPoint {
        x: center.x - NOTE_W / 2,
        y: center.y - NOTE_H / 2,
    };
    let expected = a.boards()[1].free_spot(wanted, None);

    let (tc, tr) = cell_of_tab(&a, 1);
    drag_first_pin_to(&mut a, tc, tr);
    a.on_mouse(mouse_up(tc, tr));

    let moved = a.boards()[1]
        .notes
        .iter()
        .find(|n| n.id == note.id)
        .unwrap();
    assert_eq!(
        (moved.x, moved.y),
        (expected.x, expected.y),
        "should land at the target board's centre, not keep its old spot"
    );
    assert!(
        moved.z > top_before,
        "should sit on top of the target board"
    );
    assert_nothing_is_stacked(&a.boards()[1]);
}

#[test]
fn a_note_does_not_move_while_the_cursor_is_over_the_tab_strip() {
    let mut a = with_tabs();
    let note = a.active_board().notes[0].clone();
    let (tc, tr) = cell_of_tab(&a, 1);
    drag_first_pin_to(&mut a, tc, tr);
    let held = a
        .active_board()
        .notes
        .iter()
        .find(|n| n.id == note.id)
        .unwrap();
    assert_eq!(
        (held.x, held.y),
        (note.x, note.y),
        "the pin must not fly up into the header"
    );
}

#[test]
fn the_drop_target_arms_over_the_strip_and_clears_on_release() {
    let mut a = with_tabs();
    let (tc, tr) = cell_of_tab(&a, 1);
    drag_first_pin_to(&mut a, tc, tr);
    assert_eq!(
        a.drop_target().map(|d| d.world),
        Some(1),
        "the tab under the cursor is armed"
    );

    // Back onto the board: disarmed, and the pin follows the cursor again.
    let (bc, br) = (v_area(&a).x + 30, v_area(&a).y + 10);
    a.on_mouse(mouse_drag(bc, br));
    assert_eq!(a.drop_target(), None, "leaving the strip disarms it");
    a.on_mouse(mouse_up(bc, br));
    assert_eq!(a.drop_target(), None);
}

#[test]
fn dropping_a_pin_on_its_own_tab_leaves_it_alone() {
    let mut a = with_tabs();
    let (tc, tr) = cell_of_tab(&a, 0); // the board we are already on
    let id = drag_first_pin_to(&mut a, tc, tr);
    // Captured after the grab, so this measures the drop and nothing else.
    let before = a.active_board().notes.clone();
    a.on_mouse(mouse_up(tc, tr));
    assert_eq!(
        a.active_board().notes,
        before,
        "a self-drop must change nothing at all, not even stack order"
    );
    assert_eq!(
        a.selected(),
        Some(id),
        "the pin is still here and still selected"
    );
}

#[test]
fn the_plus_is_never_a_drop_target() {
    let mut a = with_tabs();
    let plus = a.tabs().last().unwrap().clone();
    let (tc, tr) = (a.tabs.x + plus.x + 1, a.tabs.y);
    let note = a.active_board().notes[0].clone();
    drag_first_pin_to(&mut a, tc, tr);
    assert_eq!(a.drop_target(), None, "the + is not a world to drop into");

    // It is still part of the strip, so the pin must not follow the cursor
    // up there either.
    let held = a
        .active_board()
        .notes
        .iter()
        .find(|n| n.id == note.id)
        .unwrap();
    assert_eq!(
        (held.x, held.y),
        (note.x, note.y),
        "the pin chased the cursor"
    );

    let before = a.active_board().notes.clone();
    a.on_mouse(mouse_up(tc, tr));
    assert_eq!(a.active_board().notes, before);
    assert_eq!(
        a.mode(),
        Mode::Nav,
        "a drop must not open the new-world prompt"
    );
}

#[test]
fn moving_a_pin_to_another_world_is_one_undo_step() {
    let mut a = with_tabs();
    let before_here = titles(&a);
    let before_there = a.boards()[1].notes.len();
    let (tc, tr) = cell_of_tab(&a, 1);
    drag_first_pin_to(&mut a, tc, tr);
    a.on_mouse(mouse_up(tc, tr));
    assert_ne!(titles(&a), before_here);

    a.on_key(key(KeyCode::Char('u')));
    assert_eq!(titles(&a), before_here, "the pin should be back");
    assert_eq!(
        a.boards()[1].notes.len(),
        before_there,
        "and gone from the target"
    );
}

// ---- scrolling a note longer than itself ----

/// One pin carrying `rows` short body lines, on a board of its own.
fn board_with_note_of(rows: usize) -> App {
    let body = (1..=rows)
        .map(|i| format!("line {i}"))
        .collect::<Vec<_>>()
        .join("\n");
    let mut board = Board::new("long");
    board.notes.push(Note {
        id: 1,
        title: "a long note".into(),
        body,
        x: grains(0.0),
        y: grains(0.0),
        z: 1,
        color: Color::Yellow,
    });
    let mut a = App::new(vec![board]);
    a.set_viewport(VIEWPORT);
    a
}

/// That pin, open in the editor. The caret lands where `TextEditor::new`
/// puts it: at the very end of the text.
fn editing_a_note_of(rows: usize) -> App {
    let mut a = board_with_note_of(rows);
    let (col, row) = cell_of_note(&a, 1);
    a.on_mouse(mouse_down(col, row));
    a.on_mouse(mouse_up(col, row));
    a.on_key(key(KeyCode::Char('e')));
    assert_eq!(a.mode(), Mode::Edit, "the note should be open");
    a
}

/// The window the note shows: (first visible row, rows that fit).
fn window(a: &App) -> (usize, usize) {
    let (height, _) = a.text_extent(1).expect("a note is open");
    (a.scroll_of(1), height)
}

/// Which wrapped row the caret sits on.
fn caret_row(a: &App) -> usize {
    let (_, wrapped) = a.edit_layout().expect("a note is open");
    wrapped.place(a.editor().unwrap().cursor()).0
}

fn wheel(down: bool, col: u16, row: u16) -> MouseEvent {
    let kind = if down {
        MouseEventKind::ScrollDown
    } else {
        MouseEventKind::ScrollUp
    };
    mouse_at(kind, col, row)
}

#[test]
fn a_note_that_fits_never_scrolls() {
    let a = editing_a_note_of(2);
    assert_eq!(a.scroll_of(1), 0);
    assert_eq!(a.max_scroll_of(1), 0, "there is nothing below to reach");
}

#[test]
fn opening_a_long_note_shows_the_end_the_caret_is_at() {
    // Without this the caret opens below the note and you type blind.
    let a = editing_a_note_of(40);
    let (top, height) = window(&a);
    assert!(top > 0, "a 41-row note cannot start at the top and show its end");
    let caret = caret_row(&a);
    assert!(
        (top..top + height).contains(&caret),
        "caret on row {caret}, window {top}..{}",
        top + height
    );
}

#[test]
fn the_window_holds_still_while_the_caret_moves_inside_it() {
    let mut a = editing_a_note_of(40);
    let before = a.scroll_of(1);
    a.on_key(key(KeyCode::Up));
    assert_eq!(
        a.scroll_of(1),
        before,
        "a step the window already shows must not move the text"
    );
}

#[test]
fn the_caret_walking_off_the_top_pulls_the_window_with_it() {
    let mut a = editing_a_note_of(40);
    let (_, height) = window(&a);
    for _ in 0..height + 5 {
        a.on_key(key(KeyCode::Up));
    }
    let (top, height) = window(&a);
    let caret = caret_row(&a);
    assert!(
        (top..top + height).contains(&caret),
        "caret on row {caret}, window {top}..{}",
        top + height
    );
}

#[test]
fn typing_past_the_last_visible_row_follows_the_caret_down() {
    let mut a = editing_a_note_of(40);
    let before = a.scroll_of(1);
    for _ in 0..5 {
        a.on_key(key(KeyCode::Enter));
    }
    assert!(a.scroll_of(1) > before, "new rows must not push the caret out of sight");
    let (top, height) = window(&a);
    assert!((top..top + height).contains(&caret_row(&a)));
}

#[test]
fn the_wheel_moves_the_text_and_leaves_the_caret_alone() {
    let mut a = editing_a_note_of(40);
    let before = a.scroll_of(1);
    let caret = a.editor().unwrap().cursor();
    let (col, row) = cell_of_note(&a, 1);
    a.on_mouse(wheel(false, col, row));
    assert_eq!(a.scroll_of(1), before - WHEEL_ROWS);
    assert_eq!(
        a.editor().unwrap().cursor(),
        caret,
        "looking up the note is not moving the cursor"
    );
}

#[test]
fn the_next_keystroke_brings_the_caret_back_into_view() {
    let mut a = editing_a_note_of(40);
    let (col, row) = cell_of_note(&a, 1);
    for _ in 0..10 {
        a.on_mouse(wheel(false, col, row));
    }
    a.on_key(key(KeyCode::Char('x')));
    let (top, height) = window(&a);
    assert!((top..top + height).contains(&caret_row(&a)));
}

#[test]
fn scrolling_stops_at_both_ends_of_the_text() {
    let mut a = editing_a_note_of(40);
    let (col, row) = cell_of_note(&a, 1);
    for _ in 0..50 {
        a.on_mouse(wheel(false, col, row));
    }
    assert_eq!(a.scroll_of(1), 0, "the top is as far up as it goes");
    for _ in 0..50 {
        a.on_mouse(wheel(true, col, row));
    }
    let (top, height) = window(&a);
    let (_, rows) = a.text_extent(1).unwrap();
    assert_eq!(
        top,
        rows - height,
        "the last row belongs at the bottom edge, not scrolled past it"
    );
}

#[test]
fn the_wheel_scrolls_instead_of_zooming_while_a_note_is_open() {
    let mut a = editing_a_note_of(40);
    let (col, row) = cell_of_note(&a, 1);
    a.on_mouse(wheel(true, col, row));
    assert_eq!(
        a.camera().zoom,
        ZoomLevel::Document,
        "a wheel inside a note is text movement, not a zoom"
    );
}

#[test]
fn the_wheel_still_zooms_when_no_note_is_open() {
    let mut a = app_with_pins(&[(0.0, 0.0)]);
    let before = a.camera().zoom;
    a.on_mouse(wheel(false, 10, 10));
    assert_ne!(a.camera().zoom, before, "the board still zooms on the wheel");
}

#[test]
fn a_click_lands_on_the_row_the_scroll_put_under_it() {
    let mut a = editing_a_note_of(40);
    let (cells, _) = a.edit_layout().unwrap();
    let top = a.scroll_of(1);
    assert!(top > 0, "the point of the test is a scrolled note");
    // The first row inside the border, which is row `top` of the text.
    a.on_mouse(mouse_down(
        (cells.x + 1) as u16,
        (cells.y + 1) as u16,
    ));
    assert_eq!(
        caret_row(&a),
        top,
        "a click must resolve against the same window the text is drawn in"
    );
}

#[test]
fn closing_a_note_puts_the_window_back_to_the_top() {
    let mut a = editing_a_note_of(40);
    assert!(a.scroll_of(1) > 0);
    a.on_key(key(KeyCode::Esc));
    assert_eq!(a.mode(), Mode::Nav);
    assert_eq!(a.scroll_of(1), 0, "the next note opens at its own top");
}

// ---- the wheel picks its target by what is under it ----

/// One pin of `rows` body lines, at document zoom, nothing selected and
/// nothing open: the reading case.
fn viewing_a_note_of(rows: usize) -> App {
    let mut a = board_with_note_of(rows);
    a.on_key(key(KeyCode::Char('+')));
    a.on_key(key(KeyCode::Char('+')));
    assert_eq!(a.zoom(), ZoomLevel::Document, "the body has to be drawn");
    a
}

/// A cell on the board with no note under it.
fn empty_cell(a: &App) -> (u16, u16) {
    let (col, row) = (a.viewport.x + 1, a.viewport.y + 1);
    let world = a.screen_view().world_at(col, row);
    assert!(
        a.active_board().note_at(world).is_none(),
        "this corner should be bare board"
    );
    (col, row)
}

#[test]
fn the_wheel_over_a_long_note_scrolls_it_and_leaves_the_zoom_alone() {
    let mut a = viewing_a_note_of(40);
    let (col, row) = cell_of_note(&a, 1);
    a.on_mouse(wheel(true, col, row));
    assert_eq!(a.scroll_of(1), WHEEL_ROWS, "the note moved");
    assert_eq!(a.zoom(), ZoomLevel::Document, "the board did not");
}

#[test]
fn the_wheel_over_the_board_still_zooms() {
    let mut a = viewing_a_note_of(40);
    let (col, row) = empty_cell(&a);
    a.on_mouse(wheel(true, col, row));
    assert_eq!(a.zoom(), ZoomLevel::Preview, "bare board is the camera's");
    assert_eq!(a.scroll_of(1), 0, "and no note moved");
}

#[test]
fn the_wheel_over_a_short_note_does_nothing_rather_than_zooming() {
    // Which gesture you get is decided by what is under the pointer, not
    // by how much someone wrote. A pin that zoomed the world out while its
    // longer neighbour scrolled is a wheel you cannot predict.
    let mut a = viewing_a_note_of(1);
    let (col, row) = cell_of_note(&a, 1);
    a.on_mouse(wheel(true, col, row));
    assert_eq!(a.zoom(), ZoomLevel::Document, "the board held still");
    assert_eq!(a.scroll_of(1), 0, "and there was nothing to move");
}

#[test]
fn a_note_holds_the_wheel_from_preview_zoom_up() {
    // Preview is the first level that draws a body, so it is the first
    // where the wheel can mean "read this pin".
    let mut a = board_with_note_of(40);
    a.on_key(key(KeyCode::Char('+')));
    assert_eq!(a.zoom(), ZoomLevel::Preview);
    let (col, row) = cell_of_note(&a, 1);
    a.on_mouse(wheel(true, col, row));
    assert_eq!(a.zoom(), ZoomLevel::Preview, "the board held still");
    assert_eq!(a.scroll_of(1), WHEEL_ROWS, "the pin moved");
}

#[test]
fn a_short_note_being_edited_holds_the_wheel_too() {
    let mut a = editing_a_note_of(1);
    let (col, row) = cell_of_note(&a, 1);
    a.on_mouse(wheel(true, col, row));
    assert_eq!(
        a.zoom(),
        ZoomLevel::Document,
        "the board must not move under a note you are writing in"
    );
}

#[test]
fn zoomed_out_past_the_body_the_wheel_is_the_boards() {
    // Cluster and titles are where notes cover the screen. A wheel that
    // died on every one of them would leave a full board impossible to
    // zoom out of, and a note there is a block, not something you read.
    let mut a = board_with_note_of(40);
    assert_eq!(a.zoom(), ZoomLevel::Titles);
    let (col, row) = cell_of_note(&a, 1);
    a.on_mouse(wheel(false, col, row));
    assert_eq!(a.zoom(), ZoomLevel::Preview);
    assert_eq!(a.scroll_of(1), 0);
}

#[test]
fn each_note_keeps_its_own_place() {
    let mut a = viewing_a_note_of(40);
    // A second long pin, well clear of the first.
    let body = (1..=40).map(|i| format!("line {i}")).collect::<Vec<_>>().join("\n");
    a.boards[0].notes.push(Note {
        id: 2,
        title: "another".into(),
        body,
        x: grains(400.0),
        y: grains(0.0),
        z: 2,
        color: Color::Yellow,
    });
    let first = cell_of_note(&a, 1);
    let second = cell_of_note(&a, 2);
    a.on_mouse(wheel(true, first.0, first.1));
    a.on_mouse(wheel(true, second.0, second.1));
    a.on_mouse(wheel(true, second.0, second.1));
    assert_eq!(a.scroll_of(1), WHEEL_ROWS);
    assert_eq!(a.scroll_of(2), 2 * WHEEL_ROWS, "one window each");
}

#[test]
fn a_shrunken_note_does_not_stay_scrolled_past_its_end() {
    let mut a = viewing_a_note_of(40);
    let (col, row) = cell_of_note(&a, 1);
    for _ in 0..20 {
        a.on_mouse(wheel(true, col, row));
    }
    assert!(a.scroll_of(1) > 0);
    a.boards[0].notes[0].body = "one line".into();
    assert_eq!(a.scroll_of(1), 0, "the window follows the text back up");
}

#[test]
fn page_keys_move_the_selected_note_a_screen_at_a_time() {
    let mut a = viewing_a_note_of(40);
    let (col, row) = cell_of_note(&a, 1);
    a.on_mouse(mouse_down(col, row));
    a.on_mouse(mouse_up(col, row));
    assert_eq!(a.selected(), Some(1));
    let (height, _) = a.text_extent(1).unwrap();
    a.on_key(key(KeyCode::PageDown));
    assert_eq!(
        a.scroll_of(1),
        height - 1,
        "a page keeps one row of overlap to land on"
    );
    a.on_key(key(KeyCode::PageUp));
    assert_eq!(a.scroll_of(1), 0);
}

#[test]
fn page_keys_do_nothing_with_no_pin_selected() {
    let mut a = viewing_a_note_of(40);
    a.on_key(key(KeyCode::PageDown));
    assert_eq!(a.scroll_of(1), 0);
    assert_eq!(a.zoom(), ZoomLevel::Document, "and they are not a zoom");
}

// helpers that reach into private state for assertions
fn v_area(a: &App) -> Rect {
    a.viewport
}
/// The screen cell at the centre of a note, for aiming a mouse gesture.
fn cell_of_note(a: &App, id: u64) -> (u16, u16) {
    let note = a.active_board().notes.iter().find(|n| n.id == id).unwrap();
    let (cx, cy) = in_cells(a.screen_view().cell_of(note.center()));
    (
        (a.viewport.x as f64 + cx).round() as u16,
        (a.viewport.y as f64 + cy).round() as u16,
    )
}
fn chord(code: KeyCode, modifiers: KeyModifiers) -> KeyEvent {
    KeyEvent {
        code,
        modifiers,
    }
}
fn mouse_at(kind: MouseEventKind, col: u16, row: u16) -> MouseEvent {
    MouseEvent {
        kind,
        column: col,
        row,
    }
}
fn mouse_down(col: u16, row: u16) -> MouseEvent {
    mouse_at(MouseEventKind::Down(MouseButton::Left), col, row)
}
fn mouse_drag(col: u16, row: u16) -> MouseEvent {
    mouse_at(MouseEventKind::Drag(MouseButton::Left), col, row)
}
fn mouse_up(col: u16, row: u16) -> MouseEvent {
    mouse_at(MouseEventKind::Up(MouseButton::Left), col, row)
}

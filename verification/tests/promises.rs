//! What holds of the board as a whole, on concrete runs of it.

use pinz::app::App;
use pinz::cli::Command;
use pinz::disk::{Change, Disk};
use pinz::files::{FileStore, Folder, PinFile};
use pinz::geometry::GRAIN;
use pinz::git::{SyncOutcome, SyncStatus};
use pinz::input::{
    Event, KeyCode, KeyEvent, KeyEventKind, KeyModifiers, MouseButton, MouseEvent, MouseEventKind,
};
use pinz::merge::merge_pin;
use pinz::model::{same_boards, Board, Color, Note, CASCADE_X, CASCADE_Y};
use pinz::pinfile::{parse_pin, render_pin};
use pinz::session::{
    apply, deletion_failed, due, git_command, persist, push_report, seeds, wait, Chore, ChoreDone, Session, Wait,
};
use pinz::state::Mode;
use pinz::store::{SaveReport, Store, StoreError};
use pinz::view::{Rect, View};

const NONE: KeyModifiers = KeyModifiers { shift: false, control: false, alt: false, sup: false };
const SHIFT: KeyModifiers = KeyModifiers { shift: true, control: false, alt: false, sup: false };
const CONTROL: KeyModifiers = KeyModifiers { shift: false, control: true, alt: false, sup: false };

const VIEWPORT: Rect = Rect {
    x: 0,
    y: 2,
    width: 100,
    height: 30,
};

fn note(id: u64, x: i128, y: i128, title: &str, body: &str) -> Note {
    Note {
        id,
        title: title.to_string(),
        body: body.to_string(),
        x: x * GRAIN,
        y: y * GRAIN,
        z: id as u32,
        color: Color::Yellow,
    }
}

fn board(name: &str, notes: Vec<Note>) -> Board {
    let mut b = Board::new(name);
    b.notes = notes;
    b
}

/// Two worlds, three pins, none over another.
fn worlds() -> Vec<Board> {
    vec![
        board(
            "ideas",
            vec![note(1, 0, 0, "one", "first"), note(2, 300, 0, "two", "second")],
        ),
        board("todo", vec![note(3, 0, 0, "three", "")]),
    ]
}

fn app() -> App {
    let mut a = App::new(worlds());
    a.set_viewport(VIEWPORT);
    a.set_tabs_area(Rect {
        x: 0,
        y: 1,
        width: 100,
        height: 1,
    });
    a
}

fn press(a: &mut App, code: KeyCode, modifiers: KeyModifiers) {
    a.on_key(KeyEvent { code, modifiers });
}

fn type_key(a: &mut App, c: char) {
    press(a, KeyCode::Char(c), NONE);
}

fn mouse(a: &mut App, kind: MouseEventKind, (column, row): (u16, u16)) {
    a.on_mouse(MouseEvent {
        kind,
        column,
        row,
    });
}

fn snapshot(a: &App) -> Vec<Board> {
    a.boards().to_vec()
}

/// The cell in the middle of a pin.
fn cell_on(a: &App, id: u64) -> (u16, u16) {
    let n = a.active_board().notes.iter().find(|n| n.id == id).unwrap();
    let r = View::new(a.camera(), VIEWPORT).note_rect(n.position()).unwrap();
    (r.x + r.width / 2, r.y + r.height / 2)
}

/// Close enough that one hides the other.
fn hides(a: &Note, b: &Note) -> bool {
    (a.x - b.x).abs() < CASCADE_X && (a.y - b.y).abs() < CASCADE_Y
}

fn all_apart(boards: &[Board]) -> bool {
    boards.iter().all(|b| {
        b.notes
            .iter()
            .enumerate()
            .all(|(i, n)| b.notes[i + 1..].iter().all(|m| !hides(n, m)))
    })
}

fn ids(boards: &[Board]) -> Vec<u64> {
    let mut all: Vec<u64> = boards
        .iter()
        .flat_map(|b| b.notes.iter().map(|n| n.id))
        .collect();
    all.sort();
    all
}

// ---- the history ----

#[test]
fn u_and_ctrl_r_walk_the_same_steps() {
    let mut a = app();
    let start = snapshot(&a);
    let (theme, zoom) = (a.theme().name, a.zoom());
    press(&mut a, KeyCode::Right, SHIFT);
    type_key(&mut a, 'c');
    let colored = snapshot(&a);
    assert!(!same_boards(&start, &colored));
    type_key(&mut a, 'u');
    assert!(same_boards(a.boards(), &start));
    assert_eq!((a.theme().name, a.zoom()), (theme, zoom));
    press(&mut a, KeyCode::Char('r'), CONTROL);
    assert!(same_boards(a.boards(), &colored));
    type_key(&mut a, 'u');
    assert!(same_boards(a.boards(), &start));
}

#[test]
fn a_drag_is_taken_back_in_one_step() {
    let mut a = app();
    let start = snapshot(&a);
    let from = cell_on(&a, 1);
    mouse(&mut a, MouseEventKind::Down(MouseButton::Left), from);
    for step in 1..6 {
        mouse(
            &mut a,
            MouseEventKind::Drag(MouseButton::Left),
            (from.0, from.1 + step),
        );
    }
    mouse(&mut a, MouseEventKind::Up(MouseButton::Left), (from.0, from.1 + 5));
    assert!(!same_boards(a.boards(), &start));
    type_key(&mut a, 'u');
    // Raising the pin is part of the gesture, so it is taken back too.
    assert!(same_boards(a.boards(), &start));
}

#[test]
fn opening_a_note_and_closing_it_is_no_step() {
    let mut a = app();
    press(&mut a, KeyCode::Right, SHIFT);
    type_key(&mut a, 'c');
    let colored = snapshot(&a);
    type_key(&mut a, 'e');
    assert_eq!(a.mode(), Mode::Edit);
    press(&mut a, KeyCode::Esc, NONE);
    assert_eq!(a.mode(), Mode::Nav);
    assert!(same_boards(a.boards(), &colored));
    type_key(&mut a, 'u');
    assert!(!same_boards(a.boards(), &colored), "the color, not the visit");
}

// ---- pins keep clear of each other, and are told apart ----

#[test]
fn new_pins_land_clear_and_under_new_ids() {
    let mut a = app();
    for _ in 0..6 {
        type_key(&mut a, 'n');
        press(&mut a, KeyCode::Esc, NONE);
    }
    assert!(all_apart(a.boards()));
    let all = ids(a.boards());
    assert_eq!(all.len(), 9);
    assert!(all.windows(2).all(|w| w[0] < w[1]), "{:?}", all);
}

#[test]
fn a_pin_dropped_on_another_is_moved_off_it() {
    let mut a = app();
    let (from, to) = (cell_on(&a, 1), cell_on(&a, 2));
    mouse(&mut a, MouseEventKind::Down(MouseButton::Left), from);
    mouse(&mut a, MouseEventKind::Drag(MouseButton::Left), to);
    assert!(!all_apart(a.boards()), "it follows the mouse while it is held");
    mouse(&mut a, MouseEventKind::Up(MouseButton::Left), to);
    assert!(all_apart(a.boards()));
    assert_eq!(ids(a.boards()), vec![1, 2, 3]);
}

/// An app with pin 1 held over pin 2.
fn holding_one_over_two() -> App {
    let mut a = app();
    let (from, to) = (cell_on(&a, 1), cell_on(&a, 2));
    mouse(&mut a, MouseEventKind::Down(MouseButton::Left), from);
    mouse(&mut a, MouseEventKind::Drag(MouseButton::Left), to);
    assert!(a.is_dragging());
    assert!(!all_apart(a.boards()));
    a
}

#[test]
fn a_held_pin_settles_when_its_world_is_left() {
    let place = |a: &App| {
        let n = a.boards()[0].notes.iter().find(|n| n.id == 1).unwrap();
        (n.x, n.y)
    };
    for code in [KeyCode::Tab, KeyCode::Char('2')] {
        let mut a = holding_one_over_two();
        let held = place(&a);
        press(&mut a, code, NONE);
        assert_eq!(a.active_board().name, "todo");
        assert!(!a.is_dragging());
        assert!(all_apart(a.boards()));
        let settled = place(&a);
        assert_eq!(settled, (held.0 + CASCADE_X, held.1 + CASCADE_Y));
        type_key(&mut a, 'u');
        assert!(same_boards(a.boards(), &worlds()), "one step with the drag");
    }
}

#[test]
fn a_held_pin_stays_in_hand_while_its_world_is_shown() {
    let mut a = holding_one_over_two();
    type_key(&mut a, '1');
    assert!(a.is_dragging(), "that world is already open");
    type_key(&mut a, 't');
    assert!(a.is_dragging());
    type_key(&mut a, 'u');
    assert!(a.is_dragging(), "there is nothing to undo yet");
}

#[test]
fn a_press_ends_a_drag_that_was_never_released() {
    let mut a = holding_one_over_two();
    mouse(&mut a, MouseEventKind::Down(MouseButton::Left), (99, 31));
    assert!(all_apart(a.boards()));
    mouse(&mut a, MouseEventKind::Up(MouseButton::Left), (99, 31));
    assert!(all_apart(a.boards()));
    assert!(!a.is_dragging());
    type_key(&mut a, 'u');
    assert!(same_boards(a.boards(), &worlds()));
}

#[test]
fn undo_in_the_middle_of_a_drag_leaves_no_pin_hidden() {
    let mut a = app();
    let (from, to) = (cell_on(&a, 1), cell_on(&a, 2));
    type_key(&mut a, 'n');
    press(&mut a, KeyCode::Esc, NONE);
    type_key(&mut a, 'd');
    mouse(&mut a, MouseEventKind::Down(MouseButton::Left), from);
    mouse(&mut a, MouseEventKind::Drag(MouseButton::Left), to);
    type_key(&mut a, 'u');
    assert!(!a.is_dragging());
    assert!(all_apart(a.boards()));
    press(&mut a, KeyCode::Char('r'), CONTROL);
    assert!(all_apart(a.boards()), "redo has it where it settled");
}

#[test]
fn leaving_in_the_middle_of_a_drag_leaves_no_pin_hidden() {
    let mut a = holding_one_over_two();
    type_key(&mut a, 'q');
    assert!(a.should_quit());
    assert!(all_apart(a.boards()));
    let mut a = holding_one_over_two();
    press(&mut a, KeyCode::Char('c'), CONTROL);
    assert!(a.should_quit());
    assert!(all_apart(a.boards()));
}

#[test]
fn a_second_session_puts_back_a_pin_it_let_go() {
    let mut a = app();
    a.set_read_only(true);
    let (from, to) = (cell_on(&a, 1), cell_on(&a, 2));
    mouse(&mut a, MouseEventKind::Down(MouseButton::Left), from);
    mouse(&mut a, MouseEventKind::Drag(MouseButton::Left), to);
    press(&mut a, KeyCode::Tab, NONE);
    assert!(!a.is_dragging());
    assert!(same_boards(a.boards(), &worlds()));
}

// ---- a session that may not write ----

#[test]
fn a_second_session_reads_and_changes_nothing() {
    let session = Session::begin(true, Some(77));
    assert!(!session.sync, "no git under the owner's feet");
    assert!(!session.saves_at_the_end());
    let mut a = session.open(worlds(), None, None);
    a.set_viewport(VIEWPORT);
    assert!(a.read_only());
    assert_eq!(
        a.warning(),
        Some("read-only: pinz 77 owns this board - changes will not be saved")
    );
    let start = snapshot(&a);
    press(&mut a, KeyCode::Right, SHIFT);
    for c in ['n', 'e', 'c', 'C', 'x', 'd', 'u'] {
        type_key(&mut a, c);
    }
    let from = cell_on(&a, 1);
    mouse(&mut a, MouseEventKind::Down(MouseButton::Left), from);
    mouse(&mut a, MouseEventKind::Drag(MouseButton::Left), (from.0 + 9, from.1));
    mouse(&mut a, MouseEventKind::Up(MouseButton::Left), (from.0 + 9, from.1));
    assert!(same_boards(a.boards(), &start));
    assert!(!due(&a, u64::MAX));
}

#[test]
fn a_session_that_turns_read_only_undoes_nothing() {
    let mut a = App::new(vec![Board::new("ideas")]);
    a.set_viewport(VIEWPORT);
    type_key(&mut a, 'n');
    press(&mut a, KeyCode::Esc, NONE);
    a.set_read_only(true);
    type_key(&mut a, 'u');
    assert_eq!(a.boards()[0].notes.len(), 1);
    assert_eq!(a.status(), Some("read-only: another pinz owns this board"));
    a.set_read_only(false);
    type_key(&mut a, 'u');
    assert_eq!(a.boards()[0].notes.len(), 0);
    a.set_read_only(true);
    press(&mut a, KeyCode::Char('r'), CONTROL);
    assert_eq!(a.boards()[0].notes.len(), 0, "nor does it redo");
}

#[test]
fn a_pin_at_the_top_of_the_stack_stops_nothing() {
    let mut boards = worlds();
    boards[0].notes[1].z = u32::MAX;
    let mut a = App::new(boards);
    a.set_viewport(VIEWPORT);
    let from = cell_on(&a, 1);
    let down = Event::Mouse(MouseEvent {
        kind: MouseEventKind::Down(MouseButton::Left),
        column: from.0,
        row: from.1,
    });
    assert!(apply(&mut a, down));
    assert_eq!(a.boards()[0].notes[0].z, u32::MAX, "as high as there is");
    let quit = KeyEvent {
        code: KeyCode::Char('q'),
        modifiers: NONE,
    };
    assert!(apply(
        &mut a,
        Event::Key {
            key: quit,
            kind: KeyEventKind::Press,
        },
    ));
    assert!(a.should_quit());
}

#[test]
fn a_stopped_pull_is_said_and_costs_the_push() {
    let mut session = Session::begin(true, None);
    session.pulled(&SyncOutcome::Done("2 commits".to_string()));
    assert_eq!(session.stop, None);
    assert!(session.close(None, None).push);
    session.pulled(&SyncOutcome::Stopped("conflict in a.md".to_string()));
    let a = session.open(worlds(), None, None);
    assert_eq!(a.warning(), Some("conflict in a.md - local-only this run"));
    assert!(!a.read_only());
    let end = session.close(None, None);
    assert!(!end.push);
    assert!(end.problems.is_empty());
    assert_eq!(end.stop.as_deref(), Some("conflict in a.md"));
}

#[test]
fn a_failed_save_is_said_and_costs_the_push() {
    let session = Session::begin(true, None);
    assert!(session.saves_at_the_end());
    let end = session.close(Some("disk full"), Some("disk gone"));
    assert_eq!(
        end.problems,
        vec!["could not write pins: disk full", "could not write pins: disk gone"]
    );
    assert!(!end.push);
    let without_git = Session::begin(false, None).close(None, None);
    assert!(!without_git.push && without_git.problems.is_empty());
}

#[test]
fn a_session_opens_where_the_last_one_closed() {
    let session = Session::begin(false, None);
    let a = session.open(worlds(), None, Some("todo"));
    assert_eq!(a.active_board().name, "todo");
    let a = session.open(worlds(), None, Some("gone"));
    assert_eq!(a.active_board().name, "ideas");
    let mut a = session.open(Vec::new(), None, None);
    assert_eq!(a.boards().len(), 1, "an empty directory gets its first world");
    a.open_on("nowhere");
    assert_eq!(a.active_index(), 0);
}

// ---- the loop around the board ----

#[test]
fn the_loop_blocks_unless_something_moves() {
    let mut a = App::new(vec![board(
        "wide",
        vec![note(1, 0, 0, "near", ""), note(2, 9000, 0, "far", "")],
    )]);
    a.set_viewport(VIEWPORT);
    assert_eq!(wait(&a), Wait::Block);
    press(&mut a, KeyCode::Right, SHIFT);
    press(&mut a, KeyCode::Right, SHIFT);
    press(&mut a, KeyCode::Left, SHIFT);
    assert_eq!(wait(&a), Wait::Poll, "gliding to a pin out of view");
    let before = snapshot(&a);
    a.tick(u64::MAX);
    assert_eq!(wait(&a), Wait::Block);
    assert!(same_boards(a.boards(), &before));
    type_key(&mut a, 'q');
    assert_eq!(wait(&a), Wait::Quit);
}

#[test]
fn nothing_is_written_in_the_middle_of_a_drag() {
    let mut a = app();
    let saved = a.revision();
    assert!(!due(&a, saved), "nothing changed");
    let from = cell_on(&a, 1);
    let to = (from.0, from.1 + 6);
    mouse(&mut a, MouseEventKind::Down(MouseButton::Left), from);
    mouse(&mut a, MouseEventKind::Drag(MouseButton::Left), to);
    assert!(a.is_dragging());
    assert!(!due(&a, saved));
    mouse(&mut a, MouseEventKind::Up(MouseButton::Left), to);
    assert!(!a.is_dragging());
    assert!(due(&a, saved));
}

#[test]
fn only_key_presses_count() {
    let mut a = app();
    let quit = KeyEvent {
        code: KeyCode::Char('q'),
        modifiers: NONE,
    };
    assert!(a.has_room());
    for kind in [KeyEventKind::Release, KeyEventKind::Repeat] {
        apply(&mut a, Event::Key { key: quit, kind });
        assert!(!a.should_quit());
    }
    apply(&mut a, Event::Other);
    assert!(!a.should_quit());
    apply(
        &mut a,
        Event::Key {
            key: quit,
            kind: KeyEventKind::Press,
        },
    );
    assert!(a.should_quit());
}

#[test]
fn a_world_that_never_reached_the_store_is_no_failure() {
    assert!(deletion_failed(Ok(())).is_none());
    assert!(deletion_failed(Err(StoreError::NotFound("w".to_string()))).is_none());
    let e = deletion_failed(Err(StoreError::Backend("no".to_string()))).unwrap();
    assert_eq!(e.message(), "store backend error: no");
}

// ---- the git subcommands ----

/// Run a subcommand to its end: what it did, in order, and what it said.
fn run(command: Command, repo: bool, pulled: SyncOutcome) -> (Vec<Chore>, Vec<String>) {
    let mut done: Vec<ChoreDone> = Vec::new();
    let mut chores = Vec::new();
    let mut said = Vec::new();
    loop {
        let turn = git_command(command, "/pins", true, false, &done);
        said.extend(turn.say);
        let fine = |m: &str| ChoreDone::Outcome(SyncOutcome::Done(m.to_string()));
        done.push(match turn.next {
            Chore::Finish => return (chores, said),
            Chore::AskRepo => ChoreDone::Repo(repo),
            Chore::Status => ChoreDone::Status(SyncStatus {
                is_repo: true,
                has_remote: true,
                has_upstream: true,
                dirty: 1,
                behind: 2,
                ahead: 0,
            }),
            Chore::Pull => ChoreDone::Outcome(pulled.clone()),
            Chore::RemoteUrl => ChoreDone::Url(Some("git@github.com:me/pins.git".to_string())),
            Chore::Init => fine("ready"),
            Chore::Fetch => fine("fetched"),
            Chore::Commit => fine("1 pin"),
            Chore::Push => fine("pushed"),
        });
        chores.push(turn.next);
        assert!(chores.len() < 20, "{:?}", chores);
    }
}

fn fine_pull() -> SyncOutcome {
    SyncOutcome::Done("2 commits".to_string())
}

#[test]
fn sync_commits_pulls_and_pushes() {
    let (chores, said) = run(Command::Sync, true, fine_pull());
    assert_eq!(
        chores,
        vec![
            Chore::AskRepo,
            Chore::Fetch,
            Chore::Status,
            Chore::Commit,
            Chore::Pull,
            Chore::Push,
            Chore::RemoteUrl,
        ]
    );
    assert_eq!(
        said.last().unwrap(),
        &push_report("pushed", &Some("git@github.com:me/pins.git".to_string()), false)
    );
}

#[test]
fn half_a_sync_does_its_half() {
    let (chores, _) = run(Command::Pull, true, fine_pull());
    assert!(chores.contains(&Chore::Pull) && !chores.contains(&Chore::Push));
    let (chores, _) = run(Command::Push, true, fine_pull());
    assert!(chores.contains(&Chore::Push) && !chores.contains(&Chore::Pull));
}

#[test]
fn status_moves_no_commits() {
    let (chores, said) = run(Command::Status, true, fine_pull());
    assert_eq!(chores, vec![Chore::AskRepo, Chore::Fetch, Chore::Status]);
    assert_eq!(said.len(), 1);
}

#[test]
fn nothing_is_pushed_on_top_of_a_stopped_pull() {
    let (chores, said) = run(Command::Sync, true, SyncOutcome::Stopped("conflict".to_string()));
    assert_eq!(chores.last(), Some(&Chore::Pull));
    assert!(said
        .last()
        .unwrap()
        .contains("stopping here: resolve the conflict above before pushing."));
}

#[test]
fn status_leaves_a_directory_without_a_repo_alone() {
    let (chores, said) = run(Command::Status, false, fine_pull());
    assert_eq!(chores, vec![Chore::AskRepo]);
    assert_eq!(said.len(), 1);
    assert!(said[0].contains("/pins - not a git repo yet"));
    assert!(!seeds(Command::Status, true));
    assert!(seeds(Command::Sync, true));
    assert!(!seeds(Command::Sync, false));
}

#[test]
fn a_directory_without_a_repo_gets_one() {
    let (chores, said) = run(Command::Push, false, fine_pull());
    assert_eq!(chores[..3], [Chore::AskRepo, Chore::Init, Chore::Fetch]);
    assert!(said[0].contains("init") && said[0].contains("ready"));
}

#[test]
fn a_word_names_a_command() {
    assert_eq!(Command::from_word("sync"), Some(Command::Sync));
    assert_eq!(Command::from_word("pull"), Some(Command::Pull));
    assert_eq!(Command::from_word("push"), Some(Command::Push));
    assert_eq!(Command::from_word("status"), Some(Command::Status));
    assert_eq!(Command::from_word("p"), None);
}

// ---- pins on disk ----

/// Save once, and carry the plan out.
fn save(store: &mut FileStore, disk: &mut Disk, boards: &[Board], stamp: &str) -> Vec<String> {
    let plan = store.plan(boards, disk, stamp);
    for change in &plan.changes {
        disk.apply(change);
    }
    store.settle(plan).skipped
}

/// What a plan would touch, folders apart.
fn touched(store: &FileStore, disk: &Disk, boards: &[Board], stamp: &str) -> usize {
    store
        .plan(boards, disk, stamp)
        .changes
        .iter()
        .filter(|c| !matches!(c, Change::MakeFolder { .. }))
        .count()
}

#[test]
fn saving_again_touches_nothing() {
    let mut store = FileStore::open("/pins");
    let mut disk = Disk::new();
    save(&mut store, &mut disk, &worlds(), "2026-08-01-143022");
    assert_eq!(disk.files.len(), 3);
    assert_eq!(touched(&store, &disk, &worlds(), "2027-01-01-000000"), 0);
}

#[test]
fn a_saved_pin_reads_back() {
    let mut store = FileStore::open("/pins");
    let mut disk = Disk::new();
    save(&mut store, &mut disk, &worlds(), "2026-08-01-143022");
    let at = disk.find("ideas", "2026-08-01-143022-two.md").unwrap();
    let text = disk.files[at].text.clone().unwrap();
    let back = parse_pin(&text, 2);
    assert!(back.same(&worlds()[0].notes[1]));
    assert_eq!(render_pin(&back), text);
}

#[test]
fn an_edit_made_outside_survives_a_save() {
    let mut store = FileStore::open("/pins");
    let mut disk = Disk::new();
    let mut boards = worlds();
    save(&mut store, &mut disk, &boards, "2026-08-01-143022");
    let at = disk.find("todo", "2026-08-01-143022-three.md").unwrap();
    disk.files[at].text = Some("# three\n\nwritten elsewhere\n".to_string());
    boards[1].notes[0].body = "written here".to_string();
    let skipped = save(&mut store, &mut disk, &boards, "2026-08-01-150000");
    assert_eq!(skipped.len(), 1);
    assert_eq!(
        disk.files[at].text.as_deref(),
        Some("# three\n\nwritten elsewhere\n")
    );
}

#[test]
fn a_pin_taken_off_a_board_loses_its_file_and_others_stay() {
    let mut store = FileStore::open("/pins");
    let mut disk = Disk::new();
    let mut boards = worlds();
    disk.add_file("ideas".to_string(), "README.txt".to_string(), Some("hello".to_string()));
    save(&mut store, &mut disk, &boards, "2026-08-01-143022");
    boards[0].notes.remove(0);
    save(&mut store, &mut disk, &boards, "2026-08-01-150000");
    assert_eq!(disk.find("ideas", "2026-08-01-143022-one.md"), None);
    assert!(disk.find("ideas", "2026-08-01-143022-two.md").is_some());
    assert!(disk.find("ideas", "README.txt").is_some());
}

#[test]
fn two_pins_never_come_to_one_file() {
    let text = |title: &str| format!("# {}\n\nits body\n", title);
    let pin = |title: &str| PinFile {
        name: "n.md".to_string(),
        text: text(title),
    };
    let folders = vec![
        Folder {
            name: "ideas".to_string(),
            pins: vec![pin("first")],
        },
        Folder {
            name: "sketches".to_string(),
            pins: vec![pin("second")],
        },
    ];
    let mut store = FileStore::open("/pins");
    let mut boards = store.load(&folders);
    let mut disk = Disk::new();
    disk.add_file("ideas".to_string(), "n.md".to_string(), Some(text("first")));
    disk.add_file("sketches".to_string(), "n.md".to_string(), Some(text("second")));
    let moved = boards[0].notes.remove(0);
    boards[1].notes.push(moved);
    save(&mut store, &mut disk, &boards, "2026-08-01-143022");
    assert_eq!(disk.find("ideas", "n.md"), None);
    let read = |name: &str| {
        let at = disk.find("sketches", name).unwrap();
        parse_pin(disk.files[at].text.as_ref().unwrap(), 1).title
    };
    assert_eq!(read("n.md"), "second");
    assert_eq!(read("n-2.md"), "first");
}

#[test]
fn a_file_nobody_loaded_is_not_written_over_by_a_move() {
    let mut store = FileStore::open("/pins");
    let mut disk = Disk::new();
    let mut boards = worlds();
    save(&mut store, &mut disk, &boards, "2026-08-01-143022");
    let name = "2026-08-01-143022-one.md";
    disk.add_file("todo".to_string(), name.to_string(), Some("theirs".to_string()));
    let moved = boards[0].notes.remove(0);
    boards[1].notes.push(moved);
    save(&mut store, &mut disk, &boards, "2026-08-01-150000");
    let at = disk.find("todo", name).unwrap();
    assert_eq!(disk.files[at].text.as_deref(), Some("theirs"));
    assert!(disk.find("todo", "2026-08-01-143022-one-2.md").is_some());
}

/// A store that writes down what it is asked, fails where it is told to, and has
/// never heard of a world named in `unknown`.
struct Diary {
    asked: Vec<String>,
    fails: &'static str,
    unknown: &'static str,
}

impl Diary {
    fn failing_at(fails: &'static str) -> Diary {
        Diary {
            asked: Vec::new(),
            fails,
            unknown: "",
        }
    }

    fn ask(&mut self, what: String) -> Result<(), StoreError> {
        self.asked.push(what);
        let last = self.asked.last().unwrap();
        if last == self.fails {
            return Err(StoreError::Backend(format!("no {}", last)));
        }
        Ok(())
    }
}

impl Store for Diary {
    fn load(&mut self) -> Result<Vec<Board>, StoreError> {
        Ok(Vec::new())
    }

    fn save(&mut self, boards: &[Board]) -> Result<SaveReport, StoreError> {
        let names: Vec<&str> = boards.iter().map(|b| b.name.as_str()).collect();
        self.ask(format!("save {}", names.join(" ")))?;
        Ok(SaveReport {
            skipped: vec!["todo/n.md".to_string()],
        })
    }

    fn delete_board(&mut self, name: &str) -> Result<(), StoreError> {
        self.ask(format!("drop {}", name))?;
        if name == self.unknown {
            return Err(StoreError::NotFound(name.to_string()));
        }
        Ok(())
    }

    fn save_last_world(&mut self, name: &str) -> Result<(), StoreError> {
        self.ask(format!("open {}", name))
    }
}

/// An app that has deleted the world it opened on.
fn after_a_deletion() -> App {
    let mut a = app();
    press(&mut a, KeyCode::Char('W'), SHIFT);
    for c in "ideas".chars() {
        type_key(&mut a, c);
    }
    press(&mut a, KeyCode::Enter, NONE);
    assert_eq!(a.boards().len(), 1, "{:?}", a.status());
    a
}

#[test]
fn dropped_worlds_are_removed_before_the_rest_is_saved() {
    let mut store = Diary::failing_at("");
    assert_eq!(store.load_last_world(), None);
    let mut a = after_a_deletion();
    assert!(persist(&mut a, &mut store).is_ok());
    assert_eq!(store.asked, vec!["drop ideas", "save todo", "open todo"]);
    assert!(persist(&mut a, &mut store).is_ok());
    assert_eq!(store.asked[3..], ["save todo", "open todo"], "once is enough");
}

#[test]
fn nothing_is_asked_after_a_failure() {
    let plan = ["drop ideas", "save todo", "open todo"];
    for (i, fails) in plan.iter().enumerate() {
        let mut store = Diary::failing_at(fails);
        let why = persist(&mut after_a_deletion(), &mut store).unwrap_err();
        assert_eq!(store.asked, plan[..i + 1]);
        assert_eq!(why.message(), format!("store backend error: no {}", fails));
    }
}

#[test]
fn what_the_store_reports_is_handed_on() {
    let mut store = Diary::failing_at("");
    store.unknown = "ideas";
    let report = persist(&mut after_a_deletion(), &mut store).unwrap();
    assert_eq!(report.skipped, vec!["todo/n.md"]);
    assert_eq!(store.asked, vec!["drop ideas", "save todo", "open todo"]);
}

#[test]
fn a_load_tells_pins_apart() {
    let pin = |name: &str| PinFile {
        name: name.to_string(),
        text: "# same\n".to_string(),
    };
    let folders = vec![
        Folder {
            name: "a".to_string(),
            pins: vec![pin("1.md"), pin("2.md")],
        },
        Folder {
            name: "b".to_string(),
            pins: vec![pin("1.md")],
        },
    ];
    let boards = FileStore::open("/pins").load(&folders);
    let all = ids(&boards);
    assert_eq!(all.len(), 3);
    assert!(all.windows(2).all(|w| w[0] < w[1]));
}

#[test]
fn a_pin_at_the_edge_of_the_map_leaves_room() {
    let text = "---\nx: 1e300\ny: -inf\n---\n# far\n".to_string();
    let folders = vec![Folder {
        name: "a".to_string(),
        pins: vec![PinFile {
            name: "1.md".to_string(),
            text,
        }],
    }];
    let boards = FileStore::open("/pins").load(&folders);
    let edge = (1i128 << 63) * GRAIN;
    assert_eq!((boards[0].notes[0].x, boards[0].notes[0].y), (edge, -edge));
    let mut a = App::new(boards);
    a.set_viewport(VIEWPORT);
    assert!(a.has_room());
    type_key(&mut a, 'n');
    assert!(a.has_room());
}

// ---- merging ----

#[test]
fn a_side_that_did_not_change_yields() {
    let base = render_pin(&note(1, 0, 0, "one", "first"));
    let moved = render_pin(&note(1, 50, 60, "one", "first"));
    assert_eq!(merge_pin(Some(&base), &moved, &base), Some(moved.clone()));
    assert_eq!(merge_pin(Some(&base), &base, &moved), Some(moved));
}

#[test]
fn two_different_texts_are_never_guessed_between() {
    let base = render_pin(&note(1, 0, 0, "one", "first"));
    let here = render_pin(&note(1, 0, 0, "one", "here"));
    let there = render_pin(&note(1, 0, 0, "one", "there"));
    assert_eq!(merge_pin(Some(&base), &there, &here), None);
    assert_eq!(merge_pin(Some(&base), &here, &there), None);
    assert_eq!(merge_pin(None, &here, &there), None);
    assert_eq!(merge_pin(Some(&base), &here, &here), Some(here));
}

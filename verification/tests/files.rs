//! Pins as files: their text, their names, and what a save does to a directory.

use pinz::disk::{Change, Disk};
use pinz::files::{board_dirs, pin_files, warn_of_skipped, Entry, FileStore, Folder, PinFile};
use pinz::geometry::GRAIN;
use pinz::model::{Board, Color, Note};
use pinz::naming::{civil_from_days, slug, timestamp_prefix, SLUG_MAX};
use pinz::pinfile::{parse_pin, render_pin};
use pinz::store::{SaveReport, StoreError};

/// A distance in world units, in the grains the board counts in.
fn grains(units: f64) -> i128 {
    (units * GRAIN as f64).round() as i128
}

fn note(id: u64, title: &str, body: &str) -> Note {
    Note {
        id,
        title: title.to_string(),
        body: body.to_string(),
        x: grains(120.0),
        y: grains(110.0),
        z: 3,
        color: Color::Green,
    }
}

fn board(name: &str, notes: Vec<Note>) -> Board {
    Board {
        name: name.to_string(),
        notes,
    }
}

/// A pin directory that exists only for as long as a test does.
struct Root {
    folders: Vec<String>,
    disk: Disk,
}

impl Root {
    fn new() -> Self {
        Root {
            folders: Vec::new(),
            disk: Disk::new(),
        }
    }

    fn folder(&mut self, name: &str) {
        if !self.folders.iter().any(|f| f == name) {
            self.folders.push(name.to_string());
        }
    }

    fn write(&mut self, board: &str, name: &str, text: &str) {
        self.carry_out(&Change::Write {
            board: board.to_string(),
            name: name.to_string(),
            text: text.to_string(),
        });
    }

    fn carry_out(&mut self, change: &Change) {
        match change {
            Change::MakeFolder { board } | Change::Write { board, .. } => self.folder(board),
            Change::RemoveFolder { board } => self.folders.retain(|f| f != board),
            Change::Remove { .. } => {}
        }
        self.disk.apply(change);
    }

    fn text(&self, board: &str, name: &str) -> Option<String> {
        let at = self.disk.find(board, name)?;
        self.disk.files[at].text.clone()
    }

    fn has(&self, board: &str, name: &str) -> bool {
        self.disk.find(board, name).is_some()
    }

    /// Save as the runner does: plan, carry the plan out, and settle. Says what
    /// the plan was, too.
    fn save_with(
        &mut self,
        store: &mut FileStore,
        boards: &[Board],
        stamp: &str,
    ) -> (SaveReport, usize) {
        let plan = store.plan(boards, &self.disk, stamp);
        let touched = plan
            .changes
            .iter()
            .filter(|c| !matches!(c, Change::MakeFolder { .. }))
            .count();
        for change in &plan.changes {
            self.carry_out(change);
        }
        (store.settle(plan), touched)
    }

    fn save(&mut self, store: &mut FileStore, boards: &[Board]) -> SaveReport {
        self.save_with(store, boards, "2026-08-01-143022").0
    }

    fn load(&self, store: &mut FileStore) -> Vec<Board> {
        let mut entries: Vec<Entry> = self
            .folders
            .iter()
            .map(|f| Entry {
                name: f.clone(),
                is_dir: true,
            })
            .collect();
        entries.push(Entry {
            name: "a-stray-file".to_string(),
            is_dir: false,
        });
        let folders: Vec<Folder> = board_dirs(&entries)
            .into_iter()
            .map(|name| {
                let names: Vec<String> = self
                    .disk
                    .files
                    .iter()
                    .filter(|f| f.board == name)
                    .map(|f| f.name.clone())
                    .collect();
                let pins = pin_files(&names)
                    .into_iter()
                    .map(|pin| PinFile {
                        text: self.text(&name, &pin).unwrap(),
                        name: pin,
                    })
                    .collect();
                Folder { name, pins }
            })
            .collect();
        store.load(&folders)
    }
}

fn file_of(store: &FileStore, id: u64) -> (String, String) {
    let held = store.held.iter().find(|h| h.id == id).expect("a held pin");
    (held.board.clone(), held.name.clone())
}

#[test]
fn a_pin_round_trips_through_its_file() {
    let n = note(
        1,
        "buy a new lamp",
        "The one by the desk flickers.\n\nSecond para.",
    );
    let parsed = parse_pin(&render_pin(&n), 1);
    assert_eq!(parsed, n);
}

#[test]
fn rendered_pin_has_frontmatter_then_an_h1() {
    let text = render_pin(&note(1, "Hello", "body"));
    assert_eq!(
        text,
        "---\nx: 120\ny: 110\nz: 3\ncolor: green\n---\n# Hello\n\nbody\n"
    );
}

#[test]
fn a_bodyless_pin_round_trips() {
    let n = note(7, "Just a title", "");
    let parsed = parse_pin(&render_pin(&n), 7);
    assert_eq!(parsed.title, "Just a title");
    assert_eq!(parsed.body, "");
}

#[test]
fn a_hand_written_file_without_frontmatter_still_loads() {
    // Someone drops a plain markdown file into a board directory. It should
    // become a pin at the origin, not break the board.
    let parsed = parse_pin("# Scribbled\n\nsome text\n", 4);
    assert_eq!(parsed.title, "Scribbled");
    assert_eq!(parsed.body, "some text");
    assert_eq!((parsed.x, parsed.y, parsed.z), (0, 0, 0));
    assert_eq!(parsed.color, Color::Yellow);
}

#[test]
fn an_unknown_color_falls_back_rather_than_failing() {
    let parsed = parse_pin("---\ncolor: chartreuse\n---\n# t\n", 1);
    assert_eq!(parsed.color, Color::Yellow);
}

#[test]
fn save_then_load_round_trips_through_disk() {
    let mut root = Root::new();
    let mut store = FileStore::open("/pins");
    let boards = vec![
        board("ideas", vec![note(1, "First", "one"), note(2, "Second", "two")]),
        board("sketches", vec![note(3, "Third", "")]),
    ];
    root.save(&mut store, &boards);

    let mut fresh = FileStore::open("/pins");
    let loaded = root.load(&mut fresh);
    assert_eq!(loaded.len(), 2);
    assert_eq!(loaded[0].name, "ideas");
    assert_eq!(loaded[1].name, "sketches");
    let titles: Vec<&str> = loaded[0].notes.iter().map(|n| n.title.as_str()).collect();
    assert_eq!(titles, ["First", "Second"]);
    assert_eq!(loaded[0].notes[0].x, grains(120.0));
    assert_eq!(loaded[0].notes[0].color, Color::Green);
}

#[test]
fn an_unchanged_save_does_not_touch_the_file() {
    let mut root = Root::new();
    let mut store = FileStore::open("/pins");
    let boards = vec![board("ideas", vec![note(1, "Same", "body")])];
    let (_, touched) = root.save_with(&mut store, &boards, "2026-08-01-143022");
    assert_eq!(touched, 1, "the first save writes the pin");
    let (_, touched) = root.save_with(&mut store, &boards, "2026-08-01-143023");
    assert_eq!(touched, 0, "an identical save should not rewrite the file");
}

#[test]
fn deleting_a_pin_deletes_its_file() {
    let mut root = Root::new();
    let mut store = FileStore::open("/pins");
    let mut boards = vec![board("ideas", vec![note(1, "Keep", ""), note(2, "Drop", "")])];
    root.save(&mut store, &boards);
    let (in_board, dropped) = file_of(&store, 2);
    assert!(root.has(&in_board, &dropped));

    boards[0].notes.retain(|n| n.id != 2);
    root.save(&mut store, &boards);
    assert!(!root.has(&in_board, &dropped), "the removed pin's file should be gone");
    let (in_board, kept) = file_of(&store, 1);
    assert!(root.has(&in_board, &kept), "the kept pin should survive");
}

#[test]
fn a_file_the_store_never_loaded_is_left_alone() {
    let mut root = Root::new();
    root.write("ideas", "somebody-elses.md", "# not ours\n");

    let mut store = FileStore::open("/pins");
    // Save without ever loading, so the file is unknown to this store.
    root.save(&mut store, &[board("ideas", vec![note(1, "Ours", "")])]);
    assert_eq!(
        root.text("ideas", "somebody-elses.md").as_deref(),
        Some("# not ours\n"),
        "never delete what we did not load"
    );
}

#[test]
fn moving_a_pin_to_another_board_moves_its_file() {
    let mut root = Root::new();
    let mut store = FileStore::open("/pins");
    root.save(
        &mut store,
        &[
            board("ideas", vec![note(1, "Travels", "")]),
            board("sketches", vec![]),
        ],
    );
    let (from, name) = file_of(&store, 1);
    assert_eq!(from, "ideas");

    root.save(
        &mut store,
        &[
            board("ideas", vec![]),
            board("sketches", vec![note(1, "Travels", "")]),
        ],
    );
    assert!(!root.has(&from, &name), "the old file should be gone");
    let (to, name) = file_of(&store, 1);
    assert!(root.has(&to, &name));
    assert_eq!(to, "sketches");
}

#[test]
fn an_emptied_board_keeps_a_marker_so_it_survives_a_sync() {
    let mut root = Root::new();
    let mut store = FileStore::open("/pins");
    root.save(&mut store, &[board("ideas", vec![])]);
    assert!(root.has("ideas", ".gitkeep"));

    let mut fresh = FileStore::open("/pins");
    let loaded = root.load(&mut fresh);
    assert_eq!(loaded.len(), 1, "the empty board still shows up");
    assert!(loaded[0].notes.is_empty());
}

#[test]
fn hidden_directories_are_not_boards() {
    let mut root = Root::new();
    root.folder(".git");
    root.folder("ideas");
    let mut store = FileStore::open("/pins");
    let loaded = root.load(&mut store);
    assert_eq!(loaded.len(), 1);
    assert_eq!(loaded[0].name, "ideas");
}

#[test]
fn slug_is_filename_safe_and_bounded() {
    assert_eq!(slug("Buy a new lamp"), "buy-a-new-lamp");
    assert_eq!(slug("  weird///chars!! "), "weird-chars");
    assert_eq!(slug("åäö"), "untitled", "non-ascii collapses away");
    assert_eq!(slug(""), "untitled");
    assert!(slug(&"x".repeat(200)).len() <= SLUG_MAX);
}

#[test]
fn timestamp_prefix_matches_a_known_epoch_second() {
    // Values cross-checked against `date -u -r <secs>`.
    assert_eq!(timestamp_prefix(1_785_594_622), "2026-08-01-143022");
    assert_eq!(timestamp_prefix(1_785_508_222), "2026-07-31-143022");
    // The epoch itself, and a leap day.
    assert_eq!(timestamp_prefix(0), "1970-01-01-000000");
    assert_eq!(timestamp_prefix(1_709_164_800), "2024-02-29-000000");
}

// ---- what a save keeps ----

#[test]
fn a_file_changed_behind_our_back_is_left_alone_and_reported() {
    let mut root = Root::new();
    let mut store = FileStore::open("/pins");
    let mut boards = vec![board("ideas", vec![note(1, "Mine", "old")])];
    root.save(&mut store, &boards);
    let (in_board, name) = file_of(&store, 1);
    root.write(&in_board, &name, "# Mine\n\nedited in vim\n");

    boards[0].notes[0].body = "edited in pinz".to_string();
    let report = root.save(&mut store, &boards);
    assert_eq!(report.skipped.len(), 1, "{report:?}");
    assert_eq!(
        root.text(&in_board, &name).as_deref(),
        Some("# Mine\n\nedited in vim\n")
    );
    let warning = warn_of_skipped(&report.skipped).expect("a skipped pin is worth a word");
    assert!(warning.contains(&report.skipped[0]), "{warning}");
    assert_eq!(warn_of_skipped(&[]), None);
}

#[test]
fn a_saved_pin_reads_back_as_it_was() {
    let mut root = Root::new();
    let mut store = FileStore::open("/pins");
    let boards = vec![board("ideas", vec![note(1, "Kept", "one\n\n# two")])];
    root.save(&mut store, &boards);
    let mut fresh = FileStore::open("/pins");
    assert_eq!(root.load(&mut fresh), boards);
}

#[test]
fn two_new_pins_of_one_second_get_two_files() {
    let mut root = Root::new();
    let mut store = FileStore::open("/pins");
    root.save(
        &mut store,
        &[board("ideas", vec![note(1, "Twin", "a"), note(2, "Twin", "b")])],
    );
    let (first, second) = (file_of(&store, 1), file_of(&store, 2));
    assert_ne!(first, second);
    assert_eq!(first.1, "2026-08-01-143022-twin.md");
    assert!(root.text(&first.0, &first.1).unwrap().contains("\na\n"));
    assert!(root.text(&second.0, &second.1).unwrap().contains("\nb\n"));
}

#[test]
fn pins_load_in_name_order_and_only_from_markdown() {
    let names: Vec<String> = ["b.md", "a.md", ".hidden.md", "notes.txt", "c.md"]
        .iter()
        .map(|s| s.to_string())
        .collect();
    let picked = pin_files(&names);
    let want: Vec<&str> = picked
        .iter()
        .map(String::as_str)
        .filter(|n| n.ends_with(".md"))
        .collect();
    assert_eq!(want.len(), picked.len(), "{picked:?}");
    let mut sorted = picked.clone();
    sorted.sort();
    assert_eq!(picked, sorted);
    assert!(picked.iter().any(|n| n == "a.md"));
    assert!(!picked.iter().any(|n| n == "notes.txt"));
}

#[test]
fn deleting_a_board_takes_its_directory_and_a_missing_one_is_not_found() {
    let mut root = Root::new();
    let mut store = FileStore::open("/pins");
    root.save(
        &mut store,
        &[board("ideas", vec![note(1, "Stays", "")]), board("scratch", vec![note(2, "Goes", "")])],
    );
    let change = store.delete_board("scratch", &root.folders).unwrap();
    root.carry_out(&change);
    assert_eq!(root.folders, ["ideas"]);
    assert!(!root.disk.files.iter().any(|f| f.board == "scratch"));
    assert!(matches!(
        store.delete_board("scratch", &root.folders),
        Err(StoreError::NotFound(name)) if name == "scratch"
    ));
}

#[test]
fn the_default_root_prefers_what_it_was_told() {
    let some = |s: &str| Some(s.to_string());
    assert_eq!(
        FileStore::default_root(some("/elsewhere"), some("/home/x")).as_deref(),
        Some("/elsewhere")
    );
    assert_eq!(
        FileStore::default_root(None, some("/home/x")).as_deref(),
        Some("/home/x/pinz-board")
    );
    assert_eq!(FileStore::default_root(None, None), None);
    assert_eq!(FileStore::open("/pins").root(), "/pins");
}

#[test]
fn days_count_from_the_epoch_in_both_directions() {
    assert_eq!(civil_from_days(0), (1970, 1, 1));
    assert_eq!(civil_from_days(-1), (1969, 12, 31));
    assert_eq!(civil_from_days(19_782), (2024, 2, 29));
}

#[test]
fn a_position_between_units_is_written_rounded() {
    let mut n = note(1, "t", "");
    n.x = grains(120.4);
    n.y = grains(-3.6);
    let text = render_pin(&n);
    assert!(text.contains("x: 120\n") && text.contains("y: -4\n"), "{text}");
    assert_eq!(render_pin(&parse_pin(&text, 1)), text, "rendering is stable");
}

#[test]
fn a_coordinate_may_be_written_with_decimals() {
    let parsed = parse_pin("---\nx: 1.5\ny: -2\nz: 4\ncolor: blue\n---\n# t\n", 1);
    assert_eq!((parsed.x, parsed.y, parsed.z), (grains(1.5), grains(-2.0), 4));
    assert_eq!(parsed.color, Color::Blue);
}

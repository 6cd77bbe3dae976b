//! The runner around the board: arguments, reports, and events on their way in.

use pinz::app::App;
use pinz::cli::{help_text, Command, Options};
use pinz::disk::Disk;
use pinz::files::{FileStore, Folder, PinFile};
use pinz::git::SyncOutcome;
use pinz::input::{Event, KeyCode, KeyEvent, KeyEventKind, KeyModifiers};
use pinz::model::Board;
use pinz::release::Version;
use pinz::report::{
    detail_line, divider_line, problem_line, push_message, releases_url, remote_advice,
    report_line, short_remote, version_report, BLUE, BOLD, CYAN, GREEN, LABEL, RESET, WHITE,
};
use pinz::session::{apply, copy_failed, deliver_copy, first_board, persist, FIRST_BOARD};
use pinz::store::{MemoryStore, Store};
use pinz::view::Rect;

const NONE: KeyModifiers = KeyModifiers { shift: false, control: false, alt: false, sup: false };
const SHIFT: KeyModifiers = KeyModifiers { shift: true, control: false, alt: false, sup: false };
const CONTROL: KeyModifiers = KeyModifiers { shift: false, control: true, alt: false, sup: false };

fn press(code: KeyCode, modifiers: KeyModifiers) -> Event {
    Event::Key {
        key: KeyEvent { code, modifiers },
        kind: KeyEventKind::Press,
    }
}

/// An app with a fresh note open in the editor.
fn editing_app() -> App {
    let mut store = MemoryStore::seeded();
    let mut app = App::new(store.load().unwrap());
    app.set_viewport(Rect {
        x: 0,
        y: 2,
        width: 100,
        height: 30,
    });
    apply(&mut app, press(KeyCode::Char('n'), NONE));
    app
}

/// An app that has just copied its whole note.
fn copied_app() -> App {
    let mut app = editing_app();
    apply(&mut app, press(KeyCode::Char('a'), CONTROL));
    apply(&mut app, press(KeyCode::Char('c'), CONTROL));
    app
}

#[test]
fn a_paste_event_reaches_the_editor() {
    let mut app = editing_app();
    apply(&mut app, Event::Paste("pasted".to_string()));
    assert!(app.editor().unwrap().text().ends_with("pasted"));
}

#[test]
fn a_key_release_is_ignored() {
    let mut app = editing_app();
    let before = app.editor().unwrap().text();
    apply(
        &mut app,
        Event::Key {
            key: KeyEvent {
                code: KeyCode::Char('z'),
                modifiers: NONE,
            },
            kind: KeyEventKind::Release,
        },
    );
    assert_eq!(
        app.editor().unwrap().text(),
        before,
        "a release must not type"
    );
}

/// A board with one world you can delete and one you cannot, and an app
/// looking at the second.
fn app_on_a_spare_world(store: &mut MemoryStore) -> App {
    store
        .save(&[Board::new("ideas"), Board::new("scratch")])
        .unwrap();
    let mut app = App::new(store.load().unwrap());
    apply(&mut app, press(KeyCode::Char('2'), NONE));
    app
}

#[test]
fn a_deleted_world_leaves_the_store_before_the_save_can_rewrite_it() {
    let mut store = MemoryStore::empty();
    let mut app = app_on_a_spare_world(&mut store);
    apply(&mut app, press(KeyCode::Char('W'), SHIFT));

    persist(&mut app, &mut store).unwrap();

    let names: Vec<String> = store.load().unwrap().into_iter().map(|b| b.name).collect();
    assert_eq!(names, ["ideas"]);
}

#[test]
fn a_world_that_never_reached_the_store_is_not_a_failed_save() {
    // Made and deleted between two saves, so the store never heard of it.
    let mut store = MemoryStore::empty();
    store.save(&[Board::new("ideas")]).unwrap();
    let mut app = App::new(store.load().unwrap());
    apply(&mut app, press(KeyCode::Char('w'), NONE));
    for c in "scratch".chars() {
        apply(&mut app, press(KeyCode::Char(c), NONE));
    }
    apply(&mut app, press(KeyCode::Enter, NONE));
    apply(&mut app, press(KeyCode::Char('2'), NONE));
    apply(&mut app, press(KeyCode::Char('W'), SHIFT));

    assert!(persist(&mut app, &mut store).is_ok());
    let names: Vec<String> = store.load().unwrap().into_iter().map(|b| b.name).collect();
    assert_eq!(names, ["ideas"]);
}

#[test]
fn a_pending_copy_is_written_to_the_terminal_exactly_once() {
    let mut app = copied_app();
    let mut out: Vec<u8> = Vec::new();
    deliver_copy(&mut out, &mut app);
    assert!(!out.is_empty(), "the escape should have been written");
    out.clear();
    deliver_copy(&mut out, &mut app);
    assert!(out.is_empty(), "a copy is delivered exactly once");
}

#[test]
fn nothing_is_written_when_nothing_was_copied() {
    let mut app = editing_app();
    let mut out: Vec<u8> = Vec::new();
    deliver_copy(&mut out, &mut app);
    assert!(out.is_empty());
}

#[test]
fn a_failed_copy_is_reported_rather_than_swallowed() {
    let mut app = copied_app();
    let mut out: Vec<u8> = Vec::new();
    deliver_copy(&mut out, &mut app);
    // The terminal would not take what was written.
    copy_failed(&mut app, "no terminal");
    assert!(
        app.status().is_some_and(|s| s.contains("copy failed")),
        "{:?}",
        app.status()
    );
}

fn parse(args: &[&str]) -> Options {
    let args: Vec<String> = args.iter().map(|s| s.to_string()).collect();
    Options::parse(&args)
}

#[test]
fn a_bare_word_is_a_theme() {
    let o = parse(&["nord"]);
    assert_eq!(o.command, Command::Run);
    assert_eq!(o.theme.as_deref(), Some("nord"));
    assert!(o.sync, "sync is on by default");
}

#[test]
fn sync_is_a_command_not_a_theme() {
    let o = parse(&["sync"]);
    assert_eq!(o.command, Command::Sync);
    assert_eq!(o.theme, None, "\"sync\" must not be read as a theme name");
}

#[test]
fn every_git_subcommand_resolves() {
    for (word, expected) in [
        ("sync", Command::Sync),
        ("status", Command::Status),
        ("st", Command::Status),
        ("pull", Command::Pull),
        ("push", Command::Push),
    ] {
        let o = parse(&[word]);
        assert_eq!(o.command, expected, "{word:?} should be {expected:?}");
        assert_eq!(o.theme, None, "{word:?} must not be read as a theme");
    }
}

#[test]
fn only_the_read_only_command_may_be_abbreviated() {
    // A short alias is allowed only where misreading it costs nothing. "s"
    // and "up" are the dangerous ones: both could be taken for a command
    // other than the one they would run, and both move commits.
    for word in ["s", "up", "down", "sy", "pu"] {
        let o = parse(&[word]);
        assert_eq!(
            o.command,
            Command::Run,
            "{word:?} must not be a shortcut for anything that moves commits"
        );
    }
    assert_eq!(
        parse(&["st"]).command,
        Command::Status,
        "st is read-only, so it may be short"
    );
}

#[test]
fn a_word_that_is_not_a_subcommand_is_still_a_theme() {
    // The aliases must not swallow theme names.
    for theme in ["nord", "gruvbox", "light", "mocha", "tokyo"] {
        let o = parse(&[theme]);
        assert_eq!(
            o.command,
            Command::Run,
            "{theme:?} should just open the board"
        );
        assert_eq!(o.theme.as_deref(), Some(theme));
    }
}

#[test]
fn advice_leads_with_cloning_because_adding_a_remote_cannot_merge() {
    // The order is the whole point: `remote add origin` against a board that
    // already exists elsewhere fuses two unrelated histories, and git
    // refuses that merge. Whoever reads only the first suggestion must read
    // the one that is safe either way.
    let advice = remote_advice("/home/x/pinz-board", false);
    let clone = advice.find("git clone").expect("cloning must be offered");
    let create = advice
        .find("gh repo create")
        .expect("creating a remote must be offered");
    assert!(clone < create, "cloning has to come first:\n{advice}");
}

#[test]
fn advice_names_the_board_it_is_talking_about() {
    let advice = remote_advice("/tmp/scratch-board", false);
    assert!(
        advice.contains("/tmp/scratch-board"),
        "advice must be copy-pasteable:\n{advice}"
    );
}

#[test]
fn a_board_pinz_just_made_says_so() {
    // Someone who expected their pins to be here needs to know the directory
    // is new, not that their notes vanished.
    let fresh = remote_advice("/home/x/pinz-board", true);
    assert!(
        fresh.contains("new"),
        "a created board must announce itself:\n{fresh}"
    );

    let existing = remote_advice("/home/x/pinz-board", false);
    assert!(
        !existing.contains("new"),
        "a board pinz did not create must not claim to be new:\n{existing}"
    );
}

#[test]
fn flags_parse_in_any_order() {
    let o = parse(&["--no-sync", "--theme", "gruvbox"]);
    assert!(!o.sync);
    assert_eq!(o.theme.as_deref(), Some("gruvbox"));

    let o = parse(&["light", "--no-sync"]);
    assert!(!o.sync);
    assert_eq!(o.theme.as_deref(), Some("light"));
}

#[test]
fn help_wins_over_a_theme() {
    assert_eq!(parse(&["--help"]).command, Command::Help);
    assert_eq!(parse(&["help"]).command, Command::Help);
}

#[test]
fn version_is_reportable_every_way_it_is_usually_asked_for() {
    for word in ["version", "--version", "-V"] {
        assert_eq!(parse(&[word]).command, Command::Version, "{word:?}");
    }
    assert!(help_text("0.4.1").starts_with("pinz 0.4.1"));
}

/// The repository is passed in rather than read from the manifest, so
/// these assert on wording and not on whatever pinz is published as today.
const REPO: &str = "https://github.com/Gaurgle/pinz";

fn version(major: u32, minor: u32, patch: u32) -> Version {
    Version {
        major,
        minor,
        patch,
    }
}

#[test]
fn the_version_report_names_the_build_and_the_release_it_matches() {
    assert_eq!(
        version_report("0.4.0", Some(version(0, 4, 0)), REPO),
        "pinz    0.4.0\nlatest  0.4.0  (Gaurgle/pinz)\nup to date"
    );
}

#[test]
fn a_build_behind_the_release_is_told_where_to_get_the_new_one() {
    let report = version_report("0.4.0", Some(version(0, 5, 0)), REPO);
    assert!(report.contains("latest  0.5.0"), "{report}");
    assert!(
        report.ends_with("a newer release is out: https://github.com/Gaurgle/pinz/releases/latest"),
        "{report}"
    );
}

#[test]
fn a_build_ahead_of_the_release_is_named_as_unreleased() {
    // The 2026-08-27 state: 0.4.1 in the manifest, v0.4.0 the newest tag.
    let report = version_report("0.4.1", Some(version(0, 4, 0)), REPO);
    assert!(report.ends_with("ahead: this build is not released yet"), "{report}");
}

#[test]
fn an_unreachable_remote_still_reports_the_running_build() {
    let report = version_report("0.4.1", None, REPO);
    assert_eq!(
        report,
        "pinz    0.4.1\nlatest  unknown  (could not reach Gaurgle/pinz)"
    );
    // No standing line: with one number there is nothing to compare, and
    // both "up to date" and "behind" would be inventions.
    assert_eq!(report.lines().count(), 2);
}

#[test]
fn a_releases_url_survives_a_trailing_slash_or_a_git_suffix() {
    let expected = "https://github.com/Gaurgle/pinz/releases/latest";
    assert_eq!(releases_url("https://github.com/Gaurgle/pinz"), expected);
    assert_eq!(releases_url("https://github.com/Gaurgle/pinz/"), expected);
    assert_eq!(releases_url("https://github.com/Gaurgle/pinz.git"), expected);
}

#[test]
fn no_arguments_just_runs() {
    let o = parse(&[]);
    assert_eq!(o.command, Command::Run);
    assert_eq!(o.theme, None);
    assert!(o.sync, "sync is on unless turned off");
}

#[test]
fn a_fresh_board_starts_with_one_blank_pin() {
    let board = first_board();
    assert_eq!(board.name, FIRST_BOARD);
    assert_eq!(board.notes.len(), 1, "one pin, ready to be written on");
    assert_eq!(board.notes[0].title, "");
    assert_eq!(board.notes[0].body, "");
}

#[test]
fn a_pin_written_in_the_app_survives_a_round_trip_through_disk() {
    let mut disk = Disk::new();
    let mut store = FileStore::open("/pins");

    let mut app = App::new(vec![Board::new("ideas")]);
    app.set_viewport(Rect {
        x: 0,
        y: 2,
        width: 100,
        height: 30,
    });
    let press = |code| KeyEvent {
        code,
        modifiers: NONE,
    };

    let before = app.revision();
    app.on_key(press(KeyCode::Char('n'))); // new pin, opens the editor
                                           // ctrl+u clears the placeholder title, as it would in the app
    app.on_key(KeyEvent {
        code: KeyCode::Char('u'),
        modifiers: CONTROL,
    });
    for c in "buy milk".chars() {
        app.on_key(press(KeyCode::Char(c)));
    }
    app.on_key(press(KeyCode::Enter));
    for c in "oat, not soy".chars() {
        app.on_key(press(KeyCode::Char(c)));
    }
    app.on_key(press(KeyCode::Esc)); // save the edit
    assert!(
        app.revision() > before,
        "the runner would now write to disk"
    );

    let plan = store.plan(app.boards(), &disk, "2026-08-01-143022");
    for change in &plan.changes {
        disk.apply(change);
    }
    store.settle(plan);

    // A fresh store, as a different machine (or the next launch) would see it.
    let pins = disk
        .files
        .iter()
        .filter(|f| f.board == "ideas" && f.name.ends_with(".md"))
        .map(|f| PinFile {
            name: f.name.clone(),
            text: f.text.clone().unwrap(),
        })
        .collect();
    let mut fresh = FileStore::open("/pins");
    let boards = fresh.load(&[Folder {
        name: "ideas".to_string(),
        pins,
    }]);
    assert_eq!(boards.len(), 1);
    assert_eq!(boards[0].name, "ideas");
    assert_eq!(boards[0].notes.len(), 1);
    let pin = &boards[0].notes[0];
    assert_eq!(pin.title, "buy milk");
    assert_eq!(pin.body, "oat, not soy");
}

// The lines pinz prints around the TUI, on the way in and on the way out.
// Each is built as a string rather than printed, so its shape can be
// checked with no terminal attached.

#[test]
fn a_finished_step_lines_its_name_up_in_a_column() {
    let done = report_line("push", &SyncOutcome::Done("2 commits".into()), false);
    let longer = report_line("commit", &SyncOutcome::Done("1 pin".into()), false);
    assert_eq!(done, "  \u{2713} push    2 commits");
    assert_eq!(
        done.find("2 commits"),
        longer.find("1 pin"),
        "messages start in the same column whatever the step is called"
    );
}

#[test]
fn nothing_to_do_is_not_dressed_up_as_success() {
    let line = report_line("pull", &SyncOutcome::Idle("already current".into()), false);
    assert!(
        line.starts_with("  \u{b7}"),
        "idle must not wear the done glyph: {line:?}"
    );
}

#[test]
fn a_stop_is_marked_as_one() {
    let line = report_line("push", &SyncOutcome::Stopped("rejected".into()), false);
    assert!(line.starts_with("  \u{2717}"), "{line:?}");
}

#[test]
fn painting_tints_the_step_and_leaves_the_message_alone() {
    let line = report_line("push", &SyncOutcome::Done("2 commits".into()), true);
    assert!(line.contains(GREEN), "a done step is green: {line:?}");
    assert!(
        line.ends_with("2 commits"),
        "git's own words stay unpainted: {line:?}"
    );
    assert_eq!(
        line.matches(RESET).count(),
        1,
        "every escape is closed, or the tint bleeds into the next line: {line:?}"
    );
}

#[test]
fn an_unpainted_line_carries_no_escapes() {
    let line = report_line("push", &SyncOutcome::Done("2 commits".into()), false);
    assert!(
        !line.contains('\u{1b}'),
        "piped output must stay clean: {line:?}"
    );
}

#[test]
fn a_problem_sits_in_the_block_like_a_step() {
    let line = problem_line("could not write pins: disk full", false);
    assert_eq!(line, "  \u{2717} could not write pins: disk full");
}

#[test]
fn a_detail_joins_the_block_and_keeps_its_own_shape() {
    assert_eq!(
        detail_line("no remote yet:\n  clone it", false),
        "  no remote yet:\n    clone it",
        "the block's indent adds to the text's own, it does not flatten it"
    );
    let painted = detail_line("in sync", true);
    assert!(
        painted.starts_with(BLUE) && painted.ends_with(RESET),
        "informational text reads as one voice: {painted:?}"
    );
}

#[test]
fn every_line_of_a_painted_detail_closes_its_own_escape() {
    let painted = detail_line("one\ntwo\nthree", true);
    assert_eq!(
        painted.lines().count(),
        painted.matches(RESET).count(),
        "a tint left open would bleed down the page: {painted:?}"
    );
}

#[test]
fn the_rule_spans_the_width_it_is_given_and_says_whose_block_it_is() {
    let rule = divider_line(40, false);
    assert_eq!(rule.chars().count(), 40, "a divider divides the whole width");
    assert!(rule.contains(LABEL), "{rule:?}");
    assert!(!rule.contains('\u{1b}'), "a piped run gets a plain rule");
}

#[test]
fn the_rule_survives_a_terminal_too_narrow_to_hold_it() {
    let rule = divider_line(2, false);
    assert!(rule.contains(LABEL), "the label outranks the rule: {rule:?}");
}

#[test]
fn a_painted_rule_closes_every_escape_it_opens() {
    let rule = divider_line(40, true);
    assert!(rule.ends_with(RESET), "{rule:?}");
    assert_eq!(
        rule.matches(BOLD).count(),
        1,
        "only the label is bold: {rule:?}"
    );
}

#[test]
fn the_rule_is_furniture_and_the_name_is_not() {
    let rule = divider_line(40, true);
    let name = rule.find(LABEL).expect("the rule is labelled");
    assert!(
        rule[..name].ends_with(&format!("{BOLD}{BLUE}")),
        "the name is the blue pinz answers to: {rule:?}"
    );
    assert!(
        rule.starts_with(WHITE),
        "the rule itself stays neutral: {rule:?}"
    );
}

#[test]
fn a_remote_url_shortens_to_the_name_a_human_would_say() {
    for url in [
        "git@github.com:Gaurgle/pinz-board.git",
        "https://github.com/Gaurgle/pinz-board.git",
        "https://github.com/Gaurgle/pinz-board",
        "ssh://git@github.com/Gaurgle/pinz-board.git/",
    ] {
        assert_eq!(short_remote(url), "Gaurgle/pinz-board", "{url}");
    }
}

#[test]
fn a_remote_that_is_a_directory_keeps_enough_of_the_path_to_place_it() {
    assert_eq!(short_remote("/Volumes/backup/pinz-board.git"), "backup/pinz-board");
    assert_eq!(short_remote("pinz-board.git"), "pinz-board");
}

#[test]
fn a_remote_pinz_cannot_read_is_shown_as_it_is_rather_than_swallowed() {
    assert_eq!(short_remote(""), "");
    assert_eq!(short_remote("::"), "::");
}

#[test]
fn a_push_says_where_it_went_in_a_tint_of_its_own() {
    let plain = push_message("pushed", Some("Gaurgle/pinz-board"), false);
    assert_eq!(plain, "pushed to Gaurgle/pinz-board");

    let painted = push_message("pushed", Some("Gaurgle/pinz-board"), true);
    assert!(painted.contains(CYAN), "the destination is tinted: {painted:?}");
    assert!(painted.ends_with(RESET), "{painted:?}");
    assert!(
        painted.starts_with("pushed to"),
        "git's own wording still leads: {painted:?}"
    );
}

#[test]
fn a_push_with_nowhere_to_report_says_only_what_git_said() {
    assert_eq!(push_message("pushed", None, true), "pushed");
}

//! Exact values: what each formula gives on inputs worked out by hand.

use pinz::app::keys::motion_for;
use pinz::app::prompts::validate_board_name;
use pinz::app::App;
use pinz::chrome::prompt_box;
use pinz::clipboard::{base64, copy, osc52, CopyError, MAX_BYTES};
use pinz::coord::{parse_coordinate, to_units, EDGE};
use pinz::editor::Motion;
use pinz::geometry::{floor_div, Camera, Projection, WorldPoint, ZoomLevel, GRAIN};
use pinz::git::SyncOutcome;
use pinz::input::{KeyCode, KeyEvent, KeyModifiers};
use pinz::last_world::{load_last_world, save_last_world, settle_world, world_file_name};
use pinz::model::{Board, Color, Note, ParseColorError};
use pinz::naming::{civil_from_days, slug, timestamp_prefix};
use pinz::paint::Tint;
use pinz::palette::shade;
use pinz::pinfile::{parse_pin, render_pin};
use pinz::report::{mark, rule_width, DIM, FALLBACK_WIDTH, GREEN, RED};
use pinz::screen::{drawing_order, grid, header_halves, panes, scrollbars, thumb};
use pinz::store::{seed_boards, StoreError};
use pinz::text::{
    digits, join_strings, lowered, occurs_in, parse_upto, push_decimal, push_signed, push_wide,
    split_strings, stands_at, string_of, trimmed, trimmed_end, trimmed_start,
};
use pinz::theme::{note_color, Rgb};
use pinz::view::{pitch, Rect, View, CELL_PARTS};

const NONE: KeyModifiers = KeyModifiers { shift: false, control: false, alt: false, sup: false };

fn chars(s: &str) -> Vec<char> {
    s.chars().collect()
}

fn at(x: i128, y: i128) -> WorldPoint {
    WorldPoint {
        x: x * GRAIN,
        y: y * GRAIN,
    }
}

fn camera(zoom: ZoomLevel) -> Camera {
    Camera {
        origin: at(0, 0),
        zoom,
    }
}

fn rect(x: u16, y: u16, width: u16, height: u16) -> Rect {
    Rect { x, y, width, height }
}

fn note(id: u64, x: i128, y: i128, z: u32, body: &str) -> Note {
    Note {
        id,
        title: format!("pin {}", id),
        body: body.to_string(),
        x: x * GRAIN,
        y: y * GRAIN,
        z,
        color: Color::Yellow,
    }
}

/// An app on one board, zoomed all the way in.
fn close_up(notes: Vec<Note>) -> App {
    let mut board = Board::new("one");
    board.notes = notes;
    let mut app = App::new(vec![board]);
    app.set_viewport(rect(0, 2, 100, 30));
    while app.zoom() != ZoomLevel::Document {
        app.on_key(KeyEvent {
            code: KeyCode::Char('+'),
            modifiers: NONE,
        });
    }
    app
}

// ---- the layout of the screen ----

#[test]
fn the_screen_is_cut_into_strips() {
    let p = panes(rect(3, 5, 80, 24));
    assert_eq!(p.header, rect(3, 5, 80, 1));
    assert_eq!(p.tabs, rect(3, 6, 80, 1));
    assert_eq!(p.board, rect(3, 7, 80, 21));
    assert_eq!(p.footer, rect(3, 28, 80, 1));
}

#[test]
fn the_smallest_screen_that_fits_everything() {
    let p = panes(rect(0, 0, 40, 6));
    assert_eq!(p.board, rect(0, 2, 40, 3));
    assert_eq!(p.footer, rect(0, 5, 40, 1));
}

#[test]
fn strips_of_a_tiny_screen_stay_inside_it() {
    for height in 0..6 {
        let area = rect(2, 3, 10, height);
        let p = panes(area);
        for r in [p.header, p.tabs, p.board, p.footer] {
            assert!(r.y >= 3 && r.y + r.height <= 3 + height, "{:?} of {}", r, height);
            assert!(r.x >= 2 && r.x + r.width <= 12);
        }
    }
}

#[test]
fn the_header_keeps_ten_columns_for_the_dots() {
    let (name, dots) = header_halves(rect(3, 5, 80, 1));
    assert_eq!(name, rect(3, 5, 70, 1));
    assert_eq!(dots, rect(73, 5, 10, 1));
}

#[test]
fn the_grid_is_every_48_units() {
    // A cell is 5 units wide and 10 tall fully zoomed in, so the lines are 9.6
    // columns and 4.8 rows apart.
    let (cols, rows) = grid(camera(ZoomLevel::Document), rect(0, 0, 20, 6)).unwrap();
    assert_eq!(cols, vec![0, 9, 19]);
    assert_eq!(rows, vec![0, 4]);
}

#[test]
fn the_grid_slides_with_the_camera() {
    let mut cam = camera(ZoomLevel::Document);
    cam.origin = at(24, -24);
    let (cols, rows) = grid(cam, rect(0, 0, 20, 6)).unwrap();
    // The next line is 24 units on: 4.8 columns, 2.4 rows.
    assert_eq!(cols, vec![4, 14]);
    assert_eq!(rows, vec![2]);
}

#[test]
fn a_grid_too_dense_to_read_is_left_out() {
    assert!(grid(camera(ZoomLevel::Cluster), rect(0, 0, 20, 6)).is_none());
}

#[test]
fn scrollbars_show_the_share_in_view() {
    // 4200 x 3150 units of pins, 500 x 300 of them in view from the middle.
    let app = close_up(vec![note(1, 0, 0, 1, ""), note(2, 4000, 3000, 2, "")]);
    let (down, across) = scrollbars(&app, app.viewport());
    assert_eq!(down, Some((14, 3)));
    assert_eq!(across, Some((44, 12)));
}

#[test]
fn a_board_that_fits_has_no_scrollbars() {
    let app = close_up(vec![note(1, 0, 0, 1, "")]);
    assert_eq!(scrollbars(&app, app.viewport()), (None, None));
    let empty = close_up(Vec::new());
    assert_eq!(scrollbars(&empty, empty.viewport()), (None, None));
}

#[test]
fn a_thumb_is_the_share_of_the_text_in_view() {
    let body = vec!["x"; 30].join("\n");
    let app = close_up(vec![note(1, 0, 0, 1, &body), note(2, 300, 0, 2, "short")]);
    let (height, rows) = app.text_extent(1).unwrap();
    assert_eq!(height, 13, "a pin is 15 rows, borders and all");
    assert_eq!(rows, 32, "the title, a blank, and a row per line");
    // 13 of 32 rows on a track of 13: 5.28 cells.
    assert_eq!(thumb(&app, 1), Some((0, 5)));
    assert_eq!(thumb(&app, 2), None, "its text fits");
    assert_eq!(thumb(&app, 99), None, "no such pin");
}

#[test]
fn pins_are_drawn_from_the_bottom_up() {
    let pins = vec![
        note(1, 0, 0, 7, ""),
        note(2, 0, 0, 2, ""),
        note(3, 0, 0, 7, ""),
        note(4, 0, 0, 1, ""),
    ];
    assert_eq!(drawing_order(&pins), vec![3, 1, 0, 2]);
}

#[test]
fn of_two_pins_as_high_the_later_is_grabbed() {
    let mut board = Board::new("one");
    board.notes = vec![note(1, 0, 0, 7, ""), note(2, 10, 10, 7, "")];
    assert_eq!(board.index_at(at(50, 50)), Some(1));
    assert_eq!(board.index_at(at(5, 5)), Some(0), "only the first is there");
    assert_eq!(board.index_at(at(-1, 0)), None);
}

#[test]
fn a_prompt_is_in_the_middle_of_its_area() {
    let area = rect(0, 0, 80, 24);
    assert_eq!(prompt_box(area), rect(18, 9, 44, 6));
}

// ---- the projection ----

#[test]
fn a_cell_is_so_many_units_at_each_zoom() {
    assert_eq!(pitch(ZoomLevel::Document), (5 * GRAIN, 10 * GRAIN));
    // 1 / (0.68 * 0.2) units, which is 7.35.. of them.
    assert_eq!(pitch(ZoomLevel::Preview), (52_500, 105_000));
    assert_eq!(pitch(ZoomLevel::Titles), (85_000, 170_000));
    assert_eq!(pitch(ZoomLevel::Cluster), (148_750, 297_500));
}

#[test]
fn a_note_is_40_by_15_cells_fully_zoomed_in() {
    let v = View::new(camera(ZoomLevel::Document), rect(0, 0, 80, 24));
    assert_eq!(v.note_size(), (40 * CELL_PARTS, 15 * CELL_PARTS));
    assert_eq!(v.scale(), (10_000, 5_000));
    let far = View::new(camera(ZoomLevel::Cluster), rect(0, 0, 80, 24));
    // 9.6 by 3.6 cells.
    assert_eq!(far.note_size(), (96 * CELL_PARTS / 10, 36 * CELL_PARTS / 10));
}

#[test]
fn sizes_scale_by_zoom_and_aspect() {
    let p = Projection::new(camera(ZoomLevel::Document), 100);
    let (w, h) = p.scale_size(3 * GRAIN, 7 * GRAIN);
    let squashed = Projection::new(camera(ZoomLevel::Document), 50);
    assert_eq!(squashed.scale_size(3 * GRAIN, 7 * GRAIN), (w, h / 2));
}

#[test]
fn division_rounds_down() {
    assert_eq!(floor_div(7, 2), 3);
    assert_eq!(floor_div(-7, 2), -4);
    assert_eq!(floor_div(-8, 2), -4);
}

// ---- colors ----

#[test]
fn the_palettes_are_what_they_are_named_after() {
    assert_eq!(shade(0, Tint::Base), Rgb { r: 0x1e, g: 0x1e, b: 0x2e });
    assert_eq!(shade(0, Tint::Note(Color::Yellow)), Rgb { r: 0xf9, g: 0xe2, b: 0xaf });
    assert_eq!(shade(4, Tint::Base), Rgb { r: 0xfd, g: 0xf6, b: 0xe3 });
    for c in Color::ALL {
        assert_eq!(shade(0, Tint::Note(c)), note_color(c));
    }
}

#[test]
fn a_color_that_is_none_is_refused() {
    assert_eq!(Color::parse("mauve"), Ok(Color::Mauve));
    assert_eq!(Color::parse("chartreuse"), Err(ParseColorError));
    assert_eq!(ParseColorError.message(), "not a note color");
}

// ---- text ----

#[test]
fn numbers_are_spelled_in_decimal() {
    let mut out = Vec::new();
    push_decimal(&mut out, 0);
    push_signed(&mut out, -42);
    push_wide(&mut out, 340_282_366_920_938_463_463_374_607_431_768_211_455);
    assert_eq!(string_of(&out), "0-42340282366920938463463374607431768211455");
    assert_eq!(digits(0), 1);
    assert_eq!(digits(99), 2);
    assert_eq!(digits(100), 3);
}

#[test]
fn a_number_is_read_up_to_its_bound() {
    assert_eq!(parse_upto(&chars("255"), 255), Some(255));
    assert_eq!(parse_upto(&chars("256"), 255), None);
    assert_eq!(parse_upto(&chars("18446744073709551615"), u64::MAX), Some(u64::MAX));
    assert_eq!(parse_upto(&chars("18446744073709551616"), u64::MAX), None);
    assert_eq!(parse_upto(&chars(""), 9), None);
    assert_eq!(parse_upto(&chars("-1"), 9), None);
}

#[test]
fn texts_are_cut_and_joined() {
    assert_eq!(split_strings("a,,b,", ','), vec!["a", "", "b", ""]);
    assert_eq!(split_strings("", ','), vec![""]);
    let parts = vec!["x".to_string(), String::new(), "y".to_string()];
    assert_eq!(join_strings(&parts, '\n'), "x\n\ny");
    assert_eq!(trimmed(&chars(" \ta b\n ")), chars("a b"));
    assert_eq!(trimmed_end(&chars(" a ")), chars(" a"));
    assert_eq!(trimmed_start(&chars(" a ")), chars("a "));
    assert_eq!(lowered(&chars("AbZ-9")), chars("abz-9"));
    assert!(stands_at(&chars("bc"), &chars("abcd"), 1));
    assert!(!stands_at(&chars("bc"), &chars("abcd"), 2));
    assert!(occurs_in(&chars("cd"), &chars("abcd")));
    assert!(!occurs_in(&chars("ce"), &chars("abcd")));
}

#[test]
fn coordinates_are_read_as_typed() {
    assert_eq!(parse_coordinate("120"), Some(120 * GRAIN));
    assert_eq!(parse_coordinate("-1.5"), Some(-3 * GRAIN / 2));
    assert_eq!(parse_coordinate("1e2"), Some(100 * GRAIN));
    assert_eq!(parse_coordinate("+.25"), Some(GRAIN / 4));
    assert_eq!(parse_coordinate("twelve"), None);
    assert_eq!(parse_coordinate(""), None);
    assert_eq!(parse_coordinate("1e99"), Some(EDGE * GRAIN));
}

#[test]
fn coordinates_are_written_to_the_nearest_unit() {
    assert_eq!(to_units(120 * GRAIN), 120);
    assert_eq!(to_units(GRAIN / 2), 1, "halves go away from zero");
    assert_eq!(to_units(-GRAIN / 2), -1);
    assert_eq!(to_units(GRAIN / 2 - 1), 0);
}

#[test]
fn a_pin_far_out_reads_back() {
    // As far as a number with a fraction can still tell whole units apart, and
    // as far as a file's whole number goes.
    for units in [2_i128.pow(53), -2_i128.pow(53), 200_000_000_000_000, i64::MAX as i128, i64::MIN as i128] {
        let pin = note(1, units, -(units + 1) / 2, 1, "out here");
        assert_eq!(parse_pin(&render_pin(&pin), 1), pin);
    }
}

#[test]
fn a_pin_past_the_last_unit_is_written_at_it() {
    assert_eq!(to_units(EDGE * GRAIN), i64::MAX);
    assert_eq!(to_units(i128::MAX), i64::MAX);
    assert_eq!(to_units(i128::MIN), i64::MIN);
}

#[test]
fn a_blank_after_the_closing_fence_loses_no_text() {
    let pin = parse_pin("---\nx: 7\n--- \n# keep\n\nme\n", 1);
    assert_eq!((pin.title.as_str(), pin.body.as_str()), ("keep", "me"));
    assert_eq!(pin.x, 7 * GRAIN);
}

#[test]
fn text_on_the_line_of_the_closing_fence_is_kept() {
    let pin = parse_pin("---\nx: 7\n---- hello\nthere\n", 1);
    assert_eq!((pin.title.as_str(), pin.body.as_str()), ("- hello", "there"));
    let bare = parse_pin("---\nx: 7\n---", 1);
    assert_eq!((bare.title.as_str(), bare.body.as_str()), ("", ""));
}

#[test]
fn no_day_is_skipped() {
    // A leap day, the end of a year, a century that is no leap year, and days
    // as far out as there are.
    assert_eq!(civil_from_days(11_016), (2000, 2, 29));
    assert_eq!(civil_from_days(11_017), (2000, 3, 1));
    assert_eq!(civil_from_days(-1), (1969, 12, 31));
    assert_eq!(civil_from_days(-25_509), (1900, 2, 28));
    assert_eq!(civil_from_days(-25_508), (1900, 3, 1));
    for z in [i64::MIN, i64::MAX - 1, 1 << 60] {
        let (a, b) = (civil_from_days(z), civil_from_days(z + 1));
        assert!(a < b);
    }
}

#[test]
fn stamps_are_in_utc() {
    assert_eq!(timestamp_prefix(0), "1970-01-01-000000");
    // The last second of a leap day.
    assert_eq!(timestamp_prefix(951_868_799), "2000-02-29-235959");
    assert_eq!(timestamp_prefix(951_868_800), "2000-03-01-000000");
}

#[test]
fn a_later_stamp_sorts_later() {
    let moments = [0, 59, 60, 3_599, 86_399, 86_400, 951_868_799, 951_868_800, 1_785_594_622];
    for pair in moments.windows(2) {
        let (a, b) = (timestamp_prefix(pair[0]), timestamp_prefix(pair[1]));
        assert!(a + "-zebra" < b + "-ant");
    }
}

#[test]
fn a_slug_is_safe_in_a_file_name() {
    assert_eq!(slug("Buy a NEW lamp!"), "buy-a-new-lamp");
    assert_eq!(slug("../../etc"), "etc");
}

// ---- the clipboard ----

#[test]
fn base64_pads_to_groups_of_four() {
    assert_eq!(base64(b""), "");
    assert_eq!(base64(b"M"), "TQ==");
    assert_eq!(base64(b"Ma"), "TWE=");
    assert_eq!(base64(b"Man"), "TWFu");
    assert_eq!(base64(&[0xfb, 0xff, 0xfe]), "+//+");
}

#[test]
fn a_text_too_long_to_copy_is_refused_whole() {
    let fits = "a".repeat(MAX_BYTES);
    assert!(osc52(&fits).is_some());
    let mut out = vec![b'>'];
    let long = "a".repeat(MAX_BYTES + 1);
    let refused = copy(&mut out, &long).unwrap_err();
    assert_eq!(refused, CopyError::TooMuch { bytes: 102_401 });
    assert_eq!(
        refused.message(),
        "too much text to copy (102401 bytes, limit 102400)"
    );
    assert_eq!(out, vec![b'>'], "nothing partial reaches the terminal");
    assert!(copy(&mut out, "hi").is_ok());
    assert_eq!(out, b">\x1b]52;c;aGk=\x07".to_vec());
}

// ---- the store and the last world ----

#[test]
fn store_errors_say_what_is_wrong() {
    assert_eq!(StoreError::NotFound("todo".to_string()).message(), "not found: todo");
    assert_eq!(
        StoreError::Backend("disk full".to_string()).message(),
        "store backend error: disk full"
    );
}

#[test]
fn the_demo_has_three_boards() {
    let boards = seed_boards();
    let names: Vec<&str> = boards.iter().map(|b| b.name.as_str()).collect();
    assert_eq!(names, vec!["ideas", "sketches", "todo"]);
    assert_eq!(boards.iter().map(|b| b.notes.len()).sum::<usize>(), 9);
}

#[test]
fn the_open_world_is_recorded_and_read_back() {
    assert_eq!(world_file_name(), ".pinz-world");
    let text = save_last_world(None, "todo", 42).unwrap();
    assert_eq!(text, "world: todo\nat: 42\n");
    assert_eq!(load_last_world(Some(&text)).as_deref(), Some("todo"));
    assert_eq!(load_last_world(None), None);
    assert_eq!(load_last_world(Some("world: todo\n")), None, "since when?");
    assert_eq!(load_last_world(Some("at: 42\n")), None, "which one?");
}

#[test]
fn staying_in_a_world_writes_nothing() {
    let text = save_last_world(None, "todo", 42).unwrap();
    assert_eq!(save_last_world(Some(&text), "todo", 99), None);
    assert_eq!(
        save_last_world(Some(&text), "ideas", 99).as_deref(),
        Some("world: ideas\nat: 99\n")
    );
    assert_eq!(
        save_last_world(Some("garbage"), "todo", 99).as_deref(),
        Some("world: todo\nat: 99\n")
    );
}

#[test]
fn the_later_switch_of_worlds_wins() {
    let early = "world: a\nat: 10\n";
    let late = "world: b\nat: 20\n";
    assert_eq!(settle_world(early, late), late);
    assert_eq!(settle_world(late, early), late);
    assert_eq!(settle_world("world: c\nat: 10\n", early), early, "local on a tie");
    assert_eq!(settle_world(late, "garbage"), "garbage");
}

// ---- what a terminal is told ----

#[test]
fn a_rule_is_as_wide_as_the_terminal() {
    assert_eq!(rule_width(Some(120)), 120);
    assert_eq!(rule_width(None), FALLBACK_WIDTH);
}

#[test]
fn outcomes_carry_a_mark() {
    assert_eq!(mark(&SyncOutcome::Done(String::new())), ("\u{2713}", GREEN));
    assert_eq!(mark(&SyncOutcome::Idle(String::new())), ("\u{b7}", DIM));
    assert_eq!(mark(&SyncOutcome::Stopped(String::new())), ("\u{2717}", RED));
}

#[test]
fn arrows_move_by_letter_word_or_line() {
    assert_eq!(motion_for(KeyCode::Char('x'), false, false, false), None);
    assert_eq!(motion_for(KeyCode::Left, false, false, false), Some(Motion::Left));
    assert_eq!(motion_for(KeyCode::Left, false, true, false), Some(Motion::LeftWord));
    assert_eq!(motion_for(KeyCode::Right, true, false, false), Some(Motion::RightWord));
    assert_eq!(motion_for(KeyCode::Right, false, false, true), Some(Motion::End));
    assert_eq!(motion_for(KeyCode::Char('f'), false, true, false), Some(Motion::RightWord));
}

#[test]
fn a_world_needs_a_name_that_can_be_a_directory() {
    assert_eq!(validate_board_name("ideas"), Ok(()));
    assert_eq!(validate_board_name(""), Err("give it a name".to_string()));
    assert_eq!(
        validate_board_name(".git"),
        Err("cannot start with a dot".to_string())
    );
    assert_eq!(
        validate_board_name("a/b"),
        Err("no slashes - a world is one directory".to_string())
    );
}

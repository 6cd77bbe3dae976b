//! Laying text out in rows, and finding the way between text and rows.

use pinz::editor::Cursor;
use pinz::wrap::wrap;

#[test]
fn wrap_keeps_all_characters_and_bounds_the_width() {
    let lines = vec!["hello world foo".to_string()];
    let w = wrap(&lines, 8);
    let joined: String = w.rows.iter().map(|r| r.text.as_str()).collect();
    assert_eq!(joined, "hello world foo", "no characters lost to wrapping");
    assert!(w.rows.iter().all(|r| r.text.chars().count() <= 8));
}

#[test]
fn wrap_labels_title_vs_body_rows_and_keeps_blanks() {
    let lines = vec!["title".to_string(), String::new(), "body".to_string()];
    let w = wrap(&lines, 20);
    assert_eq!(w.rows.len(), 3, "blank line is preserved");
    assert_eq!(w.rows[0].line, 0, "row 0 is the title line");
    assert_eq!(w.rows[2].line, 2);
}

#[test]
fn wrap_hard_breaks_a_word_longer_than_the_width() {
    let lines = vec!["antidisestablishmentarianism".to_string()];
    let w = wrap(&lines, 10);
    assert_eq!(w.rows[0].text, "antidisest");
    assert_eq!(w.rows[1].start, 10);
}

#[test]
fn wrap_counts_characters_not_bytes() {
    let lines = vec!["ååååå ööööö".to_string()];
    let w = wrap(&lines, 6);
    assert!(w.rows.iter().all(|r| r.text.chars().count() <= 6));
    let joined: String = w.rows.iter().map(|r| r.text.as_str()).collect();
    assert_eq!(joined, "ååååå ööööö");
}

#[test]
fn place_maps_a_cursor_inside_the_first_row() {
    let lines = vec!["hello world foo".to_string()];
    let w = wrap(&lines, 8);
    assert_eq!(w.place(Cursor { row: 0, col: 3 }), (0, 3));
}

#[test]
fn place_tracks_a_cursor_at_the_very_end() {
    let lines = vec!["hello world foo".to_string()];
    let w = wrap(&lines, 8);
    assert_eq!(w.place(Cursor { row: 0, col: 15 }), (2, 3));
}

#[test]
fn place_finds_a_cursor_on_a_later_logical_line() {
    let lines = vec!["title".to_string(), String::new(), "body".to_string()];
    let w = wrap(&lines, 20);
    assert_eq!(w.place(Cursor { row: 2, col: 4 }), (2, 4));
    assert_eq!(w.place(Cursor { row: 1, col: 0 }), (1, 0), "the blank line");
}

#[test]
fn place_at_a_wrap_boundary_lands_on_the_start_of_the_next_row() {
    let lines = vec!["hello world foo".to_string()];
    let w = wrap(&lines, 8);
    // "hello " is row 0, so column 6 is the first character of row 1.
    assert_eq!(w.place(Cursor { row: 0, col: 6 }), (1, 0));
}

#[test]
fn locate_inverts_place() {
    let lines = vec!["hello world foo".to_string(), "second line".to_string()];
    let w = wrap(&lines, 8);
    for (row, line) in lines.iter().enumerate() {
        for col in 0..=line.chars().count() {
            let c = Cursor { row, col };
            let (vr, vc) = w.place(c);
            assert_eq!(w.locate(vr, vc), c, "round trip failed for {c:?}");
        }
    }
}

#[test]
fn locate_clamps_a_click_past_the_end_of_a_row() {
    let lines = vec!["ab".to_string()];
    let w = wrap(&lines, 8);
    assert_eq!(w.locate(0, 99), Cursor { row: 0, col: 2 });
}

#[test]
fn locate_clamps_a_click_below_the_last_row() {
    let lines = vec!["ab".to_string(), "cd".to_string()];
    let w = wrap(&lines, 8);
    assert_eq!(w.locate(99, 0), Cursor { row: 1, col: 0 });
}

#[test]
fn a_zero_width_does_not_panic_or_lose_the_row() {
    let w = wrap(&["ab".to_string()], 0);
    assert!(!w.rows.is_empty());
    assert_eq!(w.locate(0, 0), Cursor { row: 0, col: 0 });
}

#[test]
fn empty_input_still_has_one_row_to_put_a_caret_on() {
    let w = wrap(&[], 8);
    assert_eq!(w.rows.len(), 1);
    assert_eq!(w.place(Cursor { row: 0, col: 0 }), (0, 0));
}

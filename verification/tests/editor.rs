//! The note editor: caret, selection and edits.

use pinz::editor::{Cursor, Motion, TextEditor};

#[test]
fn new_places_cursor_at_the_end() {
    let e = TextEditor::new("hi\nthere");
    assert_eq!(e.cursor(), Cursor { row: 1, col: 5 });
    assert_eq!(e.text(), "hi\nthere");
}

#[test]
fn empty_input_is_one_empty_line() {
    let e = TextEditor::new("");
    assert_eq!(e.lines(), &[String::new()]);
    assert_eq!(e.cursor(), Cursor { row: 0, col: 0 });
}

#[test]
fn newline_splits_and_backspace_merges() {
    let mut e = TextEditor::new("abcd");
    e.left();
    e.left(); // between b and c
    e.insert_newline();
    assert_eq!(e.text(), "ab\ncd");
    assert_eq!(e.cursor(), Cursor { row: 1, col: 0 });
    e.backspace(); // merge the two lines back
    assert_eq!(e.text(), "abcd");
    assert_eq!(e.cursor(), Cursor { row: 0, col: 2 });
}

#[test]
fn insert_and_delete_within_a_line() {
    let mut e = TextEditor::new("ac");
    e.left(); // between a and c
    e.insert_char('b');
    assert_eq!(e.text(), "abc");
    e.left(); // before b
    e.delete(); // removes b
    assert_eq!(e.text(), "ac");
}

#[test]
fn delete_at_line_end_pulls_up_next_line() {
    let mut e = TextEditor::new("ab\ncd");
    e.up();
    e.end(); // end of "ab"
    e.delete();
    assert_eq!(e.text(), "abcd");
}

#[test]
fn movement_clamps_at_edges() {
    let mut e = TextEditor::new("hi\nthere");
    e.up(); // row 0, col clamped to len("hi") == 2
    assert_eq!(e.cursor(), Cursor { row: 0, col: 2 });
    e.up(); // already at top, stays
    assert_eq!(e.cursor().row, 0);
    e.home();
    e.left(); // at (0,0), nowhere to go
    assert_eq!(e.cursor(), Cursor { row: 0, col: 0 });
}

#[test]
fn handles_non_ascii() {
    let mut e = TextEditor::new("åä");
    e.insert_char('ö');
    assert_eq!(e.text(), "åäö");
    e.backspace();
    e.backspace();
    assert_eq!(e.text(), "å");
}

#[test]
fn delete_word_removes_a_word_and_its_leading_spaces() {
    let mut e = TextEditor::new("foo bar baz");
    e.delete_word(); // cursor at end -> "baz"
    assert_eq!(e.text(), "foo bar ");
    e.delete_word(); // trailing space then "bar"
    assert_eq!(e.text(), "foo ");
}

#[test]
fn delete_word_at_column_zero_merges_with_previous_line() {
    let mut e = TextEditor::new("ab\ncd");
    e.home(); // column 0 of "cd"
    e.delete_word();
    assert_eq!(e.text(), "abcd");
}

#[test]
fn word_movement_steps_over_words_and_across_lines() {
    let mut e = TextEditor::new("foo bar baz");
    e.left_word();
    assert_eq!(e.cursor(), Cursor { row: 0, col: 8 }, "start of \"baz\"");
    e.left_word();
    assert_eq!(e.cursor(), Cursor { row: 0, col: 4 }, "start of \"bar\"");
    e.right_word();
    assert_eq!(e.cursor(), Cursor { row: 0, col: 7 }, "end of \"bar\"");

    // At an edge, word movement degrades to a plain step across the break.
    let mut e = TextEditor::new("ab\ncd");
    e.home();
    e.left_word();
    assert_eq!(e.cursor(), Cursor { row: 0, col: 2 });
    e.right_word();
    assert_eq!(e.cursor(), Cursor { row: 1, col: 0 });
}

#[test]
fn kill_line_clears_the_current_line() {
    let mut e = TextEditor::new("hello");
    e.kill_line();
    assert_eq!(e.text(), "");
    assert_eq!(e.cursor(), Cursor { row: 0, col: 0 });
}

// ---- selection ----

#[test]
fn a_fresh_editor_has_no_selection() {
    let e = TextEditor::new("hello");
    assert_eq!(e.selection(), None);
    assert_eq!(e.selected_text(), None);
}

#[test]
fn moving_without_extend_selects_nothing() {
    let mut e = TextEditor::new("hello");
    e.step(Motion::Left, false);
    e.step(Motion::Left, false);
    assert_eq!(e.selection(), None);
    assert_eq!(e.cursor(), Cursor { row: 0, col: 3 });
}

#[test]
fn extending_left_selects_back_from_the_anchor() {
    let mut e = TextEditor::new("hello"); // cursor at the end
    e.step(Motion::Left, true);
    e.step(Motion::Left, true);
    assert_eq!(e.selected_text().as_deref(), Some("lo"));
}

#[test]
fn selection_is_ordered_even_when_the_anchor_is_after_the_cursor() {
    let mut e = TextEditor::new("hello");
    e.step(Motion::Left, true); // anchor 5, cursor 4
    let (start, end) = e.selection().unwrap();
    assert_eq!(start, Cursor { row: 0, col: 4 });
    assert_eq!(end, Cursor { row: 0, col: 5 });
}

#[test]
fn a_selection_spans_lines() {
    let mut e = TextEditor::new("ab\ncd"); // cursor at (1, 2)
    e.step(Motion::Up, true); // (0, 2)
    assert_eq!(e.selected_text().as_deref(), Some("\ncd"));
    e.step(Motion::Home, true); // (0, 0)
    assert_eq!(e.selected_text().as_deref(), Some("ab\ncd"));
}

#[test]
fn moving_without_extend_collapses_an_existing_selection() {
    let mut e = TextEditor::new("hello");
    e.step(Motion::Left, true);
    e.step(Motion::Left, true);
    assert!(e.selection().is_some());
    e.step(Motion::Left, false);
    assert_eq!(e.selection(), None);
}

#[test]
fn an_anchor_on_the_cursor_is_not_a_selection() {
    let mut e = TextEditor::new("hello");
    e.step(Motion::Left, true);
    e.step(Motion::Right, true); // back where it started
    assert_eq!(e.selection(), None);
}

#[test]
fn select_all_covers_the_whole_buffer() {
    let mut e = TextEditor::new("ab\ncd");
    e.select_all();
    assert_eq!(e.selected_text().as_deref(), Some("ab\ncd"));
}

#[test]
fn delete_selection_removes_the_range_and_reports_it() {
    let mut e = TextEditor::new("hello");
    e.step(Motion::Left, true);
    e.step(Motion::Left, true);
    assert!(e.delete_selection());
    assert_eq!(e.text(), "hel");
    assert_eq!(e.cursor(), Cursor { row: 0, col: 3 });
    assert_eq!(e.selection(), None);
    assert!(!e.delete_selection(), "nothing selected, nothing removed");
    assert_eq!(e.text(), "hel");
}

#[test]
fn delete_selection_joins_the_lines_it_spanned() {
    let mut e = TextEditor::new("ab\ncd");
    e.set_cursor(Cursor { row: 1, col: 1 }, false); // between c and d
    e.step(Motion::Up, true); // anchor (1,1), cursor (0,1)
    assert_eq!(e.selected_text().as_deref(), Some("b\nc"));
    assert!(e.delete_selection());
    assert_eq!(e.text(), "ad", "the head of line 0 keeps the tail of line 1");
    assert_eq!(e.cursor(), Cursor { row: 0, col: 1 });
}

#[test]
fn typing_replaces_the_selection() {
    let mut e = TextEditor::new("hello");
    e.step(Motion::Left, true);
    e.step(Motion::Left, true);
    e.insert_char('p');
    assert_eq!(e.text(), "help");
    assert_eq!(e.selection(), None);
}

#[test]
fn backspace_over_a_selection_removes_it_and_nothing_more() {
    let mut e = TextEditor::new("hello");
    e.step(Motion::Left, true);
    e.step(Motion::Left, true);
    e.backspace();
    assert_eq!(e.text(), "hel", "the l before the selection survives");
}

#[test]
fn delete_over_a_selection_removes_it_and_nothing_more() {
    let mut e = TextEditor::new("hello");
    e.home();
    e.step(Motion::Right, true);
    e.step(Motion::Right, true);
    e.delete();
    assert_eq!(e.text(), "llo");
}

#[test]
fn newline_replaces_the_selection() {
    let mut e = TextEditor::new("hello");
    e.step(Motion::Left, true);
    e.step(Motion::Left, true);
    e.insert_newline();
    assert_eq!(e.text(), "hel\n");
}

#[test]
fn word_motions_extend_too() {
    let mut e = TextEditor::new("foo bar baz");
    e.step(Motion::LeftWord, true);
    assert_eq!(e.selected_text().as_deref(), Some("baz"));
}

#[test]
fn set_cursor_clamps_a_position_past_the_buffer() {
    let mut e = TextEditor::new("ab\ncd");
    e.set_cursor(Cursor { row: 99, col: 99 }, false);
    assert_eq!(e.cursor(), Cursor { row: 1, col: 2 });
    e.set_cursor(Cursor { row: 0, col: 99 }, false);
    assert_eq!(e.cursor(), Cursor { row: 0, col: 2 });
}

#[test]
fn set_cursor_with_extend_selects_from_where_it_was() {
    let mut e = TextEditor::new("hello");
    e.set_cursor(Cursor { row: 0, col: 1 }, false);
    e.set_cursor(Cursor { row: 0, col: 4 }, true);
    assert_eq!(e.selected_text().as_deref(), Some("ell"));
}

#[test]
fn insert_str_splits_on_newlines_and_drops_carriage_returns() {
    let mut e = TextEditor::new("");
    e.insert_str("one\r\ntwo");
    assert_eq!(e.text(), "one\ntwo");
    assert_eq!(e.cursor(), Cursor { row: 1, col: 3 });
}

#[test]
fn insert_str_replaces_a_selection() {
    let mut e = TextEditor::new("hello");
    e.select_all();
    e.insert_str("bye");
    assert_eq!(e.text(), "bye");
}

#[test]
fn selection_counts_characters_not_bytes() {
    let mut e = TextEditor::new("åäö");
    e.step(Motion::Left, true);
    e.step(Motion::Left, true);
    assert_eq!(e.selected_text().as_deref(), Some("äö"));
    e.delete_selection();
    assert_eq!(e.text(), "å");
}

//! What the keys are for while writing: putting text where the caret is, taking it
//! out, moving about in it, and selecting, copying and cutting it.

use crate::editor::{
    between, run_end, run_start, word_end, word_start, Cursor, EditorState, Motion,
};
use crate::input::{KeyCode, KeyEvent};
use crate::state::{copy_chord, edited, AppState, Mode};
use vstd::prelude::*;

verus! {

// ---- moving about ----

/// Every line of the text has a length a machine can hold.
pub open spec fn short_lines(s: EditorState) -> bool {
    &&& s.lines.len() <= usize::MAX
    &&& forall|i: int| 0 <= i < s.lines.len() ==> (#[trigger] s.lines[i]).len() <= usize::MAX
}

/// Left and right go past one character of the text, a line's end counting as one,
/// and change none; at either end of the text they stay.
pub proof fn law_left_and_right_pass_one_character(s: EditorState)
    requires
        s.wf(),
        short_lines(s),
    ensures
        s.left().lines == s.lines && s.right().lines == s.lines,
        s.left().wf() && s.right().wf(),
        s.left_of_caret().len() > 0 ==> s.left().left_of_caret() == s.left_of_caret().drop_last(),
        s.left_of_caret().len() == 0 ==> s.left() == s,
        s.right_of_caret().len() > 0 ==> s.right().left_of_caret() == s.left_of_caret().push(
            s.right_of_caret()[0],
        ),
        s.right_of_caret().len() == 0 ==> s.right() == s,
{
    let (row, col, l) = (s.row as int, s.col as int, s.line());
    let front = s.lines.take(row);
    if col > 0 {
        assert(l.take(col) =~= l.take(col - 1) + seq![l[col - 1]]);
        crate::editor::lemma_join_grow(front, l.take(col - 1), seq![l[col - 1]]);
        assert(s.left_of_caret() =~= s.left().left_of_caret().push(l[col - 1]));
        assert(s.left_of_caret().drop_last() =~= s.left().left_of_caret());
    } else if row > 0 {
        let above = s.lines[row - 1];
        assert(above.take(above.len() as int) =~= above);
        assert(s.lines.take(row - 1).push(above) =~= front);
        assert(l.take(0) =~= Seq::<char>::empty());
        assert(front.push(Seq::<char>::empty()).drop_last() =~= front);
        assert(s.left_of_caret() =~= crate::text::join(front, '\n').push('\n'));
        assert(s.left_of_caret().drop_last() =~= s.left().left_of_caret());
    } else {
        assert(l.take(0) =~= Seq::<char>::empty());
        assert(front.push(l.take(0)) =~= seq![Seq::<char>::empty()]);
    }
    let rest = s.lines.skip(row + 1);
    if col < l.len() {
        assert(l.take(col + 1) =~= l.take(col) + seq![l[col]]);
        crate::editor::lemma_join_grow(front, l.take(col), seq![l[col]]);
        assert(s.right().left_of_caret() =~= s.left_of_caret().push(l[col]));
        assert(l.skip(col) =~= seq![l[col]] + l.skip(col + 1));
        crate::editor::lemma_join_grow_front(seq![l[col]], l.skip(col + 1), rest);
        assert(s.right_of_caret()[0] == l[col]);
    } else if row + 1 < s.lines.len() {
        assert(l.take(col) =~= l);
        assert(front.push(l) =~= s.lines.take(row + 1));
        let below = s.lines[row + 1];
        assert(below.take(0) =~= Seq::<char>::empty());
        let longer = s.lines.take(row + 1);
        assert(longer.push(Seq::<char>::empty()).drop_last() =~= longer);
        assert(s.right().left_of_caret() =~= s.left_of_caret().push('\n'));
        assert(l.skip(col) =~= Seq::<char>::empty());
        crate::text::lemma_join_concat(seq![l.skip(col)], rest, '\n');
        assert(s.right_of_caret()[0] == '\n');
    } else {
        assert(rest =~= Seq::<Seq<char>>::empty());
        assert(l.skip(col) =~= Seq::<char>::empty());
        assert(seq![l.skip(col)] + rest =~= seq![Seq::<char>::empty()]);
    }
}

/// Up and down go one line up or down, in the same column or at the end of a shorter
/// line; Home and End go to the ends of the line. None of them changes the text.
pub proof fn law_up_down_home_and_end(s: EditorState)
    requires
        s.wf(),
        short_lines(s),
    ensures
        s.up().lines == s.lines && s.down().lines == s.lines && s.home().lines == s.lines
            && s.end().lines == s.lines,
        s.up().wf() && s.down().wf() && s.home().wf() && s.end().wf(),
        s.row == 0 ==> s.up() == s,
        s.row == s.lines.len() - 1 ==> s.down() == s,
        s.row > 0 ==> s.up().row == s.row - 1 && s.up().col <= s.col && (s.up().col == s.col
            || s.up().col == s.up().line().len()),
        s.row < s.lines.len() - 1 ==> s.down().row == s.row + 1 && s.down().col <= s.col && (
        s.down().col == s.col || s.down().col == s.down().line().len()),
        s.home().row == s.row && s.home().col == 0,
        s.end().row == s.row && s.end().col == s.line().len(),
{
}

proof fn lemma_run_start(line: Seq<char>, i: int, space: bool)
    requires
        0 <= i <= line.len(),
    ensures
        0 <= run_start(line, i, space) <= i,
        forall|k: int| run_start(line, i, space) <= k < i ==> (#[trigger] line[k] == ' ') == space,
        run_start(line, i, space) > 0 ==> (line[run_start(line, i, space) - 1] == ' ') != space,
    decreases i,
{
    if 0 < i && (line[i - 1] == ' ') == space {
        lemma_run_start(line, i - 1, space);
    }
}

proof fn lemma_run_end(line: Seq<char>, i: int, space: bool)
    requires
        0 <= i <= line.len(),
    ensures
        i <= run_end(line, i, space) <= line.len(),
        forall|k: int| i <= k < run_end(line, i, space) ==> (#[trigger] line[k] == ' ') == space,
        run_end(line, i, space) < line.len() ==> (line[run_end(line, i, space)] == ' ') != space,
    decreases line.len() - i,
{
    if i < line.len() && (line[i] == ' ') == space {
        lemma_run_end(line, i + 1, space);
    }
}

/// One word, with the spaces after it, stands right before a column: from `from` to
/// `mid` it has no space, from there on nothing else, and it starts where a word can.
pub open spec fn word_before(line: Seq<char>, from: int, mid: int, col: int) -> bool {
    &&& 0 <= from <= mid <= col
    &&& forall|k: int| from <= k < mid ==> #[trigger] line[k] != ' '
    &&& forall|k: int| mid <= k < col ==> #[trigger] line[k] == ' '
    &&& from > 0 ==> line[from - 1] == ' ' && from < mid
}

/// One word, with the spaces before it, stands right after a column.
pub open spec fn word_after(line: Seq<char>, col: int, mid: int, to: int) -> bool {
    &&& col <= mid <= to <= line.len()
    &&& forall|k: int| col <= k < mid ==> #[trigger] line[k] == ' '
    &&& forall|k: int| mid <= k < to ==> #[trigger] line[k] != ' '
    &&& to < line.len() ==> line[to] == ' ' && mid < to
}

/// Going by words goes to the start of the word before the caret, or past the end of
/// the word after it, whatever spaces are between; across the end of a line it goes
/// as by characters.
pub proof fn law_words_are_gone_by_whole(s: EditorState)
    requires
        s.wf(),
        short_lines(s),
    ensures
        s.left_word().lines == s.lines && s.right_word().lines == s.lines,
        s.col == 0 ==> s.left_word() == s.left(),
        s.col == s.line().len() ==> s.right_word() == s.right(),
        s.col > 0 ==> s.left_word().row == s.row && s.left_word().col < s.col && exists|mid: int|
            #[trigger] word_before(s.line(), s.left_word().col as int, mid, s.col as int),
        s.col < s.line().len() ==> s.right_word().row == s.row && s.col < s.right_word().col
            && exists|mid: int| #[trigger]
            word_after(s.line(), s.col as int, mid, s.right_word().col as int),
{
    let (l, col) = (s.line(), s.col as int);
    let m = run_start(l, col, true);
    lemma_run_start(l, col, true);
    lemma_run_start(l, m, false);
    let n = run_end(l, col, true);
    lemma_run_end(l, col, true);
    lemma_run_end(l, n, false);
    if col > 0 {
        if m == col {
            assert(l[col - 1] != ' ');
            lemma_run_start(l, m - 1, false);
        }
        assert(s.left_word().col == word_start(l, col));
        assert(word_start(l, col) < col);
        assert(word_before(l, s.left_word().col as int, m, col));
    }
    if col < l.len() {
        if n == col {
            assert(l[col] != ' ');
            lemma_run_end(l, n + 1, false);
        }
        assert(s.lines[s.row as int].len() <= usize::MAX);
        assert(s.right_word().col == word_end(l, col));
        assert(word_end(l, col) > col);
        assert(word_after(l, col, n, s.right_word().col as int));
    }
}

/// A motion with shift selects from where the selection, or the caret, was to where
/// the caret goes; without it nothing is selected any more. Either way the caret goes
/// the same.
pub proof fn law_shift_selects(s: EditorState, m: Motion)
    requires
        s.wf(),
        short_lines(s),
    ensures
        s.step(m, true).cursor() == s.step(m, false).cursor(),
        s.step(m, true).lines == s.lines && s.step(m, false).lines == s.lines,
        s.step(m, false).anchor is None && s.step(m, false).selection() is None,
        s.anchor is None ==> s.step(m, true).anchor == Some(s.cursor()),
        s.anchor is Some ==> s.step(m, true).anchor == s.anchor,
        s.step(m, false).cursor() == s.moved(m).cursor(),
{
}

/// What is selected is what stands between the anchor and the caret, whichever comes
/// first.
pub proof fn law_a_selection_is_in_order(s: EditorState)
    requires
        s.wf(),
        s.anchor is Some,
    ensures
        s.anchor == Some(s.cursor()) <==> s.selection() is None,
        s.selection() matches Some((a, b)) ==> {
            &&& a.row < b.row || a.row == b.row && a.col < b.col
            &&& (a == s.cursor() && Some(b) == s.anchor) || (b == s.cursor() && Some(a) == s.anchor)
            &&& s.selected_text() == Some(between(s.lines, a, b))
        },
{
}

/// A click puts the caret where it points, or as near as there is text.
pub proof fn law_a_click_puts_the_caret(s: EditorState, at: Cursor, extend: bool)
    requires
        s.wf(),
        short_lines(s),
    ensures
        s.set_cursor(at, extend).lines == s.lines,
        s.set_cursor(at, extend).wf(),
        s.holds(at) ==> s.set_cursor(at, extend).cursor() == at,
        at.row < s.lines.len() ==> s.set_cursor(at, extend).row == at.row,
        at.row >= s.lines.len() ==> s.set_cursor(at, extend).row == s.lines.len() - 1,
        !extend ==> s.set_cursor(at, extend).selection() is None,
        extend && s.anchor is None ==> s.set_cursor(at, extend).anchor == Some(s.cursor()),
        extend && s.anchor is Some ==> s.set_cursor(at, extend).anchor == s.anchor,
{
}

// ---- taking out ----

/// Deleting a word takes what going back by a word goes past, and nothing else;
/// with a selection it takes that.
pub proof fn law_deleting_a_word(s: EditorState)
    requires
        s.wf(),
        short_lines(s),
    ensures
        s.selection() is Some ==> s.delete_word() == s.without_selection(),
        s.selection() is None && s.col == 0 ==> s.delete_word() == s.backspace(),
        s.selection() is None && s.col > 0 ==> {
            let from = s.left_word().col as int;
            let t = s.delete_word();
            &&& t.row == s.row && t.col == from
            &&& t.lines.len() == s.lines.len()
            &&& forall|i: int| 0 <= i < s.lines.len() && i != s.row ==> #[trigger] t.lines[i]
                == s.lines[i]
            &&& t.line() == s.line().take(from) + s.line().skip(s.col as int)
        },
{
    lemma_run_start(s.line(), s.col as int, true);
    lemma_run_start(s.line(), run_start(s.line(), s.col as int, true), false);
}

/// Clearing a line empties it and no other; with a selection it takes that.
pub proof fn law_clearing_a_line(s: EditorState)
    requires
        s.wf(),
    ensures
        s.selection() is Some ==> s.kill_line() == s.without_selection(),
        s.selection() is None ==> {
            let t = s.kill_line();
            &&& t.row == s.row && t.col == 0
            &&& t.lines.len() == s.lines.len()
            &&& t.line().len() == 0
            &&& forall|i: int| 0 <= i < s.lines.len() && i != s.row ==> #[trigger] t.lines[i]
                == s.lines[i]
        },
{
}

/// Whatever is typed, or taken out, takes the place of what is selected.
pub proof fn law_typing_replaces_the_selection(s: EditorState, c: char, t: Seq<char>)
    requires
        s.selection() is Some,
    ensures
        s.insert_char(c) == s.without_selection().insert_char(c),
        s.insert_newline() == s.without_selection().insert_newline(),
        s.insert_str(t) == s.without_selection().insert_str(t),
        s.backspace() == s.without_selection(),
        s.delete() == s.without_selection(),
{
}

// ---- which key does what ----

/// A key that is no command changes what the editor holds, and no board.
proof fn lemma_edits(s: AppState, k: KeyEvent)
    requires
        s.mode == Mode::Edit,
        s.editor is Some,
        !s.help,
        !s.read_only,
        k.code != KeyCode::F(1),
        copy_chord(k) is None,
        k.code != KeyCode::Esc,
    ensures
        s.on_key(k).editor == Some(edited(s.editor->0, k)),
        s.on_key(k).boards == s.boards,
        s.on_key(k).mode == Mode::Edit,
        s.on_key(k).selected == s.selected,
        s.on_key(k).camera == s.camera,
{
    reveal(AppState::key);
    reveal(AppState::edit_key);
    reveal(AppState::follow_caret);
    reveal(AppState::end_step);
}

/// While a note is open no key changes a board, until Esc writes it down; and a
/// letter, without a modifier, is typed where the caret is.
pub proof fn law_letters_are_typed(s: AppState, k: KeyEvent, c: char)
    requires
        s.mode == Mode::Edit,
        s.editor is Some,
        !s.help,
        !s.read_only,
        k.code == KeyCode::Char(c),
        !k.modifiers.control,
        !k.modifiers.alt,
        !k.modifiers.sup,
    ensures
        s.on_key(k).editor == Some((s.editor->0).insert_char(c)),
        s.on_key(k).boards == s.boards,
        s.on_key(k).mode == Mode::Edit,
{
    lemma_edits(s, k);
}

/// The keys that take text out or break a line.
pub proof fn law_keys_that_change_text(s: AppState, k: KeyEvent)
    requires
        s.mode == Mode::Edit,
        s.editor is Some,
        !s.help,
        !s.read_only,
    ensures
        ({
            let e = s.editor->0;
            let t = s.on_key(k);
            let (ctrl, alt) = (k.modifiers.control, k.modifiers.alt);
            &&& k.code == KeyCode::Enter ==> t.editor == Some(e.insert_newline())
            &&& k.code == KeyCode::Delete ==> t.editor == Some(e.delete())
            &&& k.code == KeyCode::Backspace && !ctrl && !alt ==> t.editor == Some(e.backspace())
            &&& k.code == KeyCode::Backspace && (ctrl || alt) ==> t.editor == Some(e.delete_word())
            &&& k.code == KeyCode::Char('w') && ctrl ==> t.editor == Some(e.delete_word())
            &&& k.code == KeyCode::Char('u') && ctrl ==> t.editor == Some(e.kill_line())
            &&& k.code == KeyCode::Char('a') && ctrl && !alt ==> t.editor == Some(e.select_all())
        }),
{
    if k.code == KeyCode::Enter || k.code == KeyCode::Delete || k.code == KeyCode::Backspace
        || k.code == KeyCode::Char('w') || k.code == KeyCode::Char('u') || k.code
        == KeyCode::Char('a') {
        lemma_edits(s, k);
    }
}

/// The keys that move the caret: by a character, or by a word with ctrl or alt; by
/// lines; and to the ends of a line. Shift selects on the way.
pub proof fn law_keys_that_move_the_caret(s: AppState, k: KeyEvent)
    requires
        s.mode == Mode::Edit,
        s.editor is Some,
        !s.help,
        !s.read_only,
    ensures
        ({
            let e = s.editor->0;
            let t = s.on_key(k);
            let word = k.modifiers.control || k.modifiers.alt;
            let shift = k.modifiers.shift;
            &&& k.code == KeyCode::Left && !word && !k.modifiers.sup ==> t.editor == Some(
                e.step(Motion::Left, shift),
            )
            &&& k.code == KeyCode::Right && !word && !k.modifiers.sup ==> t.editor == Some(
                e.step(Motion::Right, shift),
            )
            &&& k.code == KeyCode::Left && word ==> t.editor == Some(e.step(Motion::LeftWord, shift))
            &&& k.code == KeyCode::Right && word ==> t.editor == Some(
                e.step(Motion::RightWord, shift),
            )
            &&& k.code == KeyCode::Up ==> t.editor == Some(e.step(Motion::Up, shift))
            &&& k.code == KeyCode::Down ==> t.editor == Some(e.step(Motion::Down, shift))
            &&& k.code == KeyCode::Home ==> t.editor == Some(e.step(Motion::Home, shift))
            &&& k.code == KeyCode::End ==> t.editor == Some(e.step(Motion::End, shift))
        }),
{
    if k.code == KeyCode::Left || k.code == KeyCode::Right || k.code == KeyCode::Up || k.code
        == KeyCode::Down || k.code == KeyCode::Home || k.code == KeyCode::End {
        lemma_edits(s, k);
    }
}

/// Copying hands over just what is selected and leaves the note as it is; cutting
/// takes it out of the note as well.
pub proof fn law_copying_and_cutting(s: AppState, k: KeyEvent)
    requires
        s.mode == Mode::Edit,
        s.editor is Some,
        (s.editor->0).selection() is Some,
        !s.help,
        !s.read_only,
        k.modifiers.control,
        k.code == KeyCode::Char('c') || k.code == KeyCode::Char('x'),
    ensures
        s.on_key(k).pending_copy == (s.editor->0).selected_text(),
        k.code == KeyCode::Char('c') ==> s.on_key(k).editor == s.editor,
        k.code == KeyCode::Char('x') ==> s.on_key(k).editor == Some(
            (s.editor->0).without_selection(),
        ),
        s.on_key(k).boards == s.boards,
        s.on_key(k).mode == Mode::Edit,
        s.on_key(k).should_quit == s.should_quit,
{
    reveal(AppState::key);
    reveal(AppState::copy_selection);
    reveal(AppState::follow_caret);
    reveal(AppState::end_step);
}

/// Text pasted into a note goes in at the caret, in place of what is selected. Pasted
/// while navigating it goes nowhere.
pub proof fn law_where_pastes_go(s: AppState, text: Seq<char>)
    requires
        !s.help,
        !s.read_only,
    ensures
        s.mode == Mode::Edit && s.editor is Some ==> s.on_paste(text).editor == Some(
            (s.editor->0).insert_str(text),
        ) && s.on_paste(text).boards == s.boards,
        s.mode == Mode::Nav ==> s.on_paste(text).boards == s.boards && s.on_paste(text).editor
            == s.editor && s.on_paste(text).prompt == s.prompt && s.on_paste(text).mode == s.mode,
{
    reveal(AppState::paste);
    reveal(AppState::follow_caret);
    reveal(AppState::end_step);
}

} // verus!

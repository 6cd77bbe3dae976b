//! A minimal multi-line text editor for the document-level note body.
//!
//! Scope is deliberately small - insert, delete, newline, cursor movement -
//! enough to write a note, not a code editor. Char-indexed throughout so it
//! stays correct for non-ASCII input.
//!
//! [`EditorState`] is what a buffer is; every operation of [`TextEditor`] is
//! specified as a function on it. The laws at the end of the file read the
//! buffer as one text cut in two at the caret.

use crate::text::{
    chars_of, join, join_strings, lemma_join_concat, lemma_join_split, push_all, split,
    split_strings, string_from, string_of, strs, sub_vec,
};
use vstd::prelude::*;

verus! {

broadcast use crate::text::group_strs;

/// A cursor position, in (row, column) of characters.
#[derive(Debug, Clone, Copy, PartialEq, Eq, Structural)]
pub struct Cursor {
    pub row: usize,
    pub col: usize,
}

impl Cursor {
    /// Document order: by row, then by column.
    pub open spec fn before(self, other: Cursor) -> bool {
        self.row < other.row || (self.row == other.row && self.col < other.col)
    }
}

/// A cursor movement. Bundling these into one enum lets [`TextEditor::step`] be
/// the single door movement goes through, so a motion cannot move the caret and
/// forget to update the selection.
#[derive(Debug, Clone, Copy, PartialEq, Eq, Structural)]
pub enum Motion {
    Left,
    Right,
    Up,
    Down,
    Home,
    End,
    LeftWord,
    RightWord,
}

/// What an editor holds: its lines, where the caret is, and the fixed end of a
/// selection if one was started.
#[verifier::ext_equal]
pub struct EditorState {
    pub lines: Seq<Seq<char>>,
    pub row: usize,
    pub col: usize,
    pub anchor: Option<Cursor>,
}

/// Walking back from `i` over characters that are spaces (or, with `space`
/// false, that are not), where does the run start?
pub open spec fn run_start(line: Seq<char>, i: int, space: bool) -> int
    decreases i,
{
    if 0 < i <= line.len() && (line[i - 1] == ' ') == space {
        run_start(line, i - 1, space)
    } else {
        i
    }
}

/// Walking forward from `i` over characters that are spaces (or, with `space`
/// false, that are not), where does the run end?
pub open spec fn run_end(line: Seq<char>, i: int, space: bool) -> int
    decreases line.len() - i,
{
    if 0 <= i < line.len() && (line[i] == ' ') == space {
        run_end(line, i + 1, space)
    } else {
        i
    }
}

/// Where the word before column `col` starts: back over any spaces, then over
/// the word.
pub open spec fn word_start(line: Seq<char>, col: int) -> int {
    run_start(line, run_start(line, col, true), false)
}

/// Where the word after column `col` ends: over any spaces, then over the word.
pub open spec fn word_end(line: Seq<char>, col: int) -> int {
    run_end(line, run_end(line, col, true), false)
}

/// The lines with everything from `a` up to `b` taken out.
pub open spec fn cut(lines: Seq<Seq<char>>, a: Cursor, b: Cursor) -> Seq<Seq<char>> {
    lines.take(a.row as int).push(
        lines[a.row as int].take(a.col as int) + lines[b.row as int].skip(b.col as int),
    ) + lines.skip(b.row + 1)
}

/// The text from `a` up to `b`, rows joined by newlines.
pub open spec fn between(lines: Seq<Seq<char>>, a: Cursor, b: Cursor) -> Seq<char> {
    if a.row == b.row {
        lines[a.row as int].subrange(a.col as int, b.col as int)
    } else {
        join(
            seq![lines[a.row as int].skip(a.col as int)] + lines.subrange(
                a.row + 1,
                b.row as int,
            ).push(lines[b.row as int].take(b.col as int)),
            '\n',
        )
    }
}

impl EditorState {
    /// A position that exists in the buffer.
    pub open spec fn holds(self, c: Cursor) -> bool {
        c.row < self.lines.len() && c.col <= self.lines[c.row as int].len()
    }

    /// There is at least one line, and the caret and the anchor are in it.
    pub open spec fn wf(self) -> bool {
        &&& self.lines.len() >= 1
        &&& self.holds(self.cursor())
        &&& (self.anchor matches Some(a) ==> self.holds(a))
    }

    pub open spec fn cursor(self) -> Cursor {
        Cursor { row: self.row, col: self.col }
    }

    /// The line the caret is on.
    pub open spec fn line(self) -> Seq<char> {
        self.lines[self.row as int]
    }

    /// The buffer as one text.
    pub open spec fn text(self) -> Seq<char> {
        join(self.lines, '\n')
    }

    /// The selection in document order. An anchor on the caret selects nothing.
    pub open spec fn selection(self) -> Option<(Cursor, Cursor)> {
        match self.anchor {
            None => None,
            Some(a) => if a == self.cursor() {
                None
            } else if a.before(self.cursor()) {
                Some((a, self.cursor()))
            } else {
                Some((self.cursor(), a))
            },
        }
    }

    pub open spec fn selected_text(self) -> Option<Seq<char>> {
        match self.selection() {
            None => None,
            Some((a, b)) => Some(between(self.lines, a, b)),
        }
    }

    pub open spec fn select_all(self) -> EditorState {
        EditorState {
            row: (self.lines.len() - 1) as usize,
            col: self.lines.last().len() as usize,
            anchor: Some(Cursor { row: 0, col: 0 }),
            ..self
        }
    }

    /// The buffer with its selection removed, the caret where the selection
    /// started, and nothing anchored.
    pub open spec fn without_selection(self) -> EditorState {
        match self.selection() {
            None => EditorState { anchor: None, ..self },
            Some((a, b)) => EditorState {
                lines: cut(self.lines, a, b),
                row: a.row,
                col: a.col,
                anchor: None,
            },
        }
    }

    /// An anchor resting on the caret cleared.
    pub open spec fn rested(self) -> EditorState {
        if self.selection() is None {
            EditorState { anchor: None, ..self }
        } else {
            self
        }
    }

    pub open spec fn put_char(self, c: char) -> EditorState {
        EditorState {
            lines: self.lines.update(self.row as int, self.line().insert(self.col as int, c)),
            col: (self.col + 1) as usize,
            ..self
        }
    }

    pub open spec fn break_line(self) -> EditorState {
        EditorState {
            lines: self.lines.update(self.row as int, self.line().take(self.col as int)).insert(
                self.row + 1,
                self.line().skip(self.col as int),
            ),
            row: (self.row + 1) as usize,
            col: 0,
            ..self
        }
    }

    /// The current line without `from..to`, the caret at `from`.
    pub open spec fn erase(self, from: int, to: int) -> EditorState {
        EditorState {
            lines: self.lines.update(self.row as int, self.line().take(from) + self.line().skip(to)),
            col: from as usize,
            ..self
        }
    }

    /// The current line stuck to the end of the one above it.
    pub open spec fn join_up(self) -> EditorState {
        let above = self.lines[self.row - 1];
        EditorState {
            lines: self.lines.update(self.row - 1, above + self.line()).remove(self.row as int),
            row: (self.row - 1) as usize,
            col: above.len() as usize,
            ..self
        }
    }

    /// The line below stuck to the end of the current one.
    pub open spec fn join_down(self) -> EditorState {
        EditorState {
            lines: self.lines.update(self.row as int, self.line() + self.lines[self.row + 1]).remove(
                self.row + 1,
            ),
            ..self
        }
    }

    /// The text typed at the caret, character by character. Carriage returns
    /// are dropped, newlines break the line.
    pub open spec fn typed(self, t: Seq<char>) -> EditorState
        decreases t.len(),
    {
        if t.len() == 0 {
            self
        } else {
            let s = self.typed(t.drop_last());
            if t.last() == '\r' {
                s
            } else if t.last() == '\n' {
                s.break_line()
            } else {
                s.put_char(t.last())
            }
        }
    }

    pub open spec fn insert_str(self, t: Seq<char>) -> EditorState {
        self.without_selection().typed(t)
    }

    pub open spec fn insert_char(self, c: char) -> EditorState {
        self.without_selection().put_char(c)
    }

    pub open spec fn insert_newline(self) -> EditorState {
        self.without_selection().break_line()
    }

    pub open spec fn backspace(self) -> EditorState {
        let s = self.without_selection();
        if self.selection() is Some {
            s
        } else if s.col > 0 {
            s.erase(s.col - 1, s.col as int)
        } else if s.row > 0 {
            s.join_up()
        } else {
            s
        }
    }

    pub open spec fn delete(self) -> EditorState {
        let s = self.without_selection();
        if self.selection() is Some {
            s
        } else if s.col < s.line().len() {
            s.erase(s.col as int, s.col + 1)
        } else if s.row + 1 < s.lines.len() {
            s.join_down()
        } else {
            s
        }
    }

    pub open spec fn delete_word(self) -> EditorState {
        let s = self.without_selection();
        if self.selection() is Some {
            s
        } else if s.col == 0 {
            s.backspace()
        } else {
            s.erase(word_start(s.line(), s.col as int), s.col as int)
        }
    }

    pub open spec fn kill_line(self) -> EditorState {
        let s = self.without_selection();
        if self.selection() is Some {
            s
        } else {
            EditorState { lines: s.lines.update(s.row as int, Seq::empty()), col: 0, ..s }
        }
    }

    pub open spec fn left(self) -> EditorState {
        if self.col > 0 {
            EditorState { col: (self.col - 1) as usize, ..self }
        } else if self.row > 0 {
            EditorState {
                row: (self.row - 1) as usize,
                col: self.lines[self.row - 1].len() as usize,
                ..self
            }
        } else {
            self
        }
    }

    pub open spec fn right(self) -> EditorState {
        if self.col < self.line().len() {
            EditorState { col: (self.col + 1) as usize, ..self }
        } else if self.row < self.lines.len() - 1 {
            EditorState { row: (self.row + 1) as usize, col: 0, ..self }
        } else {
            self
        }
    }

    /// The caret at `row`, in its column or at the end of a shorter line.
    pub open spec fn at_row(self, row: int) -> EditorState {
        let len = self.lines[row].len();
        EditorState {
            row: row as usize,
            col: if self.col <= len {
                self.col
            } else {
                len as usize
            },
            ..self
        }
    }

    pub open spec fn up(self) -> EditorState {
        if self.row > 0 {
            self.at_row(self.row - 1)
        } else {
            self
        }
    }

    pub open spec fn down(self) -> EditorState {
        if self.row < self.lines.len() - 1 {
            self.at_row(self.row + 1)
        } else {
            self
        }
    }

    pub open spec fn home(self) -> EditorState {
        EditorState { col: 0, ..self }
    }

    pub open spec fn end(self) -> EditorState {
        EditorState { col: self.line().len() as usize, ..self }
    }

    pub open spec fn left_word(self) -> EditorState {
        if self.col == 0 {
            self.left()
        } else {
            EditorState { col: word_start(self.line(), self.col as int) as usize, ..self }
        }
    }

    pub open spec fn right_word(self) -> EditorState {
        if self.col >= self.line().len() {
            self.right()
        } else {
            EditorState { col: word_end(self.line(), self.col as int) as usize, ..self }
        }
    }

    pub open spec fn moved(self, m: Motion) -> EditorState {
        match m {
            Motion::Left => self.left(),
            Motion::Right => self.right(),
            Motion::Up => self.up(),
            Motion::Down => self.down(),
            Motion::Home => self.home(),
            Motion::End => self.end(),
            Motion::LeftWord => self.left_word(),
            Motion::RightWord => self.right_word(),
        }
    }

    /// The anchor kept (or dropped at the caret) when extending, and cleared
    /// when not.
    pub open spec fn reanchored(self, extend: bool) -> EditorState {
        EditorState {
            anchor: if !extend {
                None
            } else if self.anchor is Some {
                self.anchor
            } else {
                Some(self.cursor())
            },
            ..self
        }
    }

    pub open spec fn step(self, m: Motion, extend: bool) -> EditorState {
        self.reanchored(extend).moved(m)
    }

    /// `at`, pulled into the buffer.
    pub open spec fn clamped(self, at: Cursor) -> Cursor {
        let row = if at.row < self.lines.len() {
            at.row as int
        } else {
            self.lines.len() - 1
        };
        let len = self.lines[row].len();
        Cursor {
            row: row as usize,
            col: if at.col <= len {
                at.col
            } else {
                len as usize
            },
        }
    }

    pub open spec fn set_cursor(self, at: Cursor, extend: bool) -> EditorState {
        let c = self.clamped(at);
        EditorState { row: c.row, col: c.col, ..self.reanchored(extend) }
    }
}

/// An editable buffer of text lines with a single cursor and an optional
/// selection.
#[derive(Debug, Clone)]
pub struct TextEditor {
    /// Never empty: an empty buffer is one empty line.
    lines: Vec<String>,
    row: usize,
    /// Character index within the current line (0..=char_len).
    col: usize,
    /// The fixed end of a selection. The cursor is the moving end, so the pair
    /// is in no particular order - [`Self::selection`] sorts them.
    anchor: Option<Cursor>,
}

impl View for TextEditor {
    type V = EditorState;

    closed spec fn view(&self) -> EditorState {
        EditorState {
            lines: strs(self.lines@),
            row: self.row,
            col: self.col,
            anchor: self.anchor,
        }
    }
}

/// The number of characters in `s`.
pub fn char_len(s: &str) -> (n: usize)
    ensures
        n == s@.len(),
{
    chars_of(s).len()
}

impl TextEditor {
    /// Load `text`, placing the cursor at the very end (where you'd resume
    /// writing).
    pub fn new(text: &str) -> (e: Self)
        ensures
            e@.wf(),
            e@.lines == split(text@, '\n'),
            e@.text() == text@,
            e@.row == e@.lines.len() - 1,
            e@.col == e@.lines.last().len(),
            e@.anchor is None,
    {
        let lines = split_strings(text, '\n');
        proof {
            lemma_join_split(text@, '\n');
        }
        let row: usize = lines.len() - 1;
        let col: usize = char_len(&lines[row]);
        TextEditor { lines, row, col, anchor: None }
    }

    /// The buffer as a single string, lines joined by `\n`.
    pub fn text(&self) -> (out: String)
        ensures
            out@ == self@.text(),
    {
        join_strings(&self.lines, '\n')
    }

    pub fn lines(&self) -> (out: &[String])
        ensures
            strs(out@) == self@.lines,
    {
        &self.lines
    }

    pub fn cursor(&self) -> (c: Cursor)
        ensures
            c == self@.cursor(),
    {
        Cursor { row: self.row, col: self.col }
    }

    // ---- selection ----

    /// The selection as `(start, end)` in document order, or `None` when
    /// nothing is selected. An anchor sitting on the cursor is not a selection.
    pub fn selection(&self) -> (out: Option<(Cursor, Cursor)>)
        ensures
            out == self@.selection(),
    {
        match self.anchor {
            None => None,
            Some(anchor) => {
                let cursor = self.cursor();
                if anchor == cursor {
                    None
                } else if anchor.row < cursor.row || (anchor.row == cursor.row && anchor.col
                    < cursor.col) {
                    Some((anchor, cursor))
                } else {
                    Some((cursor, anchor))
                }
            },
        }
    }

    /// The selected text, lines joined by `\n`.
    pub fn selected_text(&self) -> (out: Option<String>)
        requires
            self@.wf(),
        ensures
            crate::text::opt_str(out) == self@.selected_text(),
    {
        let (start, end) = match self.selection() {
            None => return None,
            Some(pair) => pair,
        };
        let first = chars_of(&self.lines[start.row]);
        if start.row == end.row {
            return Some(string_from(&first, start.col, end.col));
        }
        let mut pieces: Vec<String> = Vec::new();
        pieces.push(string_from(&first, start.col, first.len()));
        let ghost all = self@.lines;
        let ghost head = seq![all[start.row as int].skip(start.col as int)];
        proof {
            assert(strs(pieces@) =~= head + all.subrange(start.row + 1, start.row + 1));
        }
        let mut i: usize = start.row + 1;
        while i < end.row
            invariant
                start.row < i <= end.row < self.lines@.len(),
                all == strs(self.lines@),
                head.len() == 1,
                strs(pieces@) == head + all.subrange(start.row + 1, i as int),
            decreases end.row - i,
        {
            pieces.push(self.lines[i].clone());
            proof {
                assert(strs(pieces@) =~= head + all.subrange(start.row + 1, i + 1));
            }
            i += 1;
        }
        let last = chars_of(&self.lines[end.row]);
        pieces.push(string_from(&last, 0, end.col));
        proof {
            assert(strs(pieces@) =~= head + all.subrange(start.row + 1, end.row as int).push(
                all[end.row as int].take(end.col as int),
            ));
        }
        Some(join_strings(&pieces, '\n'))
    }

    /// Select the whole buffer.
    pub fn select_all(&mut self)
        requires
            old(self)@.wf(),
        ensures
            final(self)@ == old(self)@.select_all(),
            final(self)@.wf(),
    {
        self.anchor = Some(Cursor { row: 0, col: 0 });
        self.row = self.lines.len() - 1;
        self.col = char_len(&self.lines[self.row]);
    }

    /// Remove the selected range, leaving the cursor where it started. Returns
    /// whether anything was removed, so callers can fall through to their
    /// single-character behaviour when there was no selection.
    pub fn delete_selection(&mut self) -> (removed: bool)
        requires
            old(self)@.wf(),
        ensures
            removed == (old(self)@.selection() is Some),
            final(self)@ == old(self)@.without_selection(),
            final(self)@.wf(),
    {
        let (start, end) = match self.selection() {
            None => {
                self.anchor = None;
                return false;
            },
            Some(pair) => pair,
        };
        let ghost all = strs(self.lines@);
        let first = chars_of(&self.lines[start.row]);
        let last = chars_of(&self.lines[end.row]);
        // What is left of the first line, stapled to what is left of the last.
        let mut kept = sub_vec(&first, 0, start.col);
        push_all(&mut kept, vstd::slice::slice_subrange(&last, end.col, last.len()));
        let mut lines: Vec<String> = Vec::new();
        let mut i: usize = 0;
        while i < start.row
            invariant
                i <= start.row < self.lines@.len(),
                all == strs(self.lines@),
                lines@.len() == i,
                strs(lines@) =~= all.take(i as int),
            decreases start.row - i,
        {
            lines.push(self.lines[i].clone());
            i += 1;
        }
        lines.push(string_of(&kept));
        let ghost front = strs(lines@);
        proof {
            assert(front =~= all.take(start.row as int).push(kept@));
            assert(front =~= front + all.subrange(end.row + 1, end.row + 1));
        }
        let total: usize = self.lines.len();
        let mut j: usize = end.row + 1;
        while j < total
            invariant
                end.row < j <= total,
                total == self.lines@.len(),
                all == strs(self.lines@),
                strs(lines@) == front + all.subrange(end.row + 1, j as int),
            decreases total - j,
        {
            lines.push(self.lines[j].clone());
            proof {
                assert(strs(lines@) =~= front + all.subrange(end.row + 1, j + 1));
            }
            j += 1;
        }
        self.lines = lines;
        self.row = start.row;
        self.col = start.col;
        self.anchor = None;
        proof {
            assert(kept@ =~= all[start.row as int].take(start.col as int) + all[end.row as int].skip(
                end.col as int,
            ));
            assert(self@.lines =~= cut(all, start, end));
        }
        true
    }

    /// Clear an anchor that rests on the cursor, so no empty selection is left
    /// behind.
    pub fn rest(&mut self)
        requires
            old(self)@.wf(),
        ensures
            final(self)@ == old(self)@.rested(),
            final(self)@.wf(),
    {
        if self.selection().is_none() {
            self.anchor = None;
        }
    }

    /// Move the cursor. `extend` grows the selection from the existing anchor
    /// (dropping one there if the selection is new); without it the selection
    /// collapses, as an unmodified arrow key should.
    pub fn step(&mut self, m: Motion, extend: bool)
        requires
            old(self)@.wf(),
        ensures
            final(self)@ == old(self)@.step(m, extend),
            final(self)@.wf(),
    {
        self.reanchor(extend);
        match m {
            Motion::Left => self.left(),
            Motion::Right => self.right(),
            Motion::Up => self.up(),
            Motion::Down => self.down(),
            Motion::Home => self.home(),
            Motion::End => self.end(),
            Motion::LeftWord => self.left_word(),
            Motion::RightWord => self.right_word(),
        }
    }

    /// Put the cursor at an arbitrary position, clamped into the buffer. For the
    /// mouse, which can point anywhere.
    pub fn set_cursor(&mut self, at: Cursor, extend: bool)
        requires
            old(self)@.wf(),
        ensures
            final(self)@ == old(self)@.set_cursor(at, extend),
            final(self)@.wf(),
    {
        self.reanchor(extend);
        self.row = if at.row < self.lines.len() {
            at.row
        } else {
            self.lines.len() - 1
        };
        let len: usize = char_len(&self.lines[self.row]);
        self.col = if at.col <= len {
            at.col
        } else {
            len
        };
    }

    /// Leave the anchor where it is when extending, drop one at the cursor when
    /// starting a fresh selection, and clear it when not extending at all.
    fn reanchor(&mut self, extend: bool)
        requires
            old(self)@.wf(),
        ensures
            final(self)@ == old(self)@.reanchored(extend),
            final(self)@.wf(),
    {
        if extend {
            if self.anchor.is_none() {
                self.anchor = Some(self.cursor());
            }
        } else {
            self.anchor = None;
        }
    }

    // ---- editing ----

    /// Insert text that may span lines, replacing any selection. Carriage
    /// returns are dropped so a CRLF paste does not litter the note with them.
    pub fn insert_str(&mut self, s: &str)
        requires
            old(self)@.wf(),
        ensures
            final(self)@ == old(self)@.insert_str(s@),
            final(self)@.wf(),
    {
        self.delete_selection();
        let ghost start = self@;
        let chars = chars_of(s);
        let mut i: usize = 0;
        while i < chars.len()
            invariant
                i <= chars@.len(),
                self@.wf(),
                self@.anchor is None,
                self@ == start.typed(chars@.take(i as int)),
            decreases chars@.len() - i,
        {
            proof {
                assert(chars@.take(i + 1).drop_last() =~= chars@.take(i as int));
            }
            let c = chars[i];
            if c == '\n' {
                self.insert_newline();
            } else if c != '\r' {
                self.insert_char(c);
            }
            i += 1;
        }
        proof {
            assert(chars@.take(chars@.len() as int) =~= chars@);
        }
    }

    pub fn insert_char(&mut self, c: char)
        requires
            old(self)@.wf(),
        ensures
            final(self)@ == old(self)@.insert_char(c),
            final(self)@.wf(),
    {
        self.delete_selection();
        let ghost start = self@;
        let mut line = chars_of(&self.lines[self.row]);
        line.insert(self.col, c);
        assert(line.len() == line@.len());
        self.lines.set(self.row, string_of(&line));
        self.col += 1;
        proof {
            assert(self@.lines =~= start.put_char(c).lines);
        }
    }

    pub fn insert_newline(&mut self)
        requires
            old(self)@.wf(),
        ensures
            final(self)@ == old(self)@.insert_newline(),
            final(self)@.wf(),
    {
        self.delete_selection();
        let ghost start = self@;
        let line = chars_of(&self.lines[self.row]);
        let head = string_from(&line, 0, self.col);
        let tail = string_from(&line, self.col, line.len());
        self.lines.set(self.row, head);
        assert(self.lines.len() == self.lines@.len());
        self.lines.insert(self.row + 1, tail);
        assert(self.lines.len() == self.lines@.len());
        self.row += 1;
        self.col = 0;
        proof {
            assert(self@.lines =~= start.break_line().lines);
        }
    }

    /// Take `from..to` out of the current line and leave the caret at `from`.
    fn erase(&mut self, from: usize, to: usize)
        requires
            old(self)@.wf(),
            old(self)@.anchor is None,
            from <= to <= old(self)@.line().len(),
        ensures
            final(self)@ == old(self)@.erase(from as int, to as int),
            final(self)@.wf(),
    {
        let ghost start = self@;
        let line = chars_of(&self.lines[self.row]);
        let mut kept = sub_vec(&line, 0, from);
        push_all(&mut kept, vstd::slice::slice_subrange(&line, to, line.len()));
        self.lines.set(self.row, string_of(&kept));
        self.col = from;
        proof {
            assert(kept@ =~= start.line().take(from as int) + start.line().skip(to as int));
            assert(self@.lines =~= start.erase(from as int, to as int).lines);
        }
    }

    /// Delete the character before the cursor, joining lines at column 0. With
    /// a selection this removes exactly the selection and no extra character.
    pub fn backspace(&mut self)
        requires
            old(self)@.wf(),
        ensures
            final(self)@ == old(self)@.backspace(),
            final(self)@.wf(),
    {
        if self.delete_selection() {
            return;
        }
        let ghost start = self@;
        if self.col > 0 {
            let to: usize = self.col;
            self.erase(to - 1, to);
        } else if self.row > 0 {
            let current = self.lines.remove(self.row);
            self.row -= 1;
            let mut above = chars_of(&self.lines[self.row]);
            self.col = above.len();
            let tail = chars_of(&current);
            push_all(&mut above, &tail);
            self.lines.set(self.row, string_of(&above));
            proof {
                assert(self@.lines =~= start.join_up().lines);
            }
        }
    }

    /// Delete the character at the cursor, pulling up the next line at line end.
    /// With a selection this removes exactly the selection.
    pub fn delete(&mut self)
        requires
            old(self)@.wf(),
        ensures
            final(self)@ == old(self)@.delete(),
            final(self)@.wf(),
    {
        if self.delete_selection() {
            return;
        }
        let ghost start = self@;
        let mut line = chars_of(&self.lines[self.row]);
        if self.col < line.len() {
            let from: usize = self.col;
            self.erase(from, from + 1);
        } else if self.row < self.lines.len() - 1 {
            let next = self.lines.remove(self.row + 1);
            let tail = chars_of(&next);
            push_all(&mut line, &tail);
            self.lines.set(self.row, string_of(&line));
            proof {
                assert(self@.lines =~= start.join_down().lines);
            }
        }
    }

    // ---- movement ----

    pub fn left(&mut self)
        requires
            old(self)@.wf(),
        ensures
            final(self)@ == old(self)@.left(),
            final(self)@.wf(),
    {
        if self.col > 0 {
            self.col -= 1;
        } else if self.row > 0 {
            self.row -= 1;
            self.col = char_len(&self.lines[self.row]);
        }
    }

    pub fn right(&mut self)
        requires
            old(self)@.wf(),
        ensures
            final(self)@ == old(self)@.right(),
            final(self)@.wf(),
    {
        if self.col < char_len(&self.lines[self.row]) {
            self.col += 1;
        } else if self.row < self.lines.len() - 1 {
            self.row += 1;
            self.col = 0;
        }
    }

    pub fn up(&mut self)
        requires
            old(self)@.wf(),
        ensures
            final(self)@ == old(self)@.up(),
            final(self)@.wf(),
    {
        if self.row > 0 {
            self.row -= 1;
            self.keep_in_line();
        }
    }

    pub fn down(&mut self)
        requires
            old(self)@.wf(),
        ensures
            final(self)@ == old(self)@.down(),
            final(self)@.wf(),
    {
        if self.row < self.lines.len() - 1 {
            self.row += 1;
            self.keep_in_line();
        }
    }

    /// Pull the column back to the end of a line shorter than it.
    fn keep_in_line(&mut self)
        requires
            old(self)@.row < old(self)@.lines.len(),
        ensures
            final(self)@ == old(self)@.at_row(old(self)@.row as int),
    {
        let len: usize = char_len(&self.lines[self.row]);
        if self.col > len {
            self.col = len;
        }
    }

    pub fn home(&mut self)
        requires
            old(self)@.wf(),
        ensures
            final(self)@ == old(self)@.home(),
            final(self)@.wf(),
    {
        self.col = 0;
    }

    pub fn end(&mut self)
        requires
            old(self)@.wf(),
        ensures
            final(self)@ == old(self)@.end(),
            final(self)@.wf(),
    {
        self.col = char_len(&self.lines[self.row]);
    }

    /// Column where the word before the cursor starts: back over any run of
    /// spaces, then over the word itself. Shared by [`Self::left_word`] and
    /// [`Self::delete_word`] so moving and deleting always agree on where a word
    /// begins.
    fn prev_word_col(&self) -> (i: usize)
        requires
            self@.wf(),
        ensures
            i == word_start(self@.line(), self@.col as int),
            i <= self@.col,
    {
        let chars = chars_of(&self.lines[self.row]);
        let mut i: usize = self.col;
        while i > 0 && chars[i - 1] == ' '
            invariant
                i <= self.col <= chars@.len(),
                run_start(chars@, i as int, true) == run_start(chars@, self.col as int, true),
            decreases i,
        {
            i -= 1;
        }
        let ghost mid = i as int;
        while i > 0 && chars[i - 1] != ' '
            invariant
                i <= self.col <= chars@.len(),
                run_start(chars@, i as int, false) == run_start(chars@, mid, false),
            decreases i,
        {
            i -= 1;
        }
        i
    }

    /// Jump to the start of the word before the cursor. At column 0 this steps
    /// to the end of the previous line, like a plain left.
    pub fn left_word(&mut self)
        requires
            old(self)@.wf(),
        ensures
            final(self)@ == old(self)@.left_word(),
            final(self)@.wf(),
    {
        if self.col == 0 {
            self.left();
            return;
        }
        self.col = self.prev_word_col();
    }

    /// Jump past the word after the cursor. At the end of a line this steps to
    /// the start of the next one, like a plain right.
    pub fn right_word(&mut self)
        requires
            old(self)@.wf(),
        ensures
            final(self)@ == old(self)@.right_word(),
            final(self)@.wf(),
    {
        let chars = chars_of(&self.lines[self.row]);
        if self.col >= chars.len() {
            self.right();
            return;
        }
        let ghost col = self.col as int;
        let mut i: usize = self.col;
        while i < chars.len() && chars[i] == ' '
            invariant
                i <= chars@.len(),
                run_end(chars@, i as int, true) == run_end(chars@, col, true),
            decreases chars@.len() - i,
        {
            i += 1;
        }
        let ghost mid = i as int;
        while i < chars.len() && chars[i] != ' '
            invariant
                i <= chars@.len(),
                run_end(chars@, i as int, false) == run_end(chars@, mid, false),
            decreases chars@.len() - i,
        {
            i += 1;
        }
        self.col = i;
    }

    /// Delete the word before the cursor: any run of spaces, then the word
    /// itself. At column 0 this falls back to a plain backspace (merging lines).
    /// A selection takes precedence and is removed instead.
    pub fn delete_word(&mut self)
        requires
            old(self)@.wf(),
        ensures
            final(self)@ == old(self)@.delete_word(),
            final(self)@.wf(),
    {
        if self.delete_selection() {
            return;
        }
        if self.col == 0 {
            self.backspace();
            return;
        }
        let from: usize = self.prev_word_col();
        let to: usize = self.col;
        self.erase(from, to);
    }

    /// Clear the current line's text, leaving an empty line with the cursor at
    /// its start. A selection takes precedence and is removed instead.
    pub fn kill_line(&mut self)
        requires
            old(self)@.wf(),
        ensures
            final(self)@ == old(self)@.kill_line(),
            final(self)@.wf(),
    {
        if self.delete_selection() {
            return;
        }
        let ghost start = self@;
        self.lines.set(self.row, String::new());
        self.col = 0;
        proof {
            assert(self@.lines =~= start.lines.update(start.row as int, Seq::empty()));
        }
    }
}

// ---- laws ----

/// The text up to a position.
pub open spec fn head(lines: Seq<Seq<char>>, row: int, col: int) -> Seq<char> {
    join(lines.take(row).push(lines[row].take(col)), '\n')
}

/// The text from a position on.
pub open spec fn tail(lines: Seq<Seq<char>>, row: int, col: int) -> Seq<char> {
    join(seq![lines[row].skip(col)] + lines.skip(row + 1), '\n')
}

impl EditorState {
    /// The text before the caret.
    pub open spec fn left_of_caret(self) -> Seq<char> {
        head(self.lines, self.row as int, self.col as int)
    }

    /// The text after the caret.
    pub open spec fn right_of_caret(self) -> Seq<char> {
        tail(self.lines, self.row as int, self.col as int)
    }
}

/// The text without its carriage returns.
pub open spec fn without_cr(t: Seq<char>) -> Seq<char>
    decreases t.len(),
{
    if t.len() == 0 {
        Seq::empty()
    } else if t.last() == '\r' {
        without_cr(t.drop_last())
    } else {
        without_cr(t.drop_last()).push(t.last())
    }
}

/// Growing the last piece grows the joined text.
pub proof fn lemma_join_grow(front: Seq<Seq<char>>, last: Seq<char>, more: Seq<char>)
    ensures
        join(front.push(last + more), '\n') == join(front.push(last), '\n') + more,
{
    let a = front.push(last + more);
    let b = front.push(last);
    assert(a.drop_last() =~= front);
    assert(b.drop_last() =~= front);
    if front.len() == 0 {
        assert(join(a, '\n') =~= join(b, '\n') + more);
    } else {
        assert(join(a, '\n') =~= join(b, '\n') + more);
    }
}

/// Growing the first piece at its front grows the joined text at its front.
pub proof fn lemma_join_grow_front(more: Seq<char>, first: Seq<char>, rest: Seq<Seq<char>>)
    ensures
        join(seq![more + first] + rest, '\n') == more + join(seq![first] + rest, '\n'),
{
    if rest.len() == 0 {
        assert(seq![more + first] + rest =~= seq![more + first]);
        assert(seq![first] + rest =~= seq![first]);
    } else {
        lemma_join_concat(seq![more + first], rest, '\n');
        lemma_join_concat(seq![first], rest, '\n');
        assert(join(seq![more + first] + rest, '\n') =~= more + join(seq![first] + rest, '\n'));
    }
}

/// A text cut in two anywhere is the two halves.
pub proof fn lemma_head_tail(lines: Seq<Seq<char>>, row: int, col: int)
    requires
        0 <= row < lines.len(),
        0 <= col <= lines[row].len(),
    ensures
        join(lines, '\n') == head(lines, row, col) + tail(lines, row, col),
{
    let l = lines[row];
    assert(l =~= l.take(col) + l.skip(col));
    let rest = lines.skip(row + 1);
    lemma_join_grow_front(l.take(col), l.skip(col), rest);
    if row == 0 {
        assert(lines =~= seq![l] + rest);
        assert(lines.take(row).push(l.take(col)) =~= seq![l.take(col)]);
    } else {
        assert(lines =~= lines.take(row) + (seq![l] + rest));
        lemma_join_concat(lines.take(row), seq![l] + rest, '\n');
        assert(lines.take(row).push(l.take(col)).drop_last() =~= lines.take(row));
        assert(join(lines, '\n') =~= head(lines, row, col) + tail(lines, row, col));
    }
}

/// The buffer is the text before the caret followed by the text after it.
pub proof fn law_caret_splits_the_text(s: EditorState)
    requires
        s.wf(),
    ensures
        s.text() == s.left_of_caret() + s.right_of_caret(),
{
    lemma_head_tail(s.lines, s.row as int, s.col as int);
}

/// Typing a character puts it before the caret and touches nothing else.
pub proof fn law_put_char(s: EditorState, c: char)
    requires
        s.wf(),
        s.col < usize::MAX,
    ensures
        s.put_char(c).left_of_caret() == s.left_of_caret().push(c),
        s.put_char(c).right_of_caret() == s.right_of_caret(),
{
    let row = s.row as int;
    let col = s.col as int;
    let l = s.line();
    let now = s.put_char(c);
    assert(now.lines.take(row) =~= s.lines.take(row));
    assert(now.line().take(col + 1) =~= l.take(col) + seq![c]);
    lemma_join_grow(s.lines.take(row), l.take(col), seq![c]);
    assert(s.left_of_caret() + seq![c] =~= s.left_of_caret().push(c));
    assert(now.line().skip(col + 1) =~= l.skip(col));
    assert(now.lines.skip(row + 1) =~= s.lines.skip(row + 1));
}

/// Breaking a line puts a newline before the caret and touches nothing else.
pub proof fn law_break_line(s: EditorState)
    requires
        s.wf(),
        s.row < usize::MAX,
    ensures
        s.break_line().left_of_caret() == s.left_of_caret().push('\n'),
        s.break_line().right_of_caret() == s.right_of_caret(),
{
    let row = s.row as int;
    let col = s.col as int;
    let l = s.line();
    let now = s.break_line();
    let front = s.lines.take(row).push(l.take(col));
    assert(now.lines.take(row + 1) =~= front);
    assert(now.lines[row + 1] == l.skip(col));
    assert(now.line().take(0) =~= Seq::empty());
    assert(front.push(Seq::empty()).drop_last() =~= front);
    assert(now.left_of_caret() =~= s.left_of_caret().push('\n'));
    assert(now.line().skip(0) =~= l.skip(col));
    assert(now.lines.skip(row + 2) =~= s.lines.skip(row + 1));
}

/// Deleting backwards from the caret takes the last character before it -
/// a newline, at the start of a line - and touches nothing else. At the start
/// of the text it does nothing.
pub proof fn law_backspace(s: EditorState)
    requires
        s.wf(),
        s.selection() is None,
        forall|i: int| 0 <= i < s.lines.len() ==> (#[trigger] s.lines[i]).len() <= usize::MAX,
    ensures
        s.left_of_caret().len() > 0 ==> {
            &&& s.backspace().left_of_caret() == s.left_of_caret().drop_last()
            &&& s.backspace().right_of_caret() == s.right_of_caret()
        },
        s.left_of_caret().len() == 0 ==> s.backspace().text() == s.text(),
{
    let row = s.row as int;
    let col = s.col as int;
    let l = s.line();
    let now = s.backspace();
    if col > 0 {
        assert(now.lines.take(row) =~= s.lines.take(row));
        assert(now.line().take(col - 1) =~= l.take(col - 1));
        assert(l.take(col) =~= l.take(col - 1) + seq![l[col - 1]]);
        lemma_join_grow(s.lines.take(row), l.take(col - 1), seq![l[col - 1]]);
        assert(s.left_of_caret() =~= now.left_of_caret().push(l[col - 1]));
        assert(s.left_of_caret().drop_last() =~= now.left_of_caret());
        assert(now.line().skip(col - 1) =~= l.skip(col));
        assert(now.lines.skip(row + 1) =~= s.lines.skip(row + 1));
    } else if row > 0 {
        let above = s.lines[row - 1];
        assert(now.lines[row - 1] == above + l);
        assert(now.lines.take(row - 1) =~= s.lines.take(row - 1));
        assert((above + l).take(above.len() as int) =~= above);
        assert(s.lines.take(row - 1).push(above) =~= s.lines.take(row));
        let front = s.lines.take(row);
        assert(l.take(0) =~= Seq::empty());
        assert(front.push(Seq::empty()).drop_last() =~= front);
        assert(s.left_of_caret() =~= join(front, '\n').push('\n'));
        assert(s.left_of_caret().drop_last() =~= now.left_of_caret());
        assert((above + l).skip(above.len() as int) =~= l);
        assert(l.skip(0) =~= l);
        assert(now.lines.skip(row) =~= s.lines.skip(row + 1));
    } else {
        assert(l.take(0) =~= Seq::empty());
        assert(s.lines.take(0).push(l.take(0)) =~= seq![Seq::<char>::empty()]);
    }
}

/// Removing a selection takes out exactly the selected text, and leaves the
/// caret where the selection started.
pub proof fn law_delete_selection(s: EditorState)
    requires
        s.wf(),
        s.selection() is Some,
    ensures
        s.text() == s.without_selection().left_of_caret() + s.selected_text()->0
            + s.without_selection().right_of_caret(),
        s.without_selection().cursor() == (s.selection()->0).0,
        s.without_selection().selection() is None,
{
    let (a, b) = s.selection()->0;
    let lines = s.lines;
    let now = s.without_selection();
    let (ar, ac, br, bc) = (a.row as int, a.col as int, b.row as int, b.col as int);
    let la = lines[ar];
    let lb = lines[br];
    lemma_head_tail(lines, ar, ac);
    assert(now.lines.take(ar) =~= lines.take(ar));
    assert(now.lines[ar] == la.take(ac) + lb.skip(bc));
    assert(now.lines[ar].take(ac) =~= la.take(ac));
    assert(now.lines[ar].skip(ac) =~= lb.skip(bc));
    assert(now.lines.skip(ar + 1) =~= lines.skip(br + 1));
    let rest = lines.skip(br + 1);
    let gone = s.selected_text()->0;
    if ar == br {
        assert(la.skip(ac) =~= gone + lb.skip(bc));
        lemma_join_grow_front(gone, lb.skip(bc), rest);
    } else {
        let mid = lines.subrange(ar + 1, br);
        assert(lines.skip(ar + 1) =~= mid + (seq![lb] + rest));
        assert(seq![la.skip(ac)] + lines.skip(ar + 1) =~= (seq![la.skip(ac)] + mid) + (seq![lb]
            + rest));
        lemma_join_concat(seq![la.skip(ac)] + mid, seq![lb] + rest, '\n');
        assert(lb =~= lb.take(bc) + lb.skip(bc));
        lemma_join_grow_front(lb.take(bc), lb.skip(bc), rest);
        assert(seq![la.skip(ac)] + mid.push(lb.take(bc)) =~= (seq![la.skip(ac)] + mid).push(
            lb.take(bc),
        ));
        assert((seq![la.skip(ac)] + mid).push(lb.take(bc)).drop_last() =~= seq![la.skip(ac)] + mid);
        assert(tail(lines, ar, ac) =~= gone + tail(lines, br, bc));
    }
    assert(s.text() =~= now.left_of_caret() + gone + now.right_of_caret());
}

/// Selecting everything selects the whole text, when there is any.
pub proof fn law_select_all(s: EditorState)
    requires
        s.wf(),
        s.lines.len() <= usize::MAX,
        s.lines.last().len() <= usize::MAX,
    ensures
        s.text().len() > 0 ==> s.select_all().selected_text() == Some(s.text()),
        s.text().len() == 0 ==> s.select_all().selection() is None,
{
    let all = s.select_all();
    let n = s.lines.len();
    if n == 1 {
        assert(s.lines[0].take(0) =~= Seq::empty());
        assert(s.lines[0].subrange(0, s.lines[0].len() as int) =~= s.lines[0]);
    } else {
        let front = s.lines.take(n - 1);
        assert(s.lines.drop_last() =~= front);
        assert(s.text().len() > 0);
        assert(s.lines[0].skip(0) =~= s.lines[0]);
        assert(s.lines.last().take(s.lines.last().len() as int) =~= s.lines.last());
        assert(seq![s.lines[0].skip(0)] + s.lines.subrange(1, n - 1).push(
            s.lines.last().take(s.lines.last().len() as int),
        ) =~= s.lines);
    }
}

/// Deleting forwards takes the first character after the caret - a newline, at
/// the end of a line - and touches nothing else. At the end of the text it
/// does nothing.
pub proof fn law_delete(s: EditorState)
    requires
        s.wf(),
        s.selection() is None,
    ensures
        s.right_of_caret().len() > 0 ==> {
            &&& s.delete().left_of_caret() == s.left_of_caret()
            &&& s.delete().right_of_caret() == s.right_of_caret().drop_first()
        },
        s.right_of_caret().len() == 0 ==> s.delete().text() == s.text(),
{
    let row = s.row as int;
    let col = s.col as int;
    let l = s.line();
    let now = s.delete();
    let rest = s.lines.skip(row + 1);
    if col < l.len() {
        assert(now.lines.take(row) =~= s.lines.take(row));
        assert(now.line().take(col) =~= l.take(col));
        assert(l.skip(col) =~= seq![l[col]] + l.skip(col + 1));
        lemma_join_grow_front(seq![l[col]], l.skip(col + 1), rest);
        assert(now.line().skip(col) =~= l.skip(col + 1));
        assert(now.lines.skip(row + 1) =~= rest);
        assert(s.right_of_caret().drop_first() =~= now.right_of_caret());
    } else if row + 1 < s.lines.len() {
        let below = s.lines[row + 1];
        assert(now.lines.take(row) =~= s.lines.take(row));
        assert(now.line() == l + below);
        assert(now.line().take(col) =~= l.take(col));
        assert(now.line().skip(col) =~= below);
        assert(now.lines.skip(row + 1) =~= s.lines.skip(row + 2));
        assert(l.skip(col) =~= Seq::empty());
        assert(rest =~= seq![below] + s.lines.skip(row + 2));
        lemma_join_concat(seq![l.skip(col)], rest, '\n');
        assert(s.right_of_caret().drop_first() =~= now.right_of_caret());
    } else {
        assert(rest =~= Seq::<Seq<char>>::empty());
        assert(l.skip(col) =~= Seq::empty());
        assert(seq![l.skip(col)] + rest =~= seq![Seq::<char>::empty()]);
    }
}

/// Typing a text inserts it at the caret, less its carriage returns, and
/// touches nothing else.
pub proof fn law_typed(s: EditorState, t: Seq<char>)
    requires
        s.wf(),
        s.anchor is None,
        s.row + t.len() <= usize::MAX,
        s.col + t.len() <= usize::MAX,
    ensures
        s.typed(t).wf(),
        s.typed(t).left_of_caret() == s.left_of_caret() + without_cr(t),
        s.typed(t).right_of_caret() == s.right_of_caret(),
        s.typed(t).anchor is None,
        s.typed(t).row <= s.row + t.len(),
        s.typed(t).col <= s.col + t.len(),
    decreases t.len(),
{
    if t.len() > 0 {
        law_typed(s, t.drop_last());
        let mid = s.typed(t.drop_last());
        if t.last() == '\n' {
            law_break_line(mid);
            assert(s.typed(t).left_of_caret() =~= s.left_of_caret() + without_cr(t));
        } else if t.last() != '\r' {
            law_put_char(mid, t.last());
            assert(s.typed(t).left_of_caret() =~= s.left_of_caret() + without_cr(t));
        }
    } else {
        assert(s.left_of_caret() + without_cr(t) =~= s.left_of_caret());
    }
}

/// Backspace undoes what was just typed: a character, or a line break.
pub proof fn law_backspace_undoes_typing(s: EditorState, c: char)
    requires
        s.wf(),
        s.anchor is None,
        s.col < usize::MAX,
        s.row < usize::MAX,
    ensures
        s.insert_char(c).backspace() == s,
        s.insert_newline().backspace() == s,
{
    let row = s.row as int;
    let col = s.col as int;
    let l = s.line();
    let typed = s.insert_char(c);
    assert(typed.line().take(col) + typed.line().skip(col + 1) =~= l);
    assert(typed.backspace() =~= s);
    let broken = s.insert_newline();
    assert(broken.lines[row] == l.take(col));
    assert(broken.lines[row + 1] == l.skip(col));
    assert(l.take(col) + l.skip(col) =~= l);
    assert(broken.backspace() =~= s);
}

} // verus!

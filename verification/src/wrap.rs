//! Word wrap for the note editor, and the map between logical and visual
//! positions that goes with it.
//!
//! The map has to go both ways. Rendering turns a cursor and a selection into
//! screen cells; the mouse turns a screen cell back into a cursor. Both run the
//! *same* wrap here: if hit-testing and drawing computed the layout separately
//! they would eventually disagree, and the note you click would stop being the
//! text you see.

use crate::editor::{char_len, Cursor};
use crate::text::{chars_of, string_from, strs};
use vstd::prelude::*;

verus! {

/// One visual row: its text, which logical line it came from, and the character
/// index within that line where it starts.
#[derive(Debug, Clone, PartialEq, Eq)]
pub struct Row {
    pub text: String,
    pub line: usize,
    pub start: usize,
}

/// A visual row as a value: see [`Row`].
#[verifier::ext_equal]
pub struct RowView {
    pub text: Seq<char>,
    pub line: usize,
    pub start: usize,
}

impl View for Row {
    type V = RowView;

    open spec fn view(&self) -> RowView {
        RowView { text: self.text@, line: self.line, start: self.start }
    }
}

impl RowView {
    /// The character index just past this row.
    pub open spec fn end(self) -> int {
        self.start + self.text.len()
    }
}

/// Logical lines laid out at a width.
#[derive(Debug, Clone, PartialEq, Eq)]
pub struct Wrapped {
    pub rows: Vec<Row>,
}

impl View for Wrapped {
    type V = Seq<RowView>;

    open spec fn view(&self) -> Seq<RowView> {
        Seq::new(self.rows@.len(), |i: int| self.rows@[i]@)
    }
}

/// The last space in `chars[from..to]`.
pub open spec fn last_space(chars: Seq<char>, from: int, to: int) -> Option<int>
    decreases to - from,
{
    if to <= from {
        None
    } else if chars[to - 1] == ' ' {
        Some(to - 1)
    } else {
        last_space(chars, from, to - 1)
    }
}

/// Where the row that starts at `start` ends: at the end of the line if the
/// rest fits, after the last space that fits if there is one past the row's
/// first character, and at the full width otherwise.
pub open spec fn row_end(chars: Seq<char>, start: int, width: int) -> int {
    if chars.len() - start <= width {
        chars.len() as int
    } else {
        match last_space(chars, start, start + width) {
            Some(k) if k > start => k + 1,
            _ => start + width,
        }
    }
}

/// The rows of one line from `start` on.
pub open spec fn rows_from(chars: Seq<char>, line: int, start: int, width: int) -> Seq<RowView>
    decreases chars.len() - start,
{
    if width < 1 || start < 0 || start >= chars.len() {
        Seq::empty()
    } else {
        let end = row_end(chars, start, width);
        if !(start < end <= chars.len()) {
            Seq::empty()
        } else {
            seq![
                RowView {
                    text: chars.subrange(start, end),
                    line: line as usize,
                    start: start as usize,
                },
            ] + rows_from(chars, line, end, width)
        }
    }
}

/// The rows of one line: an empty line is one empty row.
pub open spec fn rows_of(chars: Seq<char>, line: int, width: int) -> Seq<RowView> {
    if chars.len() == 0 {
        seq![RowView { text: Seq::empty(), line: line as usize, start: 0 }]
    } else {
        rows_from(chars, line, 0, width)
    }
}

/// The rows of the first `n` lines.
pub open spec fn rows_upto(lines: Seq<Seq<char>>, n: int, width: int) -> Seq<RowView>
    decreases n,
{
    if n <= 0 {
        Seq::empty()
    } else {
        rows_upto(lines, n - 1, width) + rows_of(lines[n - 1], n - 1, width)
    }
}

/// A width of nothing is a width of one.
pub open spec fn at_least_one(width: int) -> int {
    if width < 1 {
        1
    } else {
        width
    }
}

/// The lines laid out at a width. No lines at all is one empty row.
pub open spec fn wrapped(lines: Seq<Seq<char>>, width: int) -> Seq<RowView> {
    if lines.len() == 0 {
        seq![RowView { text: Seq::empty(), line: 0, start: 0 }]
    } else {
        rows_upto(lines, lines.len() as int, at_least_one(width))
    }
}

/// Rows as a layout leaves them: at least one, and each row either opens its
/// line or carries on exactly where the row above it stopped.
pub open spec fn laid_out(rows: Seq<RowView>) -> bool {
    &&& rows.len() >= 1
    &&& forall|i: int| 0 <= i < rows.len() ==> (#[trigger] rows[i]).end() <= usize::MAX
    &&& forall|i: int|
        0 <= i < rows.len() && (#[trigger] rows[i]).start > 0 ==> i > 0 && rows[i - 1].line
            == rows[i].line && rows[i - 1].end() == rows[i].start
}

/// Whether the cursor is on a character of this row.
pub open spec fn on_row(row: RowView, c: Cursor) -> bool {
    row.line == c.row && c.col < row.end()
}

/// The first of `rows[from..]` that holds the character at the cursor.
pub open spec fn first_on(rows: Seq<RowView>, c: Cursor, from: int) -> Option<int>
    decreases rows.len() - from,
{
    if from < 0 || from >= rows.len() {
        None
    } else if on_row(rows[from], c) {
        Some(from)
    } else {
        first_on(rows, c, from + 1)
    }
}

/// The last of the first `n` rows that belongs to a line.
pub open spec fn last_of_line(rows: Seq<RowView>, line: usize, n: int) -> Option<int>
    decreases n,
{
    if n <= 0 {
        None
    } else if rows[n - 1].line == line {
        Some(n - 1)
    } else {
        last_of_line(rows, line, n - 1)
    }
}

/// Where a logical cursor lands: on the row that holds its character; past the
/// end of its line, at the end of that line's last row; on a line that was never laid out, at the very end.
pub open spec fn placed(rows: Seq<RowView>, c: Cursor) -> (int, int) {
    match first_on(rows, c, 0) {
        Some(i) => (i, c.col - rows[i].start),
        None => match last_of_line(rows, c.row, rows.len() as int) {
            Some(i) => (i, rows[i].text.len() as int),
            None => (rows.len() - 1, rows.last().text.len() as int),
        },
    }
}

/// Where a visual cell points, pulled into the rows that there are.
pub open spec fn located(rows: Seq<RowView>, vrow: int, vcol: int) -> Cursor {
    let row = if vrow < rows.len() {
        rows[vrow]
    } else {
        rows.last()
    };
    let off = if vcol <= row.text.len() {
        vcol
    } else {
        row.text.len() as int
    };
    Cursor { row: row.line, col: (row.start + off) as usize }
}

proof fn lemma_last_space(chars: Seq<char>, from: int, to: int)
    ensures
        last_space(chars, from, to) matches Some(k) ==> from <= k < to,
    decreases to - from,
{
    if to > from && chars[to - 1] != ' ' {
        lemma_last_space(chars, from, to - 1);
    }
}

/// A row takes at least one character and at most the width.
proof fn lemma_row_end(chars: Seq<char>, start: int, width: int)
    requires
        0 <= start < chars.len(),
        width >= 1,
    ensures
        start < row_end(chars, start, width) <= chars.len(),
        row_end(chars, start, width) - start <= width,
{
    lemma_last_space(chars, start, start + width);
}

/// Greedy word wrap: break after spaces, hard-break words longer than the width.
///
/// Spaces are kept at the end of a wrapped row so every character maps to
/// exactly one visual cell. That one-to-one property is what makes [`Wrapped::place`]
/// and [`Wrapped::locate`] exact rather than approximate.
pub fn wrap(logical: &[String], width: usize) -> (out: Wrapped)
    ensures
        out@ == wrapped(strs(logical@), width as int),
        laid_out(out@),
{
    let width: usize = if width < 1 {
        1
    } else {
        width
    };
    let ghost lines = strs(logical@);
    let mut rows: Vec<Row> = Vec::new();
    let mut line: usize = 0;
    while line < logical.len()
        invariant
            line <= logical@.len(),
            lines == strs(logical@),
            width >= 1,
            forall|j: int| 0 <= j < line ==> (#[trigger] lines[j]).len() <= usize::MAX,
            (Wrapped { rows })@ =~= rows_upto(lines, line as int, width as int),
        decreases logical@.len() - line,
    {
        let chars = chars_of(&logical[line]);
        let ghost above = (Wrapped { rows })@;
        let ghost whole = rows_of(chars@, line as int, width as int);
        if chars.len() == 0 {
            rows.push(Row { text: String::new(), line, start: 0 });
            proof {
                assert(rows@.last()@.text =~= Seq::empty());
                assert((Wrapped { rows })@ =~= above + whole);
            }
        } else {
            let mut start: usize = 0;
            proof {
                assert(above + whole =~= (Wrapped { rows })@ + rows_from(
                    chars@,
                    line as int,
                    0,
                    width as int,
                ));
            }
            while start < chars.len()
                invariant
                    start <= chars@.len(),
                    width >= 1,
                    above + whole == (Wrapped { rows })@ + rows_from(
                        chars@,
                        line as int,
                        start as int,
                        width as int,
                    ),
                decreases chars@.len() - start,
            {
                proof {
                    lemma_row_end(chars@, start as int, width as int);
                }
                let end: usize = if chars.len() - start <= width {
                    chars.len()
                } else {
                    // Break after the last space that fits; a word wider than the
                    // row has nowhere to break, so cut it.
                    let hard_end: usize = start + width;
                    let mut k: usize = hard_end;
                    while k > start && chars[k - 1] != ' '
                        invariant
                            start <= k <= hard_end < chars@.len(),
                            last_space(chars@, start as int, k as int) == last_space(
                                chars@,
                                start as int,
                                hard_end as int,
                            ),
                        decreases k - start,
                    {
                        k -= 1;
                    }
                    if k > start && k - 1 > start {
                        k
                    } else {
                        hard_end
                    }
                };
                let ghost before = (Wrapped { rows })@;
                rows.push(Row { text: string_from(&chars, start, end), line, start });
                proof {
                    assert((Wrapped { rows })@ =~= before.push(rows@.last()@));
                    assert(above + whole =~= (Wrapped { rows })@ + rows_from(
                        chars@,
                        line as int,
                        end as int,
                        width as int,
                    ));
                }
                start = end;
            }
        }
        proof {
            assert((Wrapped { rows })@ =~= above + whole);
            assert(chars@ == lines[line as int]);
            assert(chars.len() == chars@.len());
        }
        line += 1;
    }
    proof {
        lemma_rows_upto(lines, lines.len() as int, width as int);
    }
    // A caret needs somewhere to sit even when there is nothing to show.
    if rows.len() == 0 {
        rows.push(Row { text: String::new(), line: 0, start: 0 });
        proof {
            assert(rows@.last()@.text =~= Seq::empty());
        }
    }
    let out = Wrapped { rows };
    proof {
        assert(out@ =~= wrapped(lines, width as int));
    }
    out
}

impl Wrapped {
    /// Where a logical cursor lands on screen, as `(visual row, column)`.
    ///
    /// A cursor exactly on a wrap boundary belongs to the *start of the next
    /// row*, not the end of the previous one - otherwise the caret would sit in
    /// the phantom column past the right edge.
    pub fn place(&self, c: Cursor) -> (at: (usize, usize))
        requires
            laid_out(self@),
        ensures
            (at.0 as int, at.1 as int) == placed(self@, c),
            at.0 < self@.len(),
            at.1 <= self@[at.0 as int].text.len(),
    {
        let ghost rows = self@;
        let mut last: Option<(usize, usize)> = None;
        let mut i: usize = 0;
        while i < self.rows.len()
            invariant
                i <= self.rows@.len(),
                rows == self@,
                laid_out(rows),
                first_on(rows, c, 0) == first_on(rows, c, i as int),
                i > 0 && rows[i - 1].line == c.row ==> c.col >= rows[i - 1].end(),
                match last {
                    None => last_of_line(rows, c.row, i as int) is None,
                    Some((k, len)) => last_of_line(rows, c.row, i as int) == Some(k as int) && k < i
                        && len == rows[k as int].text.len(),
                },
            decreases self.rows@.len() - i,
        {
            let row = &self.rows[i];
            assert(rows[i as int] == row@);
            if row.line == c.row {
                let len: usize = char_len(&row.text);
                if c.col < row.start + len {
                    return (i, c.col - row.start);
                }
                last = Some((i, len));
            }
            i += 1;
        }
        match last {
            // Past the end of every row for this line: the line's last row.
            Some((k, len)) => (k, len),
            // A line we never laid out. Clamp to the very end of the text.
            None => {
                let k: usize = self.rows.len() - 1;
                assert(rows[k as int] == self.rows@[k as int]@);
                (k, char_len(&self.rows[k].text))
            },
        }
    }

    /// Where a screen cell points in the buffer. Clamps, so a click past the end
    /// of a row lands at that row's end and a click below the text lands at the
    /// end of the last row.
    pub fn locate(&self, vrow: usize, vcol: usize) -> (c: Cursor)
        requires
            laid_out(self@),
        ensures
            c == located(self@, vrow as int, vcol as int),
    {
        let at: usize = if vrow < self.rows.len() {
            vrow
        } else {
            self.rows.len() - 1
        };
        let row = &self.rows[at];
        assert(self@[at as int] == row@);
        let len: usize = char_len(&row.text);
        let off: usize = if vcol <= len {
            vcol
        } else {
            len
        };
        Cursor { row: row.line, col: row.start + off }
    }
}

// ---- laws ----

/// Rows that lay out one line: they open it at its start, close it at its end,
/// carry on from one another, hold its own characters, and fit the width.
pub open spec fn lays_out(rows: Seq<RowView>, chars: Seq<char>, line: int, width: int) -> bool {
    &&& rows.len() >= 1
    &&& rows[0].start == 0
    &&& rows.last().end() == chars.len()
    &&& forall|i: int|
        0 <= i < rows.len() ==> (#[trigger] rows[i]).line == line && rows[i].end() <= chars.len()
            && rows[i].text == chars.subrange(rows[i].start as int, rows[i].end())
            && rows[i].text.len() <= width
    &&& forall|i: int| 0 < i < rows.len() ==> rows[i - 1].end() == (#[trigger] rows[i]).start
}

/// The texts of the rows, one after the other.
pub open spec fn texts(rows: Seq<RowView>) -> Seq<char>
    decreases rows.len(),
{
    if rows.len() == 0 {
        Seq::empty()
    } else {
        texts(rows.drop_last()) + rows.last().text
    }
}

/// The lines, one after the other.
pub open spec fn flat(lines: Seq<Seq<char>>) -> Seq<char>
    decreases lines.len(),
{
    if lines.len() == 0 {
        Seq::empty()
    } else {
        flat(lines.drop_last()) + lines.last()
    }
}

proof fn lemma_texts_one(row: RowView)
    ensures
        texts(seq![row]) == row.text,
{
    reveal_with_fuel(texts, 2);
    assert(seq![row].drop_last() =~= Seq::<RowView>::empty());
    assert(texts(seq![row]) =~= row.text);
}

proof fn lemma_texts_concat(a: Seq<RowView>, b: Seq<RowView>)
    ensures
        texts(a + b) == texts(a) + texts(b),
    decreases b.len(),
{
    if b.len() == 0 {
        assert(a + b =~= a);
        assert(texts(a) + texts(b) =~= texts(a));
    } else {
        assert((a + b).drop_last() =~= a + b.drop_last());
        lemma_texts_concat(a, b.drop_last());
        assert(texts(a + b) =~= texts(a) + texts(b));
    }
}

/// The rows from a place on are the first of them and the rows from where it
/// ends.
proof fn lemma_rows_step(chars: Seq<char>, line: int, start: int, width: int) -> (row: RowView)
    requires
        0 <= start < chars.len() <= usize::MAX,
        0 <= line <= usize::MAX,
        width >= 1,
    ensures
        start < row_end(chars, start, width) <= chars.len(),
        row_end(chars, start, width) - start <= width,
        row == (RowView {
            text: chars.subrange(start, row_end(chars, start, width)),
            line: line as usize,
            start: start as usize,
        }),
        rows_from(chars, line, start, width) == seq![row] + rows_from(
            chars,
            line,
            row_end(chars, start, width),
            width,
        ),
{
    lemma_row_end(chars, start, width);
    let end = row_end(chars, start, width);
    let row = RowView {
        text: chars.subrange(start, end),
        line: line as usize,
        start: start as usize,
    };
    assert(rows_from(chars, line, start, width) =~= seq![row] + rows_from(
        chars,
        line,
        end,
        width,
    ));
    row
}

/// The rows hold the line's characters, all of them and in order.
proof fn lemma_rows_text(chars: Seq<char>, line: int, start: int, width: int)
    requires
        0 <= start < chars.len() <= usize::MAX,
        0 <= line <= usize::MAX,
        width >= 1,
    ensures
        texts(rows_from(chars, line, start, width)) == chars.skip(start),
    decreases chars.len() - start,
{
    let row = lemma_rows_step(chars, line, start, width);
    let end = row_end(chars, start, width);
    let rest = rows_from(chars, line, end, width);
    lemma_texts_concat(seq![row], rest);
    lemma_texts_one(row);
    if end < chars.len() {
        lemma_rows_text(chars, line, end, width);
        assert(chars.skip(start) =~= row.text + chars.skip(end));
    } else {
        assert(rest =~= Seq::<RowView>::empty());
        assert(chars.skip(start) =~= row.text + Seq::<char>::empty());
    }
}

proof fn lemma_rows_from(chars: Seq<char>, line: int, start: int, width: int)
    requires
        0 <= start < chars.len() <= usize::MAX,
        0 <= line <= usize::MAX,
        width >= 1,
    ensures
        ({
            let r = rows_from(chars, line, start, width);
            &&& r.len() >= 1
            &&& r[0].start == start
            &&& r.last().end() == chars.len()
            &&& forall|i: int|
                0 <= i < r.len() ==> (#[trigger] r[i]).line == line && r[i].end() <= chars.len()
                    && r[i].text == chars.subrange(r[i].start as int, r[i].end())
                    && r[i].text.len() <= width
            &&& forall|i: int| 0 < i < r.len() ==> r[i - 1].end() == (#[trigger] r[i]).start
        }),
    decreases chars.len() - start,
{
    let row = lemma_rows_step(chars, line, start, width);
    let end = row_end(chars, start, width);
    let rest = rows_from(chars, line, end, width);
    let r = rows_from(chars, line, start, width);
    if end < chars.len() {
        lemma_rows_from(chars, line, end, width);
        assert(r.last() == rest.last());
        assert forall|i: int| 0 <= i < r.len() implies (#[trigger] r[i]).line == line && r[i].end()
            <= chars.len() && r[i].text == chars.subrange(r[i].start as int, r[i].end())
            && r[i].text.len() <= width by {
            if i > 0 {
                assert(r[i] == rest[i - 1]);
            }
        }
        assert forall|i: int| 0 < i < r.len() implies r[i - 1].end() == (#[trigger] r[i]).start by {
            assert(r[i] == rest[i - 1]);
            if i > 1 {
                assert(r[i - 1] == rest[i - 2]);
            }
        }
    } else {
        assert(rest =~= Seq::<RowView>::empty());
        assert(r =~= seq![row]);
    }
}

proof fn lemma_rows_of(chars: Seq<char>, line: int, width: int)
    requires
        chars.len() <= usize::MAX,
        0 <= line <= usize::MAX,
        width >= 1,
    ensures
        lays_out(rows_of(chars, line, width), chars, line, width),
        texts(rows_of(chars, line, width)) == chars,
{
    if chars.len() > 0 {
        lemma_rows_from(chars, line, 0, width);
        lemma_rows_text(chars, line, 0, width);
        assert(chars.skip(0) =~= chars);
    } else {
        let r = rows_of(chars, line, width);
        lemma_texts_one(r[0]);
        assert(r =~= seq![r[0]]);
        assert(texts(r) =~= chars);
        assert(r[0].text =~= chars.subrange(0, 0));
    }
}

/// Rows that do not belong to a line do not change which row is its last.
proof fn lemma_last_skips(rows: Seq<RowView>, line: usize, from: int, n: int)
    requires
        0 <= from <= n <= rows.len(),
        forall|i: int| from <= i < n ==> (#[trigger] rows[i]).line != line,
    ensures
        last_of_line(rows, line, n) == last_of_line(rows, line, from),
    decreases n - from,
{
    if n > from {
        lemma_last_skips(rows, line, from, n - 1);
    }
}

proof fn lemma_last_prefix(a: Seq<RowView>, b: Seq<RowView>, line: usize, n: int)
    requires
        0 <= n <= a.len(),
    ensures
        last_of_line(a + b, line, n) == last_of_line(a, line, n),
        last_of_line(a, line, n) matches Some(k) ==> 0 <= k < n && a[k].line == line,
    decreases n,
{
    if n > 0 {
        lemma_last_prefix(a, b, line, n - 1);
        assert((a + b)[n - 1] == a[n - 1]);
    }
}

/// The last row of line `l` ends where the line does.
pub open spec fn closes(rows: Seq<RowView>, lines: Seq<Seq<char>>, l: usize) -> bool {
    let last = last_of_line(rows, l, rows.len() as int);
    last is Some && rows[last->0].end() == lines[l as int].len()
}

/// What the rows of the first `n` lines look like.
proof fn lemma_rows_upto(lines: Seq<Seq<char>>, n: int, width: int)
    requires
        0 <= n <= lines.len() <= usize::MAX,
        forall|j: int| 0 <= j < lines.len() ==> (#[trigger] lines[j]).len() <= usize::MAX,
        width >= 1,
    ensures
        rows_upto(lines, n, width).len() >= n,
        n >= 1 ==> laid_out(rows_upto(lines, n, width)),
        forall|i: int|
            0 <= i < rows_upto(lines, n, width).len() ==> {
                let row = #[trigger] rows_upto(lines, n, width)[i];
                &&& row.line < n
                &&& row.end() <= lines[row.line as int].len()
                &&& row.text == lines[row.line as int].subrange(row.start as int, row.end())
                &&& row.text.len() <= width
            },
        forall|l: usize| 0 <= l < n ==> #[trigger] closes(rows_upto(lines, n, width), lines, l),
        texts(rows_upto(lines, n, width)) == flat(lines.take(n)),
    decreases n,
{
    let rows = rows_upto(lines, n, width);
    if n > 0 {
        let above = rows_upto(lines, n - 1, width);
        let block = rows_of(lines[n - 1], n - 1, width);
        lemma_rows_upto(lines, n - 1, width);
        lemma_rows_of(lines[n - 1], n - 1, width);
        assert(rows =~= above + block);
        assert forall|i: int| 0 <= i < rows.len() implies {
            let row = #[trigger] rows[i];
            &&& row.line < n
            &&& row.end() <= lines[row.line as int].len()
            &&& row.text == lines[row.line as int].subrange(row.start as int, row.end())
            &&& row.text.len() <= width
        } by {
            if i < above.len() {
                assert(rows[i] == above[i]);
            } else {
                assert(rows[i] == block[i - above.len()]);
            }
        }
        assert forall|i: int| 0 <= i < rows.len() && (#[trigger] rows[i]).start > 0 implies i > 0
            && rows[i - 1].line == rows[i].line && rows[i - 1].end() == rows[i].start by {
            if i < above.len() {
                assert(rows[i] == above[i]);
                assert(rows[i - 1] == above[i - 1]);
            } else {
                let k = i - above.len();
                assert(rows[i] == block[k]);
                assert(k > 0);
                assert(rows[i - 1] == block[k - 1]);
            }
        }
        assert forall|i: int| 0 <= i < rows.len() implies (#[trigger] rows[i]).end()
            <= usize::MAX by {
            assert(rows[i].end() <= lines[rows[i].line as int].len());
        }
        assert(laid_out(rows));
        assert forall|l: usize| 0 <= l < n implies #[trigger] closes(rows, lines, l) by {
            if l == n - 1 {
                assert(rows.last() == block.last());
            } else {
                assert forall|i: int| above.len() <= i < rows.len() implies (
                #[trigger] rows[i]).line != l by {
                    assert(rows[i] == block[i - above.len()]);
                }
                assert(closes(above, lines, l));
                lemma_last_skips(rows, l, above.len() as int, rows.len() as int);
                lemma_last_prefix(above, block, l, above.len() as int);
            }
        }
        lemma_texts_concat(above, block);
        assert(lines.take(n).drop_last() =~= lines.take(n - 1));
    } else {
        assert(lines.take(0) =~= Seq::<Seq<char>>::empty());
    }
}

/// Lines that a machine can hold: their number and their lengths fit a `usize`.
pub open spec fn storable(lines: Seq<Seq<char>>) -> bool {
    &&& lines.len() <= usize::MAX
    &&& forall|j: int| 0 <= j < lines.len() ==> (#[trigger] lines[j]).len() <= usize::MAX
}

/// Wrapping loses no characters and changes none: the rows read one after the
/// other are the lines read one after the other.
pub proof fn law_wrap_keeps_all_characters(lines: Seq<Seq<char>>, width: int)
    requires
        storable(lines),
    ensures
        texts(wrapped(lines, width)) == flat(lines),
{
    if lines.len() > 0 {
        lemma_rows_upto(lines, lines.len() as int, at_least_one(width));
        assert(lines.take(lines.len() as int) =~= lines);
    } else {
        let r = wrapped(lines, width);
        lemma_texts_one(r[0]);
        assert(r =~= seq![r[0]]);
        assert(texts(r) =~= flat(lines));
    }
}

proof fn lemma_last_of_line(rows: Seq<RowView>, line: usize, n: int)
    requires
        n <= rows.len(),
    ensures
        last_of_line(rows, line, n) matches Some(i) ==> 0 <= i < n,
    decreases n,
{
    if n > 0 {
        lemma_last_of_line(rows, line, n - 1);
    }
}

/// A cursor is always on a row there is.
pub proof fn lemma_placed(rows: Seq<RowView>, c: Cursor)
    requires
        rows.len() >= 1,
    ensures
        0 <= placed(rows, c).0 < rows.len(),
{
    lemma_first_on(rows, c, 0);
    lemma_last_of_line(rows, c.row, rows.len() as int);
}

/// Text is always laid out in some row.
pub proof fn lemma_some_row(lines: Seq<Seq<char>>, width: int)
    requires
        storable(lines),
    ensures
        wrapped(lines, width).len() >= 1,
{
    if lines.len() > 0 {
        lemma_rows_upto(lines, lines.len() as int, at_least_one(width));
    }
}

/// No row is wider than the width, and every row holds characters of the line
/// it is labelled with, from where it says it starts.
pub proof fn law_wrap_bounds_the_width(lines: Seq<Seq<char>>, width: int, i: int)
    requires
        storable(lines),
        lines.len() > 0,
        0 <= i < wrapped(lines, width).len(),
    ensures
        ({
            let row = wrapped(lines, width)[i];
            &&& row.text.len() <= at_least_one(width)
            &&& row.line < lines.len()
            &&& row.text == lines[row.line as int].subrange(row.start as int, row.end())
        }),
{
    lemma_rows_upto(lines, lines.len() as int, at_least_one(width));
}

proof fn lemma_first_on(rows: Seq<RowView>, c: Cursor, from: int)
    requires
        0 <= from <= rows.len(),
    ensures
        match first_on(rows, c, from) {
            Some(i) => from <= i < rows.len() && on_row(rows[i], c) && forall|k: int|
                from <= k < i ==> !on_row(#[trigger] rows[k], c),
            None => forall|k: int| from <= k < rows.len() ==> !on_row(#[trigger] rows[k], c),
        },
    decreases rows.len() - from,
{
    if from < rows.len() && !on_row(rows[from], c) {
        lemma_first_on(rows, c, from + 1);
    }
}

/// Locating undoes placing: the cell a cursor is drawn at points back at that
/// cursor, for every position in the text.
pub proof fn law_locate_inverts_place(lines: Seq<Seq<char>>, width: int, c: Cursor)
    requires
        storable(lines),
        c.row < lines.len(),
        c.col <= lines[c.row as int].len(),
    ensures
        ({
            let rows = wrapped(lines, width);
            located(rows, placed(rows, c).0, placed(rows, c).1) == c
        }),
{
    let rows = wrapped(lines, width);
    let n = rows.len() as int;
    lemma_rows_upto(lines, lines.len() as int, at_least_one(width));
    lemma_first_on(rows, c, 0);
    match first_on(rows, c, 0) {
        Some(i) => {
            if rows[i].start > 0 {
                assert(!on_row(rows[i - 1], c));
            }
        },
        None => {
            assert(closes(rows, lines, c.row));
            lemma_last_prefix(rows, Seq::empty(), c.row, n);
            let k = last_of_line(rows, c.row, n)->0;
            assert(!on_row(rows[k], c));
        },
    }
}

/// A row of a line, broken off where a greedy wrap breaks it off: it takes the
/// rest of the line where that fits; otherwise it ends just after a space, with
/// no space further on that would still fit; and where no space past its first
/// character would, it is as wide as it can be.
pub open spec fn broken_greedily(row: RowView, chars: Seq<char>, width: int) -> bool {
    let (start, end) = (row.start as int, row.end());
    &&& end <= chars.len()
    &&& row.text == chars.subrange(start, end)
    &&& chars.len() - start <= width <==> end == chars.len()
    &&& end < chars.len() ==> {
        ||| (start + 1 < end <= start + width && chars[end - 1] == ' ' && forall|k: int|
            end <= k < start + width ==> #[trigger] chars[k] != ' ')
        ||| (end == start + width && forall|k: int|
            start < k < start + width ==> #[trigger] chars[k] != ' ')
    }
}

/// Row follows row: where a row breaks its line off, the next carries on from
/// there, and where it ends it, the next opens the next line.
pub open spec fn follows(row: RowView, next: RowView, lines: Seq<Seq<char>>) -> bool {
    if row.end() < lines[row.line as int].len() {
        next.line == row.line && next.start == row.end()
    } else {
        next.line == row.line + 1 && next.start == 0
    }
}

proof fn lemma_last_space_is_last(chars: Seq<char>, from: int, to: int)
    requires
        0 <= from <= to <= chars.len(),
    ensures
        match last_space(chars, from, to) {
            Some(i) => from <= i < to && chars[i] == ' ' && forall|k: int|
                i < k < to ==> #[trigger] chars[k] != ' ',
            None => forall|k: int| from <= k < to ==> #[trigger] chars[k] != ' ',
        },
    decreases to - from,
{
    if to > from && chars[to - 1] != ' ' {
        lemma_last_space_is_last(chars, from, to - 1);
    }
}

/// The rows of one line from a place on, one after the other.
spec fn line_rows(rows: Seq<RowView>, chars: Seq<char>, line: int, start: int, width: int) -> bool {
    &&& rows.len() >= 1
    &&& rows[0].start == start
    &&& rows.last().end() == chars.len()
    &&& forall|i: int|
        0 <= i < rows.len() ==> (#[trigger] rows[i]).line == line && broken_greedily(
            rows[i],
            chars,
            width,
        )
    &&& forall|i: int|
        0 < i < rows.len() ==> (#[trigger] rows[i]).start == rows[i - 1].end() && rows[i].start
            < chars.len()
}

proof fn lemma_greedy_from(chars: Seq<char>, line: int, start: int, width: int)
    requires
        0 <= start < chars.len() <= usize::MAX,
        0 <= line <= usize::MAX,
        width >= 1,
    ensures
        line_rows(rows_from(chars, line, start, width), chars, line, start, width),
    decreases chars.len() - start,
{
    let row = lemma_rows_step(chars, line, start, width);
    let end = row_end(chars, start, width);
    let rest = rows_from(chars, line, end, width);
    let r = rows_from(chars, line, start, width);
    if chars.len() - start > width {
        lemma_last_space_is_last(chars, start, start + width);
    }
    assert(broken_greedily(row, chars, width));
    if end < chars.len() {
        lemma_greedy_from(chars, line, end, width);
        assert(r.last() == rest.last());
        assert forall|i: int| 0 <= i < r.len() implies (#[trigger] r[i]).line == line
            && broken_greedily(r[i], chars, width) by {
            if i > 0 {
                assert(r[i] == rest[i - 1]);
            }
        }
        assert forall|i: int| 0 < i < r.len() implies (#[trigger] r[i]).start == r[i - 1].end()
            && r[i].start < chars.len() by {
            assert(r[i] == rest[i - 1]);
            if i > 1 {
                assert(r[i - 1] == rest[i - 2]);
            }
        }
    } else {
        assert(rest =~= Seq::<RowView>::empty());
        assert(r =~= seq![row]);
    }
}

proof fn lemma_greedy_line(chars: Seq<char>, line: int, width: int)
    requires
        chars.len() <= usize::MAX,
        0 <= line <= usize::MAX,
        width >= 1,
    ensures
        line_rows(rows_of(chars, line, width), chars, line, 0, width),
{
    if chars.len() > 0 {
        lemma_greedy_from(chars, line, 0, width);
    } else {
        assert(rows_of(chars, line, width)[0].text =~= chars.subrange(0, 0));
    }
}

proof fn lemma_greedy_upto(lines: Seq<Seq<char>>, n: int, width: int)
    requires
        1 <= n <= lines.len(),
        storable(lines),
        width >= 1,
    ensures
        ({
            let rows = rows_upto(lines, n, width);
            &&& rows.len() >= 1
            &&& rows[0].line == 0 && rows[0].start == 0
            &&& rows.last().line == n - 1 && rows.last().end() == lines[n - 1].len()
            &&& forall|i: int|
                0 <= i < rows.len() ==> (#[trigger] rows[i]).line < n && broken_greedily(
                    rows[i],
                    lines[rows[i].line as int],
                    width,
                )
            &&& forall|i: int|
                0 < i < rows.len() ==> follows(rows[i - 1], #[trigger] rows[i], lines)
        }),
    decreases n,
{
    let rows = rows_upto(lines, n, width);
    let block = rows_of(lines[n - 1], n - 1, width);
    lemma_greedy_line(lines[n - 1], n - 1, width);
    if n == 1 {
        assert(rows =~= block);
    } else {
        let above = rows_upto(lines, n - 1, width);
        lemma_greedy_upto(lines, n - 1, width);
        assert(rows =~= above + block);
        assert(rows[0] == above[0]);
        assert(rows.last() == block.last());
        assert forall|i: int| 0 <= i < rows.len() implies (#[trigger] rows[i]).line < n
            && broken_greedily(rows[i], lines[rows[i].line as int], width) by {
            if i < above.len() {
                assert(rows[i] == above[i]);
            } else {
                assert(rows[i] == block[i - above.len()]);
            }
        }
        assert forall|i: int| 0 < i < rows.len() implies follows(
            rows[i - 1],
            #[trigger] rows[i],
            lines,
        ) by {
            if i < above.len() {
                assert(rows[i] == above[i]);
                assert(rows[i - 1] == above[i - 1]);
            } else {
                assert(rows[i] == block[i - above.len()]);
                if i == above.len() {
                    assert(rows[i - 1] == above.last());
                } else {
                    assert(rows[i - 1] == block[i - 1 - above.len()]);
                }
            }
        }
    }
}

/// Wrapping is greedy. The rows open the first line at its start, follow one
/// another through the lines and end the last; and each takes as much of its line
/// as fits, breaking after a space wherever one past its first character does.
pub proof fn law_wrap_is_greedy(lines: Seq<Seq<char>>, width: int)
    requires
        storable(lines),
        lines.len() > 0,
    ensures
        ({
            let rows = wrapped(lines, width);
            let w = if width < 1 { 1 } else { width };
            &&& rows.len() >= 1
            &&& rows[0].line == 0 && rows[0].start == 0
            &&& rows.last().line == lines.len() - 1
            &&& rows.last().end() == lines.last().len()
            &&& forall|i: int|
                0 <= i < rows.len() ==> (#[trigger] rows[i]).line < lines.len() && broken_greedily(
                    rows[i],
                    lines[rows[i].line as int],
                    w,
                )
            &&& forall|i: int|
                0 < i < rows.len() ==> follows(rows[i - 1], #[trigger] rows[i], lines)
        }),
{
    lemma_greedy_upto(lines, lines.len() as int, at_least_one(width));
}

/// A caret is drawn on its own line, at the character it stands before; only past
/// the last character of a line is it drawn at the end of a row.
pub proof fn law_a_caret_is_at_its_character(lines: Seq<Seq<char>>, width: int, c: Cursor)
    requires
        storable(lines),
        c.row < lines.len(),
        c.col <= lines[c.row as int].len(),
    ensures
        ({
            let rows = wrapped(lines, width);
            let (vrow, vcol) = placed(rows, c);
            &&& 0 <= vrow < rows.len()
            &&& rows[vrow].line == c.row
            &&& rows[vrow].start + vcol == c.col
            &&& 0 <= vcol <= rows[vrow].text.len()
            &&& vcol == rows[vrow].text.len() ==> c.col == lines[c.row as int].len()
        }),
{
    let rows = wrapped(lines, width);
    let n = rows.len() as int;
    lemma_rows_upto(lines, lines.len() as int, at_least_one(width));
    lemma_first_on(rows, c, 0);
    match first_on(rows, c, 0) {
        Some(i) => {
            if rows[i].start > 0 {
                assert(!on_row(rows[i - 1], c));
            }
        },
        None => {
            assert(closes(rows, lines, c.row));
            lemma_last_prefix(rows, Seq::empty(), c.row, n);
            let k = last_of_line(rows, c.row, n)->0;
            assert(!on_row(rows[k], c));
        },
    }
}

/// A cell points into the text where its row shows it: at the character drawn
/// there, past the end of the row at the row's end, and below the text at the last
/// row.
pub proof fn law_a_cell_points_at_what_is_drawn_there(
    lines: Seq<Seq<char>>,
    width: int,
    vrow: int,
    vcol: int,
)
    requires
        storable(lines),
        lines.len() > 0,
        0 <= vrow,
        0 <= vcol,
    ensures
        ({
            let rows = wrapped(lines, width);
            let c = located(rows, vrow, vcol);
            let last = rows.len() - 1;
            &&& vrow <= last ==> c.row == rows[vrow].line
            &&& vrow <= last && vcol < rows[vrow].text.len() ==> c.col == rows[vrow].start + vcol
                && lines[c.row as int][c.col as int] == rows[vrow].text[vcol]
            &&& vrow <= last && vcol >= rows[vrow].text.len() ==> c.col == rows[vrow].end()
            &&& vrow > last ==> c == located(rows, last, vcol)
        }),
{
    lemma_rows_upto(lines, lines.len() as int, at_least_one(width));
    let rows = wrapped(lines, width);
    if vrow < rows.len() {
        assert(rows[vrow].end() <= lines[rows[vrow].line as int].len());
    } else {
        assert(rows.last() == rows[rows.len() - 1]);
    }
}

/// Placing undoes locating: a cell with a character in it is where the caret
/// before that character is drawn.
pub proof fn law_place_inverts_locate(lines: Seq<Seq<char>>, width: int, vrow: int, vcol: int)
    requires
        storable(lines),
        lines.len() > 0,
        0 <= vrow < wrapped(lines, width).len(),
        0 <= vcol < wrapped(lines, width)[vrow].text.len(),
    ensures
        placed(wrapped(lines, width), located(wrapped(lines, width), vrow, vcol)) == (vrow, vcol),
{
    let rows = wrapped(lines, width);
    let c = located(rows, vrow, vcol);
    law_wrap_is_greedy(lines, width);
    law_a_cell_points_at_what_is_drawn_there(lines, width, vrow, vcol);
    law_a_caret_is_at_its_character(lines, width, c);
    let (at, col) = placed(rows, c);
    if at < vrow {
        lemma_rows_rise(rows, lines, at, vrow);
    } else if vrow < at {
        lemma_rows_rise(rows, lines, vrow, at);
    }
}

/// Of two rows of one line the lower one starts no sooner than the upper one ends.
pub proof fn lemma_rows_rise(rows: Seq<RowView>, lines: Seq<Seq<char>>, i: int, j: int)
    requires
        0 <= i < j < rows.len(),
        forall|k: int| 0 < k < rows.len() ==> follows(rows[k - 1], #[trigger] rows[k], lines),
    ensures
        rows[i].line <= rows[j].line,
        rows[i].line == rows[j].line ==> rows[i].end() <= rows[j].start,
        rows[i].line == rows[j].line ==> rows[i].end() < lines[rows[i].line as int].len(),
    decreases j - i,
{
    assert(follows(rows[j - 1], rows[j], lines));
    if i < j - 1 {
        lemma_rows_rise(rows, lines, i, j - 1);
    }
}

} // verus!

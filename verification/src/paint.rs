//! What is painted, before any color is known: pieces of text, each with the
//! part it plays on screen. A theme turns the parts into colors, so a theme swap
//! re-skins everything with no other change.

use crate::editor::{EditorState, TextEditor};
use crate::model::Color;
use crate::text::{chars_of, string_of};
use crate::wrap::{placed, wrap, wrapped, RowView, Wrapped};
use vstd::prelude::*;

verus! {

/// The part a color plays.
#[derive(Debug, Clone, Copy, PartialEq, Eq, Structural)]
pub enum Tint {
    Text,
    Subtext,
    Overlay0,
    Overlay1,
    Surface0,
    Surface1,
    Accent,
    Mantle,
    Base,
    NoteFg,
    Note(Color),
}

/// How a piece of text looks.
#[derive(Debug, Clone, Copy, PartialEq, Eq, Structural)]
pub struct Look {
    pub fg: Option<Tint>,
    pub bg: Option<Tint>,
    pub bold: bool,
    pub reversed: bool,
}

/// A look that is only a color.
pub open spec fn tinted(fg: Tint) -> Look {
    Look { fg: Some(fg), bg: None, bold: false, reversed: false }
}

/// A look that is a color, and bold.
pub open spec fn strong(fg: Tint) -> Look {
    Look { fg: Some(fg), bg: None, bold: true, reversed: false }
}

pub fn tint(fg: Tint) -> (l: Look)
    ensures
        l == tinted(fg),
{
    Look { fg: Some(fg), bg: None, bold: false, reversed: false }
}

pub fn bold(fg: Tint) -> (l: Look)
    ensures
        l == strong(fg),
{
    Look { fg: Some(fg), bg: None, bold: true, reversed: false }
}

/// A piece of text that looks one way.
#[derive(Debug, Clone, PartialEq, Eq)]
pub struct Piece {
    pub text: String,
    pub look: Look,
}

/// A [`Piece`] as a value.
pub struct PieceView {
    pub text: Seq<char>,
    pub look: Look,
}

impl View for Piece {
    type V = PieceView;

    open spec fn view(&self) -> PieceView {
        PieceView { text: self.text@, look: self.look }
    }
}

/// A list of pieces as a list of values.
pub open spec fn pieces_view(pieces: Seq<Piece>) -> Seq<PieceView> {
    Seq::new(pieces.len(), |i: int| pieces[i]@)
}

/// A piece of text.
pub open spec fn piece(text: Seq<char>, look: Look) -> PieceView {
    PieceView { text, look }
}

pub fn push_piece(out: &mut Vec<Piece>, text: &str, look: Look)
    ensures
        pieces_view(final(out)@) == pieces_view(old(out)@).push(piece(text@, look)),
{
    let ghost before = pieces_view(out@);
    out.push(Piece { text: text.to_owned(), look });
    proof {
        assert(pieces_view(out@) =~= before.push(piece(text@, look)));
    }
}

// ---- cells ----

/// A character and how it looks.
pub open spec fn cells_in(pieces: Seq<PieceView>) -> Seq<(char, Look)>
    decreases pieces.len(),
{
    if pieces.len() == 0 {
        Seq::empty()
    } else {
        cells_in(pieces.drop_last()) + same_look(pieces.last().text, pieces.last().look)
    }
}

/// A text, every character of it looking one way.
pub open spec fn same_look(text: Seq<char>, look: Look) -> Seq<(char, Look)> {
    Seq::new(text.len(), |i: int| (text[i], look))
}

/// Pieces as few as they can be: none empty, no two neighbours looking the same.
pub open spec fn merged_pieces(pieces: Seq<PieceView>) -> bool {
    &&& forall|i: int| 0 <= i < pieces.len() ==> (#[trigger] pieces[i]).text.len() > 0
    &&& forall|i: int|
        0 < i < pieces.len() ==> (#[trigger] pieces[i]).look != pieces[i - 1].look
}

/// The look of a note's text: the title is bold.
pub open spec fn base_look(title: bool) -> Look {
    Look { fg: Some(Tint::NoteFg), bg: None, bold: title, reversed: false }
}

/// The look of selected text.
pub open spec fn highlight_look(title: bool) -> Look {
    Look { fg: Some(Tint::Mantle), bg: Some(Tint::Accent), bold: title, reversed: false }
}

/// The look of the caret.
pub open spec fn caret_look(title: bool) -> Look {
    Look { fg: Some(Tint::NoteFg), bg: None, bold: title, reversed: true }
}

/// A row with its selection: a selected line break shows as one more cell.
pub open spec fn marked_cells(
    text: Seq<char>,
    title: bool,
    selected: Option<(usize, usize)>,
) -> Seq<(char, Look)> {
    let cells = Seq::new(
        text.len(),
        |i: int|
            (
                text[i],
                match selected {
                    Some((from, to)) => if from <= i < to {
                        highlight_look(title)
                    } else {
                        base_look(title)
                    },
                    None => base_look(title),
                },
            ),
    );
    match selected {
        Some((from, to)) => if to > text.len() {
            cells.push((' ', highlight_look(title)))
        } else {
            cells
        },
        None => cells,
    }
}

/// A rendered row: its characters, the selected run highlighted, and the caret
/// over a character or, past the last one, as one more cell.
pub open spec fn row_cells(
    text: Seq<char>,
    title: bool,
    selected: Option<(usize, usize)>,
    caret: Option<usize>,
) -> Seq<(char, Look)> {
    let cells = marked_cells(text, title, selected);
    match caret {
        Some(col) => if col < cells.len() {
            cells.update(col as int, (cells[col as int].0, caret_look(title)))
        } else {
            cells.push((' ', caret_look(title)))
        },
        None => cells,
    }
}

/// A piece of text in the making, from its cells.
fn flush(out: &mut Vec<Piece>, run: &mut Vec<char>, look: Look)
    requires
        merged_pieces(pieces_view(old(out)@)),
        old(run)@.len() > 0,
        old(out)@.len() > 0 ==> old(out)@.last().look != look,
    ensures
        merged_pieces(pieces_view(final(out)@)),
        cells_in(pieces_view(final(out)@)) == cells_in(pieces_view(old(out)@)) + same_look(
            old(run)@,
            look,
        ),
        final(run)@.len() == 0,
        final(out)@.len() > 0,
        final(out)@.last().look == look,
{
    let ghost before = pieces_view(out@);
    let ghost text = run@;
    out.push(Piece { text: string_of(run), look });
    let mut none: Vec<char> = Vec::new();
    std::mem::swap(run, &mut none);
    proof {
        let after = pieces_view(out@);
        assert(after =~= before.push(piece(text, look)));
        assert(after.drop_last() =~= before);
        assert forall|i: int| 0 < i < after.len() implies (#[trigger] after[i]).look != after[i
            - 1].look by {
            if i < before.len() {
                assert(before[i].look != before[i - 1].look);
            }
        }
        assert forall|i: int| 0 <= i < after.len() implies (#[trigger] after[i]).text.len() > 0 by {
            if i < before.len() {
                assert(before[i].text.len() > 0);
            }
        }
    }
}

/// Cells as pieces, equal neighbours in one.
fn merge_cells(cells: &[(char, Look)]) -> (out: Vec<Piece>)
    ensures
        cells_in(pieces_view(out@)) == cells@,
        merged_pieces(pieces_view(out@)),
{
    let mut out: Vec<Piece> = Vec::new();
    if cells.len() == 0 {
        proof {
            assert(cells@ =~= Seq::empty());
        }
        return out;
    }
    let mut run: Vec<char> = Vec::new();
    let mut look: Look = cells[0].1;
    run.push(cells[0].0);
    let mut i: usize = 1;
    proof {
        assert(cells_in(pieces_view(out@)) + same_look(run@, look) =~= cells@.take(1));
    }
    while i < cells.len()
        invariant
            1 <= i <= cells@.len(),
            run@.len() > 0,
            merged_pieces(pieces_view(out@)),
            out@.len() > 0 ==> out@.last().look != look,
            cells_in(pieces_view(out@)) + same_look(run@, look) == cells@.take(i as int),
        decreases cells@.len() - i,
    {
        let (c, l) = cells[i];
        let ghost before = cells_in(pieces_view(out@)) + same_look(run@, look);
        if l != look {
            flush(&mut out, &mut run, look);
            proof {
                assert(cells_in(pieces_view(out@)) =~= before);
            }
            look = l;
        }
        let ghost done = cells_in(pieces_view(out@));
        let ghost was = run@;
        run.push(c);
        proof {
            assert(done + same_look(run@, look) =~= (done + same_look(was, look)).push((c, l)));
            assert(same_look(was, look).len() == was.len());
            assert(done + same_look(was, look) =~= before);
            assert(cells@.take(i + 1) =~= cells@.take(i as int).push((c, l)));
        }
        i += 1;
    }
    flush(&mut out, &mut run, look);
    proof {
        assert(cells@.take(i as int) =~= cells@);
    }
    out
}

/// One rendered row: bold when it belongs to the title line, with the selected
/// run highlighted and an optional reversed-cell caret at `caret` (a block
/// caret past the last character).
///
/// Built cell by cell and then merged. Slicing the row at the selection and
/// caret boundaries directly would mean four overlapping cases; styling each
/// cell and merging equal neighbours has one.
pub fn row_line(
    text: &str,
    title: bool,
    selected: Option<(usize, usize)>,
    caret: Option<usize>,
) -> (out: Vec<Piece>)
    ensures
        cells_in(pieces_view(out@)) == row_cells(text@, title, selected, caret),
        merged_pieces(pieces_view(out@)),
{
    let base = Look { fg: Some(Tint::NoteFg), bg: None, bold: title, reversed: false };
    let highlight = Look {
        fg: Some(Tint::Mantle),
        bg: Some(Tint::Accent),
        bold: title,
        reversed: false,
    };
    let at = Look { fg: Some(Tint::NoteFg), bg: None, bold: title, reversed: true };
    let chars = chars_of(text);
    let mut cells: Vec<(char, Look)> = Vec::new();
    let ghost want = marked_cells(text@, title, selected);
    let mut i: usize = 0;
    while i < chars.len()
        invariant
            i <= chars@.len(),
            chars@ == text@,
            cells@.len() == i,
            want == marked_cells(text@, title, selected),
            base == base_look(title),
            highlight == highlight_look(title),
            forall|k: int| 0 <= k < i ==> cells@[k] == want[k],
        decreases chars@.len() - i,
    {
        let look = match selected {
            Some((from, to)) => if from <= i && i < to {
                highlight
            } else {
                base
            },
            None => base,
        };
        cells.push((chars[i], look));
        i += 1;
    }
    if let Some((from, to)) = selected {
        if to > chars.len() {
            cells.push((' ', highlight));
        }
    }
    proof {
        assert(cells@ =~= want);
    }
    if let Some(col) = caret {
        if col < cells.len() {
            let c = cells[col].0;
            cells[col] = (c, at);
        } else {
            cells.push((' ', at));
        }
    }
    proof {
        assert(cells@ =~= row_cells(text@, title, selected, caret));
    }
    merge_cells(&cells)
}

/// The half-open range of cells on visual row `vr` that the selection covers.
/// The range may extend one past `len` to mark a selected line break.
pub open spec fn covered(
    selection: Option<((usize, usize), (usize, usize))>,
    vr: int,
    len: int,
    breaks: bool,
) -> Option<(usize, usize)> {
    match selection {
        None => None,
        Some((start, end)) => {
            let from = if vr == start.0 {
                start.1 as int
            } else {
                0
            };
            let to = if vr == end.0 {
                end.1 as int
            } else if breaks && len < usize::MAX {
                len + 1
            } else {
                len
            };
            if vr < start.0 || vr > end.0 || from >= to {
                None
            } else {
                Some((from as usize, to as usize))
            }
        },
    }
}

pub fn selected_range(
    selection: Option<((usize, usize), (usize, usize))>,
    vr: usize,
    len: usize,
    breaks: bool,
) -> (r: Option<(usize, usize)>)
    ensures
        r == covered(selection, vr as int, len as int, breaks),
{
    let ((sr, sc), (er, ec)) = match selection {
        Some(s) => s,
        None => return None,
    };
    if vr < sr || vr > er {
        return None;
    }
    let from: usize = if vr == sr {
        sc
    } else {
        0
    };
    let to: usize = if vr == er {
        ec
    } else if breaks && len < usize::MAX {
        len + 1
    } else {
        len
    };
    if from < to {
        Some((from, to))
    } else {
        None
    }
}

// ---- a note's text ----

/// Where the selection starts and ends among the rows.
pub open spec fn selection_on(e: EditorState, rows: Seq<RowView>) -> Option<
    ((usize, usize), (usize, usize)),
> {
    match e.selection() {
        Some((from, to)) => {
            let a = placed(rows, from);
            let b = placed(rows, to);
            Some(((a.0 as usize, a.1 as usize), (b.0 as usize, b.1 as usize)))
        },
        None => None,
    }
}

/// Whether the line ends at this row: the next row starts another line.
pub open spec fn ends_line(rows: Seq<RowView>, vr: int) -> bool {
    vr + 1 < rows.len() && rows[vr + 1].line != rows[vr].line
}

/// A row of the editor's text. The caret is drawn only when nothing is selected:
/// with a selection the moving edge of the highlight *is* the caret.
pub open spec fn editor_row(e: EditorState, rows: Seq<RowView>, vr: int) -> Seq<(char, Look)> {
    let row = rows[vr];
    let caret = placed(rows, e.cursor());
    row_cells(
        row.text,
        row.line == 0,
        covered(selection_on(e, rows), vr, row.text.len() as int, ends_line(rows, vr)),
        if e.selection() is None && caret.0 == vr {
            Some(caret.1 as usize)
        } else {
            None
        },
    )
}

/// Lines of pieces as lines of cells.
pub open spec fn lines_cells(lines: Seq<Vec<Piece>>) -> Seq<Seq<(char, Look)>> {
    Seq::new(lines.len(), |i: int| cells_in(pieces_view(lines[i]@)))
}

/// The editor's logical lines, wrapped to `width` and rendered for the document
/// view: line 1 (the title) is bold, the selection is highlighted, and the
/// cursor shows as a reversed cell - all placed through the wrap so they stay on
/// screen on long lines.
pub fn editor_lines(editor: &TextEditor, width: usize) -> (out: Vec<Vec<Piece>>)
    ensures
        ({
            let rows = wrapped(editor@.lines, width as int);
            lines_cells(out@) == Seq::new(rows.len(), |i: int| editor_row(editor@, rows, i))
        }),
{
    let wrapped_text = wrap(editor.lines(), width);
    let ghost rows = wrapped_text@;
    let selection: Option<((usize, usize), (usize, usize))> = match editor.selection() {
        Some((from, to)) => Some((wrapped_text.place(from), wrapped_text.place(to))),
        None => None,
    };
    let caret: Option<(usize, usize)> = match selection {
        Some(_) => None,
        None => Some(wrapped_text.place(editor.cursor())),
    };
    let mut out: Vec<Vec<Piece>> = Vec::new();
    let mut vr: usize = 0;
    while vr < wrapped_text.rows.len()
        invariant
            vr <= wrapped_text.rows@.len(),
            rows == wrapped_text@,
            selection == selection_on(editor@, rows),
            match caret {
                Some(c) => editor@.selection() is None && (c.0 as int, c.1 as int) == placed(
                    rows,
                    editor@.cursor(),
                ),
                None => editor@.selection() is Some,
            },
            out@.len() == vr,
            forall|i: int|
                0 <= i < vr ==> #[trigger] cells_in(pieces_view(out@[i]@)) == editor_row(
                    editor@,
                    rows,
                    i,
                ),
        decreases wrapped_text.rows@.len() - vr,
    {
        let row = &wrapped_text.rows[vr];
        assert(rows[vr as int] == row@);
        let breaks = vr + 1 < wrapped_text.rows.len() && wrapped_text.rows[vr + 1].line != row.line;
        proof {
            if vr + 1 < rows.len() {
                assert(rows[vr + 1] == wrapped_text.rows@[vr + 1]@);
            }
        }
        let len: usize = crate::editor::char_len(&row.text);
        let here: Option<usize> = match caret {
            Some((r, c)) => if r == vr {
                Some(c)
            } else {
                None
            },
            None => None,
        };
        out.push(
            row_line(&row.text, row.line == 0, selected_range(selection, vr, len, breaks), here),
        );
        vr += 1;
    }
    proof {
        assert(lines_cells(out@) =~= Seq::new(
            rows.len(),
            |i: int| editor_row(editor@, rows, i),
        ));
    }
    out
}

/// A row of a note that is not being edited.
pub open spec fn plain_row(row: RowView) -> Seq<(char, Look)> {
    row_cells(row.text, row.line == 0, None, None)
}

/// A note's laid out text, for reading.
pub fn plain_lines(text: &Wrapped) -> (out: Vec<Vec<Piece>>)
    ensures
        lines_cells(out@) == Seq::new(text@.len(), |i: int| plain_row(text@[i])),
{
    let mut out: Vec<Vec<Piece>> = Vec::new();
    let mut vr: usize = 0;
    while vr < text.rows.len()
        invariant
            vr <= text.rows@.len(),
            out@.len() == vr,
            forall|i: int|
                0 <= i < vr ==> #[trigger] cells_in(pieces_view(out@[i]@)) == plain_row(text@[i]),
        decreases text.rows@.len() - vr,
    {
        let row = &text.rows[vr];
        assert(text@[vr as int] == row@);
        out.push(row_line(&row.text, row.line == 0, None, None));
        vr += 1;
    }
    proof {
        assert(lines_cells(out@) =~= Seq::new(text@.len(), |i: int| plain_row(text@[i])));
    }
    out
}

/// Painting changes how text looks, never what it says: a row without a
/// selection past its end or a caret past its end is its own characters.
pub proof fn law_painting_keeps_the_text(
    text: Seq<char>,
    title: bool,
    selected: Option<(usize, usize)>,
    caret: Option<usize>,
)
    ensures
        ({
            let cells = row_cells(text, title, selected, caret);
            &&& cells.len() >= text.len()
            &&& forall|i: int| 0 <= i < text.len() ==> (#[trigger] cells[i]).0 == text[i]
            &&& forall|i: int| text.len() <= i < cells.len() ==> (#[trigger] cells[i]).0 == ' '
        }),
{
}

} // verus!

//! What drawing a board promises: what is drawn where, and what it looks like.

use crate::chrome::{dots, prompt_place, tab_pieces};
use crate::geometry::ZoomLevel;
use crate::editor::{Cursor, EditorState};
use crate::model::NoteView;
use crate::paint::{covered, editor_row, ends_line, row_cells, Tint};
use crate::screen::{
    bar, board_bars, first_line_after, grid_cells, grid_count, nearest, pin_thumb, shown_pin,
    shown_pins, shown_rows, window,
};
use crate::state::{AppState, TabKindView};
use crate::text::decimal;
use crate::view::{cells_of, pitch_x, pitch_y, rounded, CellRect, Rect};
use crate::wrap::{placed, wrapped, RowView};
use vstd::prelude::*;

verus! {

// ---- text being edited ----

/// Rows that a screen can number.
pub open spec fn numbered(rows: Seq<RowView>) -> bool {
    rows.len() <= usize::MAX
}

proof fn lemma_in_reading_order(lines: Seq<Seq<char>>, width: int, c: Cursor, vr: int, i: int)
    requires
        crate::wrap::storable(lines),
        lines.len() > 0,
        c.row < lines.len(),
        c.col <= lines[c.row as int].len(),
        0 <= vr < wrapped(lines, width).len(),
        0 <= i <= wrapped(lines, width)[vr].text.len(),
        i == wrapped(lines, width)[vr].text.len() ==> wrapped(lines, width)[vr].end()
            == lines[wrapped(lines, width)[vr].line as int].len(),
    ensures
        ({
            let rows = wrapped(lines, width);
            let (at, col) = placed(rows, c);
            let here = Cursor { row: rows[vr].line, col: (rows[vr].start + i) as usize };
            &&& here.col == rows[vr].start + i
            &&& at < vr || (at == vr && col <= i) <==> !here.before(c)
            &&& 0 <= at < rows.len() && 0 <= col <= rows[at].text.len()
        }),
{
    let rows = wrapped(lines, width);
    crate::wrap::law_wrap_is_greedy(lines, width);
    crate::wrap::law_a_caret_is_at_its_character(lines, width, c);
    let (at, col) = placed(rows, c);
    if at < vr {
        crate::wrap::lemma_rows_rise(rows, lines, at, vr);
    } else if vr < at {
        crate::wrap::lemma_rows_rise(rows, lines, vr, at);
    }
}

proof fn lemma_marks(
    text: Seq<char>,
    title: bool,
    start: (usize, usize),
    end: (usize, usize),
    vr: int,
    breaks: bool,
    i: int,
)
    requires
        0 <= vr,
        0 <= i < text.len() <= usize::MAX,
    ensures
        ({
            let cells = row_cells(
                text,
                title,
                covered(Some((start, end)), vr, text.len() as int, breaks),
                None,
            );
            let after_start = start.0 < vr || (start.0 == vr && start.1 <= i);
            let after_end = end.0 < vr || (end.0 == vr && end.1 <= i);
            &&& cells.len() >= text.len()
            &&& cells[i].0 == text[i]
            &&& cells[i].1.bg is Some <==> after_start && !after_end
            &&& !cells[i].1.reversed
            &&& cells[i].1.bold == title
        }),
{
}

proof fn lemma_break_mark(
    text: Seq<char>,
    title: bool,
    start: (usize, usize),
    end: (usize, usize),
    vr: int,
    breaks: bool,
)
    requires
        0 <= vr,
        text.len() < usize::MAX,
        end.0 == vr ==> end.1 <= text.len(),
    ensures
        ({
            let cells = row_cells(
                text,
                title,
                covered(Some((start, end)), vr, text.len() as int, breaks),
                None,
            );
            let after_start = start.0 < vr || (start.0 == vr && start.1 <= text.len());
            let after_end = end.0 <= vr;
            &&& breaks && after_start && !after_end ==> cells.len() == text.len() + 1
                && cells.last().1.bg is Some
            &&& !(breaks && after_start && !after_end) ==> cells.len() == text.len()
        }),
{
}

/// What is highlighted is what is selected: of the characters on the screen those
/// from the start of the selection on that stand before its end, and no others. No
/// caret is drawn beside it.
pub proof fn law_what_is_selected_is_highlighted(e: EditorState, width: int, vr: int, i: int)
    requires
        e.wf(),
        crate::wrap::storable(e.lines),
        numbered(wrapped(e.lines, width)),
        e.selection() is Some,
        0 <= vr < wrapped(e.lines, width).len(),
        0 <= i < wrapped(e.lines, width)[vr].text.len(),
    ensures
        ({
            let rows = wrapped(e.lines, width);
            let (from, to) = e.selection()->0;
            let here = Cursor { row: rows[vr].line, col: (rows[vr].start + i) as usize };
            let (c, look) = editor_row(e, rows, vr)[i];
            &&& c == e.lines[here.row as int][here.col as int]
            &&& look.bg is Some <==> !here.before(from) && here.before(to)
            &&& !look.reversed
            &&& look.bold <==> here.row == 0
        }),
{
    let rows = wrapped(e.lines, width);
    let (from, to) = e.selection()->0;
    let here = Cursor { row: rows[vr].line, col: (rows[vr].start + i) as usize };
    assert(rows[vr].text.len() <= usize::MAX && rows[vr].text[i]
        == e.lines[here.row as int][here.col as int]) by {
        crate::wrap::law_wrap_is_greedy(e.lines, width);
        crate::wrap::law_a_cell_points_at_what_is_drawn_there(e.lines, width, vr, i);
    }
    lemma_in_reading_order(e.lines, width, from, vr, i);
    lemma_in_reading_order(e.lines, width, to, vr, i);
    assert(rows[placed(rows, from).0].text.len() <= usize::MAX && rows[placed(
        rows,
        to,
    ).0].text.len() <= usize::MAX) by {
        crate::wrap::law_wrap_is_greedy(e.lines, width);
    }
    let a = placed(rows, from);
    let b = placed(rows, to);
    lemma_marks(
        rows[vr].text,
        rows[vr].line == 0,
        (a.0 as usize, a.1 as usize),
        (b.0 as usize, b.1 as usize),
        vr,
        ends_line(rows, vr),
        i,
    );
}

/// With nothing selected one cell is reversed: the one the caret stands on.
pub proof fn law_the_caret_is_the_one_reversed_cell(e: EditorState, width: int, vr: int, i: int)
    requires
        e.wf(),
        crate::wrap::storable(e.lines),
        numbered(wrapped(e.lines, width)),
        e.selection() is None,
        0 <= vr < wrapped(e.lines, width).len(),
        0 <= i < editor_row(e, wrapped(e.lines, width), vr).len(),
    ensures
        ({
            let rows = wrapped(e.lines, width);
            let (at, col) = placed(rows, e.cursor());
            &&& editor_row(e, rows, vr)[i].1.reversed <==> vr == at && i == col
            &&& editor_row(e, rows, vr)[i].1.bg is None
            &&& 0 <= at < rows.len() && 0 <= col < editor_row(e, rows, at).len()
        }),
{
    crate::wrap::law_wrap_is_greedy(e.lines, width);
    crate::wrap::law_a_caret_is_at_its_character(e.lines, width, e.cursor());
}

/// A selected line break is seen too: as one highlighted cell behind the line, which
/// is there exactly where the selection goes on past the end of the line.
pub proof fn law_a_selected_break_is_seen(e: EditorState, width: int, vr: int)
    requires
        e.wf(),
        crate::wrap::storable(e.lines),
        numbered(wrapped(e.lines, width)),
        e.selection() is Some,
        0 <= vr < wrapped(e.lines, width).len(),
        wrapped(e.lines, width)[vr].text.len() < usize::MAX,
    ensures
        ({
            let rows = wrapped(e.lines, width);
            let (from, to) = e.selection()->0;
            let row = rows[vr];
            let here = Cursor { row: row.line, col: row.end() as usize };
            let drawn = editor_row(e, rows, vr);
            let gone_past = ends_line(rows, vr) && !here.before(from) && here.before(to);
            &&& gone_past ==> drawn.len() == row.text.len() + 1 && drawn.last().1.bg is Some
            &&& !gone_past ==> drawn.len() == row.text.len()
        }),
{
    let rows = wrapped(e.lines, width);
    let (from, to) = e.selection()->0;
    let a = placed(rows, from);
    let b = placed(rows, to);
    assert(0 <= a.0 < rows.len() && 0 <= a.1 <= rows[a.0].text.len() <= usize::MAX && 0 <= b.0
        < rows.len() && 0 <= b.1 <= rows[b.0].text.len() <= usize::MAX) by {
        crate::wrap::law_wrap_is_greedy(e.lines, width);
        crate::wrap::law_a_caret_is_at_its_character(e.lines, width, from);
        crate::wrap::law_a_caret_is_at_its_character(e.lines, width, to);
    }
    lemma_break_mark(
        rows[vr].text,
        rows[vr].line == 0,
        (a.0 as usize, a.1 as usize),
        (b.0 as usize, b.1 as usize),
        vr,
        ends_line(rows, vr),
    );
    if ends_line(rows, vr) {
        assert(rows[vr].end() == e.lines[rows[vr].line as int].len()) by {
            crate::wrap::law_wrap_is_greedy(e.lines, width);
            assert(crate::wrap::follows(rows[vr], rows[vr + 1], e.lines));
        }
        lemma_in_reading_order(e.lines, width, from, vr, rows[vr].text.len() as int);
        lemma_in_reading_order(e.lines, width, to, vr, rows[vr].text.len() as int);
        assert(a.0 == vr ==> a.1 <= rows[vr].text.len());
    }
}

// ---- pins on the board ----

/// A pin is drawn on the cells of the board that it covers, all of them and no
/// others; in its own color, framed in bold while it is selected; laid out at its
/// full size and cut where the board ends; and as a bare block zoomed all the way
/// out.
pub proof fn law_a_pin_is_drawn_where_it_is(s: AppState, n: NoteView, col: int, row: int)
    requires
        s.viewport.fits(),
        0 <= col,
        0 <= row,
    ensures
        ({
            let cells = cells_of(s.shown(), s.viewport, n.position());
            let board = s.viewport;
            let here = cells.holds(col, row) && board.x <= col < board.x + board.width && board.y
                <= row < board.y + board.height;
            match shown_pin(s, n) {
                None => !here,
                Some(p) => {
                    &&& here <==> p.seen.x <= col < p.seen.x + p.seen.width && p.seen.y <= row
                        < p.seen.y + p.seen.height
                    &&& p.color == n.color
                    &&& p.paper is None <==> s.camera.zoom == ZoomLevel::Cluster
                    &&& p.paper matches Some(paper) ==> {
                        &&& paper.width == cells.width && paper.height == cells.height
                        &&& cells.x + paper.offset.0 == p.seen.x
                        &&& cells.y + paper.offset.1 == p.seen.y
                        &&& paper.border.bold <==> s.selected == Some(n.id)
                    }
                },
            }
        }),
{
    let cells = cells_of(s.shown(), s.viewport, n.position());
    crate::view::law_clip_is_the_intersection(cells, s.viewport, col, row);
    if window(cells, s.viewport) is Some {
        crate::screen::law_the_edge_only_cuts(cells, s.viewport);
    }
}

/// A pin that is not being edited shows the rows of its text from the one it is
/// scrolled to, as many as its frame has room for, each as it reads.
pub proof fn law_a_pin_shows_its_text(s: AppState, n: NoteView, k: int)
    requires
        !s.editing(n.id),
        s.layout_of(n) is Some,
    ensures
        ({
            let (cells, rows) = s.layout_of(n)->0;
            let shown = shown_rows(s, n);
            let from = s.scroll_of(n.id);
            &&& 0 <= k < cells.height - 2 && 0 <= from + k < rows.len() <==> 0 <= k < shown.len()
            &&& 0 <= k < shown.len() ==> {
                &&& shown[k].len() == rows[from + k].text.len()
                &&& forall|i: int|
                    0 <= i < shown[k].len() ==> (#[trigger] shown[k][i]).0 == rows[from + k].text[i]
                        && (shown[k][i].1.bold <==> rows[from + k].line == 0)
                        && !shown[k][i].1.reversed && shown[k][i].1.bg is None
            }
        }),
{
}

/// How many of the first `k` pins in the order are on the board.
pub open spec fn drawn_before(s: AppState, order: Seq<usize>, k: int) -> int
    decreases k,
{
    if k <= 0 {
        0
    } else {
        drawn_before(s, order, k - 1) + if shown_pin(s, s.board().notes[order[k - 1] as int])
            is Some {
            1int
        } else {
            0
        }
    }
}

/// Every pin on the board is drawn, once and in its place in the order, and nothing
/// else is.
pub proof fn law_every_pin_in_view_is_drawn(s: AppState, order: Seq<usize>, n: int)
    requires
        0 <= n <= order.len(),
    ensures
        shown_pins(s, order, n).len() == drawn_before(s, order, n),
        0 <= drawn_before(s, order, n) <= n,
        forall|k: int|
            0 <= k < n && (#[trigger] shown_pin(s, s.board().notes[order[k] as int]) is Some) ==> 0
                <= drawn_before(s, order, k) < shown_pins(s, order, n).len() && shown_pins(
                s,
                order,
                n,
            )[drawn_before(s, order, k)] == shown_pin(s, s.board().notes[order[k] as int])->0,
    decreases n,
{
    if n > 0 {
        law_every_pin_in_view_is_drawn(s, order, n - 1);
        let less = shown_pins(s, order, n - 1);
        assert forall|k: int|
            0 <= k < n && (#[trigger] shown_pin(s, s.board().notes[order[k] as int]) is Some) implies 0
            <= drawn_before(s, order, k) < shown_pins(s, order, n).len() && shown_pins(
            s,
            order,
            n,
        )[drawn_before(s, order, k)] == shown_pin(s, s.board().notes[order[k] as int])->0 by {
            if k < n - 1 {
                assert(0 <= drawn_before(s, order, k) < less.len());
            }
        }
    }
}

// ---- the grid and the bars ----

/// The dots of the grid stand on the lines of the world that are a fixed step
/// apart: the `k`-th dot is on the cell that holds the `k`-th such line in view, and
/// no line in view is left out.
pub proof fn law_the_grid_stands_still(origin: int, pitch: int, cells: int, k: int)
    requires
        35_700 <= pitch <= 297_500,
        0 <= cells <= u16::MAX,
        0 <= k,
    ensures
        ({
            let line = origin + first_line_after(origin) + k * 342_720;
            let dots = grid_cells(origin, pitch, cells);
            &&& line % 342_720 == 0
            &&& origin <= line
            &&& k == 0 ==> line - 342_720 < origin
            &&& line < origin + cells * pitch <==> k < dots.len()
            &&& k < dots.len() ==> dots[k] * pitch <= line - origin < (dots[k] + 1) * pitch
        }),
{
    let first = first_line_after(origin);
    let step = 342_720int;
    vstd::arithmetic::div_mod::lemma_fundamental_div_mod(origin, step);
    let q = origin / step;
    let r = origin % step;
    assert(0 <= r < step);
    if r == 0 {
        assert(first == 0);
        assert(origin + first + k * step == step * (q + k)) by (nonlinear_arith)
            requires
                origin == step * q,
                first == 0,
        ;
        vstd::arithmetic::div_mod::lemma_mod_multiples_basic(q + k, step);
        assert(step * (q + k) == (q + k) * step) by (nonlinear_arith);
    } else {
        assert(first == step - r);
        assert(origin + first + k * step == (q + 1 + k) * step) by (nonlinear_arith)
            requires
                origin == step * q + r,
                first == step - r,
        ;
        vstd::arithmetic::div_mod::lemma_mod_multiples_basic(q + 1 + k, step);
    }
    let stretch = cells * pitch;
    assert(0 <= stretch) by (nonlinear_arith)
        requires
            0 <= cells,
            0 <= pitch,
            stretch == cells * pitch,
    ;
    assert(0 <= first < step && 0 <= k * step);
    let count = grid_count(origin, stretch);
    assert(k < count <==> first + k * step < stretch);
    if k < count {
        let at = first + k * step;
        let c = at / pitch;
        vstd::arithmetic::div_mod::lemma_fundamental_div_mod(at, pitch);
        assert(0 <= c < cells && c * pitch <= at < (c + 1) * pitch) by (nonlinear_arith)
            requires
                at == pitch * c + at % pitch,
                0 <= at % pitch < pitch,
                0 <= at < cells * pitch,
                0 < pitch,
        ;
        assert(grid_cells(origin, pitch, cells)[k] == c as u16);
    }
}

/// A bar on its track is to the track what the view is to the world, to the nearest
/// cell: as long as the share that is in view, and as far along as the view is, with
/// nothing before it at the start.
pub proof fn law_a_bar_shows_the_share_in_view(track: int, view: int, world: int, offset: int)
    requires
        20 <= track,
        0 < view < world,
        world <= 20 * view,
        offset <= world - view,
    ensures
        ({
            let (start, len) = bar(track, view, world, offset);
            &&& offset <= 0 ==> start == 0
            &&& 0 < offset ==> -world <= 2 * (start * world - offset * track) <= world
            &&& start + len < track ==> -world <= 2 * (len * world - view * track) <= world
        }),
{
    lemma_nearest_is_near(offset * track, world);
    lemma_nearest_is_near(view * track, world);
    assert(nearest(view * track, world) >= 1) by (nonlinear_arith)
        requires
            2 * (nearest(view * track, world) * world - view * track) >= -world,
            world <= 20 * view,
            20 <= track,
            0 < view < world,
    ;
}

proof fn lemma_nearest_is_near(a: int, b: int)
    requires
        0 < b,
    ensures
        -b <= 2 * (nearest(a, b) * b - a) <= b,
{
    let n = 2 * a + b;
    let d = 2 * b;
    vstd::arithmetic::div_mod::lemma_fundamental_div_mod(n, d);
    assert(-b <= 2 * ((n / d) * b - a) <= b) by (nonlinear_arith)
        requires
            n == d * (n / d) + n % d,
            0 <= n % d < d,
            n == 2 * a + b,
            d == 2 * b,
            0 < b,
    ;
}

/// Rounding to cells gives the nearest: no edge is drawn more than half a cell from
/// where it is.
pub proof fn law_an_edge_is_drawn_at_the_nearest_cell(n: int)
    ensures
        -crate::view::parts(1) <= 2 * (crate::view::parts(rounded(n)) - n) <= crate::view::parts(1),
{
}

// ---- around the board ----

/// The prompt stands in the middle of the board: as far from one edge as from the
/// other, to the cell, wherever the board has room for it.
pub proof fn law_the_prompt_is_in_the_middle(area: Rect)
    requires
        area.fits(),
        area.width >= 12,
    ensures
        ({
            let r = prompt_place(area);
            let left = r.x - area.x;
            let right = area.x + area.width - (r.x + r.width);
            let above = r.y - area.y;
            let below = area.y + area.height - (r.y + r.height);
            &&& 0 <= left <= right <= left + 1
            &&& 0 <= above <= below <= above + 1
            &&& r.width <= 44 && (left > 0 ==> r.width == 44)
            &&& r.height <= 6 && (above > 0 ==> r.height == 6)
        }),
{
}

/// What is seen is what is hit: a click on a character of the text being edited
/// points at that character.
pub proof fn law_a_click_hits_the_character_under_it(
    s: AppState,
    cells: CellRect,
    rows: Seq<RowView>,
    col: u16,
    row: u16,
    k: int,
    i: int,
)
    requires
        s.edit_layout() == Some((cells, rows)),
        s.editor->0.lines.len() > 0,
        crate::wrap::storable(s.editor->0.lines),
        col == cells.x + 1 + i,
        row == cells.y + 1 + k,
        0 <= k < cells.height - 2,
        0 <= s.scroll_of(s.selected->0) + k < rows.len(),
        0 <= i < rows[s.scroll_of(s.selected->0) + k].text.len(),
        i < cells.width - 2,
    ensures
        ({
            let shown = rows[s.scroll_of(s.selected->0) + k];
            s.edit_cursor_at(col, row, false) == Some(
                Cursor { row: shown.line, col: (shown.start + i) as usize },
            ) && s.edit_cursor_at(col, row, true) == s.edit_cursor_at(col, row, false)
        }),
{
}

/// A pin says its title, and close up its body below a blank line, if it has one.
pub proof fn law_what_a_pin_says(n: NoteView, zoom: ZoomLevel)
    ensures
        ({
            let close = zoom == ZoomLevel::Preview || zoom == ZoomLevel::Document;
            let text = crate::text::join(crate::state::note_lines(n, zoom), '\n');
            &&& close && n.body.len() > 0 ==> text == n.title + seq!['\n', '\n'] + n.body
            &&& !close || n.body.len() == 0 ==> text == n.title
        }),
{
    let head = seq![n.title, Seq::<char>::empty()];
    let body = crate::text::split(n.body, '\n');
    crate::text::lemma_split_pieces(n.body, '\n');
    crate::text::lemma_join_split(n.body, '\n');
    crate::text::lemma_join_concat(head, body, '\n');
    reveal_with_fuel(crate::text::join, 3);
    assert(head.drop_last() =~= seq![n.title]);
    assert(crate::text::join(head, '\n') =~= n.title.push('\n'));
    assert(n.title.push('\n').push('\n') + n.body =~= n.title + seq!['\n', '\n'] + n.body);
}

/// The dots say how far in the view is: one for each level, filled up to the one it
/// is at.
pub proof fn law_the_dots_say_the_level(current: int, n: int, i: int)
    requires
        0 <= i < n,
    ensures
        dots(current, n).len() == 2 * n,
        dots(current, n)[2 * i].look.fg == Some(Tint::Accent) <==> i <= current,
        dots(current, n)[2 * i].text == "\u{25CF}"@ <==> i <= current,
        dots(current, n)[2 * i + 1].text == " "@,
    decreases n,
{
    reveal_strlit("\u{25CF}");
    reveal_strlit("\u{25CB}");
    assert("\u{25CF}"@[0] != "\u{25CB}"@[0]);
    if i < n - 1 {
        law_the_dots_say_the_level(current, n - 1, i);
    } else if n > 1 {
        law_the_dots_say_the_level(current, n - 1, 0);
    }
}

/// A tab says its world's name and how many pins are on it. The world that is open
/// stands out in bold, and the one a pin would be dropped on stands on a color.
pub proof fn law_a_tab_says_its_world(
    index: usize,
    name: Seq<char>,
    notes: usize,
    active: bool,
    armed: Option<usize>,
)
    ensures
        ({
            let pieces = tab_pieces(TabKindView::World { index, name, notes, active }, armed);
            &&& pieces.len() == 3
            &&& pieces[1].text == name + " "@
            &&& pieces[2].text == decimal(notes as nat) + "  "@
            &&& pieces[1].look.bold <==> active || armed == Some(index)
            &&& forall|i: int|
                0 <= i < 3 ==> ((#[trigger] pieces[i]).look.bg is Some <==> armed == Some(index))
        }),
{
}

/// There is a bar along an edge of the board exactly where its pins reach further than
/// the view does that way.
pub proof fn law_a_bar_is_there_when_there_is_more(s: AppState, area: Rect)
    requires
        area.width > 2,
        area.height > 2,
    ensures
        s.board().bounds() is None ==> board_bars(s, area) == (None::<(int, int)>, None::<(int, int)>),
        s.board().bounds() matches Some((min, max)) ==> {
            let (upright, level) = board_bars(s, area);
            &&& upright is Some <==> max.1 - min.1 > area.height * pitch_y(s.shown().zoom)
            &&& level is Some <==> max.0 - min.0 > area.width * pitch_x(s.shown().zoom)
            &&& s.shown().origin.y <= min.1 ==> (upright matches Some((start, len)) ==> start == 0)
            &&& s.shown().origin.x <= min.0 ==> (level matches Some((start, len)) ==> start == 0)
        },
{
}

/// A pin has a thumb on its border exactly while it holds more text than it shows; at
/// the top of the text the thumb is at the top.
pub proof fn law_a_thumb_is_there_when_there_is_more(s: AppState, id: u64)
    ensures
        pin_thumb(s, id) is Some <==> (s.text_extent(id) matches Some((height, rows)) && rows > height),
        pin_thumb(s, id) matches Some((start, len)) ==> s.scroll_of(id) == 0 ==> start == 0,
{
}

} // verus!

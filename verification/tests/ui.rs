//! What a frame shows: a terminal of cells, painted from what the library says
//! is on screen.

use pinz::app::{App, TabKind};
use pinz::chrome::{brand, footer, prompt_box, prompt_lines, riding_pin, tab_strip, zoom_dots};
use pinz::editor::{Cursor, Motion, TextEditor};
use pinz::geometry::GRAIN;
use pinz::input::{KeyCode, KeyEvent, KeyModifiers, MouseButton, MouseEvent, MouseEventKind};
use pinz::model::{Color, Note};
use pinz::paint::{editor_lines, Look, Piece, Tint};
use pinz::palette::shade;
use pinz::screen::{header_halves, panes, pins_drawn, tell, PinDrawn};
use pinz::store::{MemoryStore, Store};
use pinz::theme::{index_by_name, Rgb};
use pinz::view::{Rect, View, CELL_PARTS};

const NONE: KeyModifiers = KeyModifiers { shift: false, control: false, alt: false, sup: false };
const SHIFT: KeyModifiers = KeyModifiers { shift: true, control: false, alt: false, sup: false };

fn press_with(code: KeyCode, modifiers: KeyModifiers) -> KeyEvent {
    KeyEvent { code, modifiers }
}

/// A distance in world units, in the grains the board counts in.
fn grains(units: f64) -> i128 {
    (units * GRAIN as f64).round() as i128
}

#[derive(Clone)]
struct Cell {
    symbol: String,
    bg: Option<Tint>,
}

/// The cells of a screen.
#[derive(Clone)]
struct Frame {
    width: u16,
    height: u16,
    cells: Vec<Cell>,
}

impl Frame {
    fn new(width: u16, height: u16) -> Self {
        let blank = Cell {
            symbol: " ".to_string(),
            bg: None,
        };
        Frame {
            width,
            height,
            cells: vec![blank; width as usize * height as usize],
        }
    }

    fn at(&self, x: u16, y: u16) -> Cell {
        self.cells[y as usize * self.width as usize + x as usize].clone()
    }

    fn put(&mut self, x: u16, y: u16, symbol: &str, bg: Option<Tint>) {
        if x < self.width && y < self.height {
            let cell = &mut self.cells[y as usize * self.width as usize + x as usize];
            cell.symbol = symbol.to_string();
            if bg.is_some() {
                cell.bg = bg;
            }
        }
    }

    /// A line of pieces from the left of an area.
    fn line(&mut self, area: Rect, pieces: &[Piece]) {
        let mut x = area.x;
        for piece in pieces {
            for c in piece.text.chars() {
                if x < area.x + area.width && area.height > 0 {
                    self.put(x, area.y, &c.to_string(), piece.look.bg);
                }
                x += 1;
            }
        }
    }

    /// A bordered box with lines in it.
    fn boxed(&mut self, area: Rect, lines: &[Vec<Piece>]) {
        for y in 0..area.height {
            for x in 0..area.width {
                let upright = x == 0 || x + 1 == area.width;
                let level = y == 0 || y + 1 == area.height;
                let symbol = if upright && !level {
                    "│"
                } else if level {
                    "─"
                } else {
                    " "
                };
                self.put(area.x + x, area.y + y, symbol, None);
            }
        }
        if area.width < 2 || area.height < 2 {
            return;
        }
        for (i, line) in lines.iter().enumerate() {
            let row = Rect {
                x: area.x + 1,
                y: area.y + 1 + i as u16,
                width: area.width - 2,
                height: 1,
            };
            if row.y + 1 < area.y + area.height {
                self.line(row, line);
            }
        }
    }

    /// A pin: drawn whole on a sheet of its own, then the part on the board.
    fn pin(&mut self, pin: &PinDrawn) {
        match &pin.paper {
            None => {
                for y in 0..pin.seen.height {
                    for x in 0..pin.seen.width {
                        self.put(pin.seen.x + x, pin.seen.y + y, " ", Some(Tint::Note(pin.color)));
                    }
                }
            }
            Some(paper) => {
                let mut sheet = Frame::new(paper.width, paper.height);
                let whole = Rect {
                    x: 0,
                    y: 0,
                    width: paper.width,
                    height: paper.height,
                };
                sheet.boxed(whole, &paper.lines);
                for y in 0..pin.seen.height {
                    for x in 0..pin.seen.width {
                        let cell = sheet.at(paper.offset.0 + x, paper.offset.1 + y);
                        let bg = cell.bg.or(Some(Tint::Note(pin.color)));
                        self.put(pin.seen.x + x, pin.seen.y + y, &cell.symbol, bg);
                    }
                }
            }
        }
    }
}

/// A terminal of a size, and the last frame it showed.
struct Terminal {
    frame: Frame,
}

impl Terminal {
    fn new(width: u16, height: u16) -> Self {
        Terminal {
            frame: Frame::new(width, height),
        }
    }

    fn draw(&mut self, app: &mut App) {
        let mut frame = Frame::new(self.frame.width, self.frame.height);
        let area = Rect {
            x: 0,
            y: 0,
            width: frame.width,
            height: frame.height,
        };
        let strips = panes(area);
        assert!(tell(app, &strips));
        let (left, right) = header_halves(strips.header);
        frame.line(left, &brand());
        frame.line(right, &zoom_dots(app.zoom()));
        frame.line(strips.tabs, &tab_strip(app));
        if let Some((col, next)) = riding_pin(app) {
            frame.put(col, strips.tabs.y, "\u{1F4CC}", Some(Tint::Accent));
            if let Some(next) = next {
                frame.put(next, strips.tabs.y, " ", Some(Tint::Accent));
            }
        }
        for y in 0..strips.board.height {
            for x in 0..strips.board.width {
                frame.put(strips.board.x + x, strips.board.y + y, " ", Some(Tint::Base));
            }
        }
        for pin in pins_drawn(app) {
            frame.pin(&pin);
        }
        frame.line(strips.footer, &footer(app));
        if let Some(prompt) = app.prompt() {
            frame.boxed(prompt_box(area), &prompt_lines(prompt));
        }
        self.frame = frame;
    }
}

fn render_with(theme_name: Option<&str>) -> Frame {
    let mut store = MemoryStore::seeded();
    let mut app = App::new(store.load().unwrap());
    if let Some(name) = theme_name {
        app.set_theme_by_name(name);
    }
    let mut terminal = Terminal::new(120, 40);
    terminal.draw(&mut app);
    terminal.frame
}

fn buffer_text(buf: &Frame) -> String {
    let mut out = String::new();
    for y in 0..buf.height {
        for x in 0..buf.width {
            out.push_str(&buf.at(x, y).symbol);
        }
        out.push('\n');
    }
    out
}

#[test]
fn renders_brand_tabs_and_a_note_title() {
    let buf = render_with(None);
    let text = buffer_text(&buf);
    assert!(text.contains("pinz"), "brand missing:\n{text}");
    assert!(text.contains("ideas"), "world tab missing:\n{text}");
    assert!(text.contains("sketches"), "world tab missing:\n{text}");
    // A seeded note title should be on the board at titles zoom.
    assert!(text.contains("welcome"), "note title missing:\n{text}");
}

#[test]
fn footer_shows_the_active_theme_name() {
    let buf = render_with(Some("nord"));
    let text = buffer_text(&buf);
    assert!(text.contains("Nord"), "active theme name missing:\n{text}");
}

#[test]
fn a_light_theme_paints_a_light_board_background() {
    // Solarized Light's base is near-white; the board wash should carry it,
    // proving color really flows from the theme, not a constant.
    let buf = render_with(Some("light"));
    let board_cell = buf.at(2, 10); // somewhere on the board area
    assert_eq!(
        board_cell.bg.map(|tint| shade(index_by_name("light").unwrap(), tint)),
        Some(Rgb { r: 0xfd, g: 0xf6, b: 0xe3 })
    );
}

#[test]
fn editing_renders_title_and_typed_body() {
    let mut store = MemoryStore::seeded();
    let mut app = App::new(store.load().unwrap());
    let mut terminal = Terminal::new(120, 40);
    terminal.draw(&mut app); // establish viewport + centering

    let press = |code| press_with(code, NONE);
    app.on_key(press(KeyCode::Char('n'))); // new note -> edit, "new note"
    app.on_key(press(KeyCode::Enter)); // newline -> start the body
    for ch in "hello".chars() {
        app.on_key(press(KeyCode::Char(ch)));
    }
    terminal.draw(&mut app);

    let text = buffer_text(&terminal.frame);
    assert!(
        text.contains("new note"),
        "title should be on screen:\n{text}"
    );
    assert!(
        text.contains("hello"),
        "typed body should be on screen:\n{text}"
    );
}

#[test]
fn a_saved_body_keeps_its_line_breaks_on_the_board() {
    let mut store = MemoryStore::seeded();
    let mut boards = store.load().unwrap();
    boards[0].notes.clear();
    boards[0].notes.push(Note {
        id: 900,
        title: "TITLE".into(),
        body: "AAA\n\nBBB".into(),
        x: grains(100.0),
        y: grains(100.0),
        z: 1,
        color: Color::Yellow,
    });
    let mut app = App::new(boards);
    let mut terminal = Terminal::new(120, 40);
    terminal.draw(&mut app); // establish viewport + centering

    // Zoom to document, where the body is drawn.
    for _ in 0..4 {
        app.on_key(press_with(KeyCode::Char('+'), NONE));
    }
    terminal.draw(&mut app);

    let text = buffer_text(&terminal.frame);
    assert!(text.contains("AAA"), "body missing:\n{text}");
    assert!(text.contains("BBB"), "body missing:\n{text}");
    assert!(
        !text.contains("AAABBB"),
        "line breaks were swallowed into one row:\n{text}"
    );
    let rows: Vec<&str> = text.lines().collect();
    let a = rows.iter().position(|r| r.contains("AAA")).unwrap();
    let b = rows.iter().position(|r| r.contains("BBB")).unwrap();
    assert_eq!(b - a, 2, "the blank line between them is preserved");
}

/// Draw a single wordy note at document zoom on a terminal barely wider than
/// the note, then pan right `presses` times so the note hangs off the left
/// edge. Returns the board's text rows.
fn panned_board_rows(presses: usize) -> Vec<String> {
    let press = |code| {
        press_with(code, NONE)
    };
    let mut store = MemoryStore::seeded();
    let mut boards = store.load().unwrap();
    boards[0].notes.clear();
    boards[0].notes.push(Note {
        id: 900,
        title: "TITLE".into(),
        body: "alpha beta gamma delta epsilon zeta eta theta".into(),
        x: grains(0.0),
        y: grains(0.0),
        z: 1,
        color: Color::Yellow,
    });
    let mut app = App::new(boards);
    let mut terminal = Terminal::new(44, 24);
    terminal.draw(&mut app); // viewport + centering
    for _ in 0..4 {
        app.on_key(press(KeyCode::Char('+')));
    }
    for _ in 0..presses {
        app.on_key(press(KeyCode::Right));
    }
    terminal.draw(&mut app);
    buffer_text(&terminal.frame)
        .lines()
        .map(str::to_string)
        .collect()
}

/// The text inside a note's borders on one screen row: between the two
/// border glyphs when both are on screen, otherwise whatever is left of the
/// single one. Empty for rows that aren't part of a note.
fn note_interior(row: &str) -> String {
    let Some(right) = row.rfind('│') else {
        return String::new();
    };
    let seg = &row[..right];
    match seg.rfind('│') {
        Some(left) => seg[left + '│'.len_utf8()..].trim().to_string(),
        None => seg.trim().to_string(),
    }
}

#[test]
fn a_note_at_the_edge_does_not_reflow_its_text() {
    // Same note, same camera height, panned so more of it hangs off the left
    // edge. Panning may only ever *cut* a row - never re-wrap it into a new
    // shape - so each row still on screen must be a tail of what it was.
    let whole = panned_board_rows(0);
    let cut = panned_board_rows(8);
    assert_eq!(whole.len(), cut.len(), "same terminal, same row count");

    let mut narrowed = 0;
    for (whole_row, cut_row) in whole.iter().zip(&cut) {
        let (before, after) = (note_interior(whole_row), note_interior(cut_row));
        if after.is_empty() {
            continue; // row is blank, or cut away entirely - both are fine
        }
        assert!(
            before.ends_with(&after),
            "row re-wrapped at the edge: {after:?} is not the tail of {before:?}"
        );
        if before != after {
            narrowed += 1;
        }
    }
    assert!(
        narrowed > 0,
        "the note never reached the edge; the test proves nothing:\n{cut:#?}"
    );
}

#[test]
fn the_tab_strip_offers_a_plus_and_the_prompt_draws_over_the_board() {
    let mut store = MemoryStore::seeded();
    let mut app = App::new(store.load().unwrap());
    let mut terminal = Terminal::new(90, 22);
    terminal.draw(&mut app);
    assert!(
        buffer_text(&terminal.frame).contains("+"),
        "the tab strip should offer a + to add a world"
    );

    let press = |c| press_with(c, NONE);
    app.on_key(press(KeyCode::Char('w')));
    for c in "reading".chars() {
        app.on_key(press(KeyCode::Char(c)));
    }
    terminal.draw(&mut app);
    let text = buffer_text(&terminal.frame);
    assert!(text.contains("new world"), "prompt title missing:\n{text}");
    assert!(text.contains("reading"), "typed name missing:\n{text}");
    assert!(text.contains("esc to cancel"), "hint missing:\n{text}");

    // A refused name shows why, in place of the hint, and keeps the text.
    app.on_key(press(KeyCode::Char('/')));
    app.on_key(press(KeyCode::Enter));
    terminal.draw(&mut app);
    let text = buffer_text(&terminal.frame);
    assert!(text.contains("no slashes"), "reason missing:\n{text}");
    assert!(
        text.contains("reading/"),
        "typed name should survive:\n{text}"
    );
    assert!(
        !text.contains("esc to cancel"),
        "the reason replaces the hint"
    );
}

/// Every cell of a rendered line as (char, style), so a test can ask what
/// each character was painted with rather than guess at span boundaries.
fn cells(line: &[Piece]) -> Vec<(char, Look)> {
    line.iter()
        .flat_map(|p| p.text.chars().map(|c| (c, p.look)))
        .collect()
}

fn highlighted(line: &[Piece]) -> String {
    cells(line)
        .iter()
        .filter(|(_, s)| s.bg == Some(Tint::Accent))
        .map(|(c, _)| *c)
        .collect()
}

fn has_caret(line: &[Piece]) -> bool {
    cells(line)
        .iter()
        .any(|(_, s)| s.reversed)
}

#[test]
fn the_selected_run_is_highlighted() {
    let mut e = TextEditor::new("hello");
    e.step(Motion::Left, true);
    e.step(Motion::Left, true); // "lo"
    let lines = editor_lines(&e, 20);
    assert_eq!(highlighted(&lines[0]), "lo");
}

#[test]
fn nothing_is_highlighted_without_a_selection() {
    let e = TextEditor::new("hello");
    let lines = editor_lines(&e, 20);
    assert_eq!(highlighted(&lines[0]), "");
}

#[test]
fn the_caret_is_drawn_only_when_nothing_is_selected() {
    let mut e = TextEditor::new("hello");
    assert!(
        has_caret(&editor_lines(&e, 20)[0]),
        "caret with no selection"
    );
    e.step(Motion::Left, true);
    let lines = editor_lines(&e, 20);
    assert!(!has_caret(&lines[0]), "the highlight edge is the caret");
}

#[test]
fn a_selection_across_lines_marks_the_break_and_both_partial_rows() {
    let mut e = TextEditor::new("ab\ncd");
    e.set_cursor(Cursor { row: 0, col: 1 }, false);
    e.set_cursor(Cursor { row: 1, col: 1 }, true); // "b\nc"
    let lines = editor_lines(&e, 20);
    assert_eq!(
        highlighted(&lines[0]),
        "b ",
        "the trailing cell is the newline"
    );
    assert_eq!(highlighted(&lines[1]), "c");
}

#[test]
fn a_selection_highlights_across_a_wrap_without_inventing_a_break() {
    let mut e = TextEditor::new("hello world");
    e.select_all();
    let lines = editor_lines(&e, 6);
    assert_eq!(lines.len(), 2, "wrapped into two rows");
    assert_eq!(
        highlighted(&lines[0]),
        "hello ",
        "a wrap continuation has no newline cell to add"
    );
    assert_eq!(highlighted(&lines[1]), "world");
}

#[test]
fn the_footer_offers_the_copy_keys_in_both_modes() {
    let press = |c| press_with(c, NONE);
    let mut store = MemoryStore::seeded();
    let mut app = App::new(store.load().unwrap());
    let mut terminal = Terminal::new(160, 40);

    terminal.draw(&mut app);
    let text = buffer_text(&terminal.frame);
    assert!(
        text.contains("y copy"),
        "nav should offer the yank:\n{text}"
    );

    app.on_key(press(KeyCode::Char('n'))); // into the editor
    terminal.draw(&mut app);
    let text = buffer_text(&terminal.frame);
    assert!(
        text.contains("select"),
        "edit should offer selection:\n{text}"
    );
    assert!(text.contains("copy"), "edit should offer copy:\n{text}");
}

#[test]
fn a_copy_takes_over_the_footer_and_the_next_key_gives_it_back() {
    let press = |c| press_with(c, NONE);
    let mut store = MemoryStore::seeded();
    let mut app = App::new(store.load().unwrap());
    let mut terminal = Terminal::new(160, 40);
    terminal.draw(&mut app);

    app.on_key(press(KeyCode::Char('n')));
    app.on_key(press(KeyCode::Esc)); // save, still selected in nav
    app.on_key(press(KeyCode::Char('y')));
    terminal.draw(&mut app);
    let text = buffer_text(&terminal.frame);
    assert!(text.contains("copied 8 chars"), "status missing:\n{text}");

    app.on_key(press(KeyCode::Esc));
    terminal.draw(&mut app);
    let text = buffer_text(&terminal.frame);
    assert!(!text.contains("copied"), "status should clear:\n{text}");
    assert!(text.contains("y copy"), "hints should come back:\n{text}");
}

/// The whole path in one test: real key events into [`App`], a real frame
/// out, and the selection visible on it. The per-function tests above each
/// cover one side of the app/ui seam; this is the only one that crosses it.
#[test]
fn shift_arrows_produce_a_visible_highlight_on_a_real_frame() {
    let mut store = MemoryStore::seeded();
    let mut app = App::new(store.load().unwrap());
    let mut terminal = Terminal::new(120, 40);
    terminal.draw(&mut app); // viewport + centering

    app.on_key(press_with(KeyCode::Char('n'), NONE));
    for _ in 0..4 {
        app.on_key(press_with(KeyCode::Left, SHIFT));
    }
    terminal.draw(&mut app);

    let accent = Some(Tint::Accent);
    let buf = terminal.frame.clone();
    let picked: String = buf
        .cells
        .iter()
        .filter(|c| c.bg == accent)
        .map(|c| c.symbol.as_str())
        .collect();
    assert_eq!(picked, "note", "the last four characters of \"new note\"");
}

/// An app mid-drag with a pin held over another world's tab, drawn.
fn dragging_over_tab(index: usize) -> (App, Terminal) {
    let mut store = MemoryStore::seeded();
    let mut app = App::new(store.load().unwrap());
    let mut terminal = Terminal::new(120, 40);
    terminal.draw(&mut app); // establishes viewport + tabs

    // Grab the first pin at its centre.
    let note = app.active_board().notes[0].clone();
    let view = View::new(app.camera(), app.viewport());
    let (cx, cy) = view.cell_of(note.center());
    let (cx, cy) = (cx as f64 / CELL_PARTS as f64, cy as f64 / CELL_PARTS as f64);
    let cell = |x: f64, base: u16| (base as f64 + x).round() as u16;
    app.on_mouse(mouse(
        MouseEventKind::Down(MouseButton::Left),
        cell(cx, app.viewport().x),
        cell(cy, app.viewport().y),
    ));
    // Then hover the target world's tab.
    let tab = app
        .tabs()
        .into_iter()
        .find(|t| matches!(t.kind, TabKind::World { index: i, .. } if i == index))
        .expect("world tab");
    let (tc, tr) = (tab.x + tab.width / 2, 1);
    app.on_mouse(mouse(MouseEventKind::Drag(MouseButton::Left), tc, tr));
    terminal.draw(&mut app);
    (app, terminal)
}

fn mouse(kind: MouseEventKind, col: u16, row: u16) -> MouseEvent {
    MouseEvent {
        kind,
        column: col,
        row,
    }
}

#[test]
fn the_armed_tab_takes_the_accent_background() {
    let (app, terminal) = dragging_over_tab(1);
    let target = app.drop_target().expect("a tab should be armed");
    assert_eq!(target.world, 1);

    // Asserted as a column range rather than by matching the label text: the
    // pin glyph deliberately covers two cells of the name, so the visible
    // characters are not the name any more. The highlighted span is.
    let tab = app
        .tabs()
        .into_iter()
        .find(|t| matches!(t.kind, TabKind::World { index: 1, .. }))
        .expect("world tab");
    let accent = Some(Tint::Accent);
    let buf = terminal.frame.clone();
    // The cell after the pin is the continuation of a wide grapheme, and
    // `Buffer::diff` deliberately skips those - so the test backend still
    // holds the previous frame's background there. The real terminal draws
    // the pin across both cells.
    let continuation = target.col + 1;
    for x in tab.x..tab.x + tab.width {
        if x == continuation {
            continue;
        }
        assert_eq!(
            buf.at(x, 1).bg,
            accent,
            "column {x} of the armed tab is not lit"
        );
    }
    for x in 0..buf.width {
        if (tab.x..tab.x + tab.width).contains(&x) {
            continue;
        }
        assert_ne!(
            buf.at(x, 1).bg,
            accent,
            "column {x} outside the armed tab is lit"
        );
    }
}

#[test]
fn a_pin_rides_the_cursor_over_the_tab_strip() {
    let (app, terminal) = dragging_over_tab(1);
    let col = app.drop_target().unwrap().col;
    let buf = terminal.frame.clone();
    assert_eq!(
        buf.at(col, 1).symbol,
        "📌",
        "the pin should sit under the cursor, not somewhere else in the strip"
    );
}

#[test]
fn the_footer_says_what_the_drop_will_do() {
    let (app, terminal) = dragging_over_tab(1);
    let text = buffer_text(&terminal.frame);
    let title = &app.boards()[0].notes[0].title;
    assert!(text.contains("release to move"), "no drop hint:\n{text}");
    assert!(
        text.contains(title.as_str()),
        "the pin is not named:\n{text}"
    );
    assert!(
        text.contains(app.boards()[1].name.as_str()),
        "no destination:\n{text}"
    );
}

#[test]
fn no_tab_is_armed_when_nothing_is_being_dragged() {
    let mut store = MemoryStore::seeded();
    let mut app = App::new(store.load().unwrap());
    let mut terminal = Terminal::new(120, 40);
    terminal.draw(&mut app);
    let accent = Some(Tint::Accent);
    let buf = terminal.frame.clone();
    assert!(
        !(0..buf.width).any(|x| buf.at(x, 1).bg == accent),
        "nothing should be armed at rest"
    );
    assert!(!buffer_text(&buf).contains("release to move"));
}

#[test]
fn tiny_terminal_does_not_panic() {
    let mut store = MemoryStore::seeded();
    let mut app = App::new(store.load().unwrap());
    let mut terminal = Terminal::new(8, 5);
    terminal.draw(&mut app);
}

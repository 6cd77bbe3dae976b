//! What frames the board: the header, the tab strip, the footer, and the prompt.

use crate::app::{tabs_view, App, Prompt, Tab, TabKind};
use crate::geometry::ZoomLevel;
use crate::model::{Color, NoteView};
use crate::paint::{
    bold, piece, pieces_view, push_piece, strong, tint, tinted, Look, Piece, PieceView, Tint,
};
use crate::state::{
    strip_end, tabs_of, AppState, Drag, Mode, PromptView, TabKindView, TabView, NEW_TAB_WIDTH,
};
use crate::text::{chars_of, decimal, push_decimal, push_text, string_of};
use crate::theme::theme_name;
use crate::view::Rect;
use vstd::prelude::*;

verus! {

// ---- header ----

/// The name of the thing.
pub open spec fn brand_line() -> Seq<PieceView> {
    seq![
        piece("\u{1F4CC} pinz"@, strong(Tint::Text)),
        piece("  \u{2014} terminal bulletin board"@, tinted(Tint::Overlay1)),
    ]
}

pub fn brand() -> (out: Vec<Piece>)
    ensures
        pieces_view(out@) == brand_line(),
{
    let mut out: Vec<Piece> = Vec::new();
    push_piece(&mut out, "\u{1F4CC} pinz", bold(Tint::Text));
    push_piece(&mut out, "  \u{2014} terminal bulletin board", tint(Tint::Overlay1));
    proof {
        assert(pieces_view(out@) =~= brand_line());
    }
    out
}

/// The dot for a level, filled up to the current one.
pub open spec fn dot(level: int, current: int) -> PieceView {
    if level <= current {
        piece("\u{25CF}"@, tinted(Tint::Accent))
    } else {
        piece("\u{25CB}"@, tinted(Tint::Surface1))
    }
}

/// A look with no color of its own.
pub open spec fn plain() -> Look {
    Look { fg: None, bg: None, bold: false, reversed: false }
}

/// A dot and a space for each of the first `n` levels.
pub open spec fn dots(current: int, n: int) -> Seq<PieceView>
    decreases n,
{
    if n <= 0 {
        Seq::empty()
    } else {
        dots(current, n - 1).push(dot(n - 1, current)).push(piece(" "@, plain()))
    }
}

/// Zoom indicator: one dot per level, filled up to the current one. No label -
/// the dots say how far in you are, and what the levels are called is not
/// something to spend header width on.
pub fn zoom_dots(zoom: ZoomLevel) -> (out: Vec<Piece>)
    ensures
        pieces_view(out@) == dots(zoom.rank(), 4),
{
    let current: usize = zoom.index();
    let mut out: Vec<Piece> = Vec::new();
    let mut i: usize = 0;
    proof {
        assert(pieces_view(out@) =~= Seq::empty());
    }
    while i < 4
        invariant
            i <= 4,
            current == zoom.rank(),
            pieces_view(out@) == dots(zoom.rank(), i as int),
        decreases 4 - i,
    {
        if i <= current {
            push_piece(&mut out, "\u{25CF}", tint(Tint::Accent));
        } else {
            push_piece(&mut out, "\u{25CB}", tint(Tint::Surface1));
        }
        push_piece(&mut out, " ", Look { fg: None, bg: None, bold: false, reversed: false });
        i += 1;
    }
    out
}

// ---- tabs ----

/// The look of a tab a released pin would land on. It takes the accent as a
/// *background* rather than a brighter foreground, because the active tab
/// already owns the foreground emphasis and the two must not be mistakable for
/// each other.
pub open spec fn armed_look() -> Look {
    Look { fg: Some(Tint::Mantle), bg: Some(Tint::Accent), bold: true, reversed: false }
}

/// The pieces of one tab.
pub open spec fn tab_pieces(tab: TabKindView, armed: Option<usize>) -> Seq<PieceView> {
    match tab {
        TabKindView::World { index, name, notes, active } => {
            let label = name + " "@;
            let count = decimal(notes as nat) + "  "@;
            if armed == Some(index) {
                seq![
                    piece(" "@, armed_look()),
                    piece(label, armed_look()),
                    piece(count, armed_look()),
                ]
            } else if active {
                seq![
                    piece("\u{258E}"@, tinted(Tint::Accent)),
                    piece(label, strong(Tint::Text)),
                    piece(count, tinted(Tint::Overlay0)),
                ]
            } else {
                seq![
                    piece(" "@, tinted(Tint::Accent)),
                    piece(label, tinted(Tint::Subtext)),
                    piece(count, tinted(Tint::Overlay0)),
                ]
            }
        },
        TabKindView::New => seq![piece(" + "@, tinted(Tint::Overlay1))],
    }
}

/// The pieces of the first `n` tabs, after the space the strip opens with.
pub open spec fn strip_pieces(tabs: Seq<TabView>, armed: Option<usize>, n: int) -> Seq<PieceView>
    decreases n,
{
    if n <= 0 {
        seq![piece(" "@, plain())]
    } else {
        strip_pieces(tabs, armed, n - 1) + tab_pieces(tabs[n - 1].kind, armed)
    }
}

/// The world a released pin would land on.
pub open spec fn armed_world(s: AppState) -> Option<usize> {
    match s.drop_target {
        Some(t) => Some(t.world),
        None => None,
    }
}

fn push_tab(out: &mut Vec<Piece>, tab: &Tab, armed: Option<usize>)
    ensures
        pieces_view(final(out)@) == pieces_view(old(out)@) + tab_pieces(tab@.kind, armed),
{
    let ghost start = pieces_view(out@);
    match &tab.kind {
        TabKind::World { index, name, notes, active } => {
            let mut label = chars_of(name);
            push_text(&mut label, " ");
            let label = string_of(&label);
            let mut count: Vec<char> = Vec::new();
            push_decimal(&mut count, *notes as u64);
            push_text(&mut count, "  ");
            proof {
                assert(count@ =~= decimal(*notes as nat) + "  "@);
            }
            let count = string_of(&count);
            let hit = match armed {
                Some(world) => world == *index,
                None => false,
            };
            if hit {
                let look = Look {
                    fg: Some(Tint::Mantle),
                    bg: Some(Tint::Accent),
                    bold: true,
                    reversed: false,
                };
                push_piece(out, " ", look);
                push_piece(out, &label, look);
                push_piece(out, &count, look);
            } else if *active {
                push_piece(out, "\u{258E}", tint(Tint::Accent));
                push_piece(out, &label, bold(Tint::Text));
                push_piece(out, &count, tint(Tint::Overlay0));
            } else {
                push_piece(out, " ", tint(Tint::Accent));
                push_piece(out, &label, tint(Tint::Subtext));
                push_piece(out, &count, tint(Tint::Overlay0));
            }
        },
        TabKind::New => {
            push_piece(out, " + ", tint(Tint::Overlay1));
        },
    }
    proof {
        assert(pieces_view(out@) =~= start + tab_pieces(tab@.kind, armed));
    }
}

/// The world tab strip, plus the `+` that opens the new-world prompt.
///
/// Every piece comes from [`App::tabs`], which is also what a click is tested
/// against - so what you see and what you can hit cannot drift apart.
pub fn tab_strip(app: &App) -> (out: Vec<Piece>)
    requires
        app@.wf(),
        strip_end(app@.boards, app@.boards.len() as int) + NEW_TAB_WIDTH <= u16::MAX,
    ensures
        ({
            let tabs = tabs_of(app@.boards, app@.active);
            pieces_view(out@) == strip_pieces(tabs, armed_world(app@), tabs.len() as int)
        }),
{
    let armed: Option<usize> = match app.drop_target() {
        Some(t) => Some(t.world),
        None => None,
    };
    let tabs = app.tabs();
    let mut out: Vec<Piece> = Vec::new();
    push_piece(&mut out, " ", Look { fg: None, bg: None, bold: false, reversed: false });
    let mut i: usize = 0;
    proof {
        assert(pieces_view(out@) =~= seq![piece(" "@, plain())]);
    }
    while i < tabs.len()
        invariant
            i <= tabs@.len(),
            pieces_view(out@) == strip_pieces(tabs_view(tabs@), armed, i as int),
        decreases tabs@.len() - i,
    {
        assert(tabs_view(tabs@)[i as int] == tabs@[i as int]@);
        push_tab(&mut out, &tabs[i], armed);
        i += 1;
    }
    out
}

/// The cells the pin that rides the cursor covers: two, where the second has a
/// column. It is what keeps the gesture feeling continuous once the note stops
/// tracking the mouse.
pub fn riding_pin(app: &App) -> (cols: Option<(u16, Option<u16>)>)
    ensures
        cols == (match app@.drop_target {
            Some(t) => Some(
                (
                    t.col,
                    if t.col < u16::MAX {
                        Some((t.col + 1) as u16)
                    } else {
                        None
                    },
                ),
            ),
            None => None,
        }),
{
    match app.drop_target() {
        Some(t) => Some(
            (
                t.col,
                if t.col < u16::MAX {
                    Some(t.col + 1)
                } else {
                    None
                },
            ),
        ),
        None => None,
    }
}

// ---- footer ----

/// A key and what it does.
pub open spec fn hint(key: Seq<char>, label: Seq<char>) -> PieceView {
    piece(" "@ + key + " "@ + label + " "@, tinted(Tint::Overlay1))
}

fn push_hint(out: &mut Vec<Piece>, key: &str, label: &str)
    ensures
        pieces_view(final(out)@) == pieces_view(old(out)@).push(hint(key@, label@)),
{
    let mut text = chars_of(" ");
    push_text(&mut text, key);
    push_text(&mut text, " ");
    push_text(&mut text, label);
    push_text(&mut text, " ");
    proof {
        assert(text@ =~= " "@ + key@ + " "@ + label@ + " "@);
    }
    push_piece(out, &string_of(&text), tint(Tint::Overlay1));
}

pub open spec fn separator() -> PieceView {
    piece("  \u{b7}  "@, tinted(Tint::Overlay0))
}

/// The keys that matter in a mode.
pub open spec fn hints(mode: Mode, theme: Seq<char>) -> Seq<PieceView> {
    match mode {
        Mode::Prompt => seq![
            piece("naming a world"@, strong(Tint::Accent)),
            separator(),
            hint("enter"@, "create"@),
            hint("esc"@, "cancel"@),
        ],
        Mode::Edit => seq![
            piece("editing"@, strong(Tint::Accent)),
            separator(),
            piece("line 1 is the title"@, tinted(Tint::Overlay0)),
            separator(),
            hint("enter"@, "newline"@),
            hint("\u{2191}\u{2193}\u{2190}\u{2192}"@, "move"@),
            hint("alt+\u{2190}\u{2192}"@, "word"@),
            hint("shift+\u{2190}\u{2192}"@, "select"@),
            hint("ctrl+c"@, "copy"@),
            hint("ctrl+\u{232b}"@, "del word"@),
            hint("esc"@, "save"@),
        ],
        Mode::Nav => seq![
            hint("scroll/\u{b1}"@, "zoom"@),
            hint("drag"@, "move/pan"@),
            hint("n"@, "new"@),
            hint("e"@, "edit"@),
            hint("y"@, "copy"@),
            hint("c"@, "color"@),
            hint("d"@, "del"@),
            hint("tab"@, "world"@),
            hint("w"@, "+world"@),
            hint("t"@, "theme:"@ + theme),
            hint("q"@, "quit"@),
        ],
    }
}

/// The pin being dragged.
pub open spec fn dragged(s: AppState) -> Option<NoteView> {
    match s.drag {
        Some(Drag::Note { id, off_x: _, off_y: _ }) => s.note(id),
        _ => None,
    }
}

/// What a drop is about to do.
pub open spec fn drop_line(title: Seq<char>, world: Seq<char>) -> Seq<PieceView> {
    seq![
        piece(" release "@, tinted(Tint::Overlay1)),
        piece("to move "@, tinted(Tint::Overlay1)),
        piece("\""@ + title + "\""@, strong(Tint::Text)),
        piece(" to "@, tinted(Tint::Overlay1)),
        piece(world, strong(Tint::Accent)),
    ]
}

/// The footer. Mid-drop it states the outcome, naming both the pin and where it
/// is about to go. Otherwise a one-off message takes it, then a warning, and
/// with no news it offers the keys.
pub open spec fn footer_line(s: AppState) -> Seq<PieceView> {
    if s.drop_target is Some && dragged(s) is Some && s.drop_target->0.world < s.boards.len() {
        drop_line(dragged(s)->0.title, s.boards[s.drop_target->0.world as int].name)
    } else {
        match (s.status, s.warning) {
            (Some(status), _) => seq![piece(" "@ + status + " "@, strong(Tint::Accent))],
            (None, Some(warning)) => seq![
                piece(" !! "@ + warning + " "@, strong(Tint::Note(Color::Red))),
            ],
            (None, None) => hints(s.mode, theme_name(s.theme_index as int)),
        }
    }
}

fn mode_hints(mode: Mode, theme: &str) -> (out: Vec<Piece>)
    ensures
        pieces_view(out@) == hints(mode, theme@),
{
    let mut out: Vec<Piece> = Vec::new();
    match mode {
        Mode::Prompt => {
            push_piece(&mut out, "naming a world", bold(Tint::Accent));
            push_piece(&mut out, "  \u{b7}  ", tint(Tint::Overlay0));
            push_hint(&mut out, "enter", "create");
            push_hint(&mut out, "esc", "cancel");
        },
        Mode::Edit => {
            push_piece(&mut out, "editing", bold(Tint::Accent));
            push_piece(&mut out, "  \u{b7}  ", tint(Tint::Overlay0));
            push_piece(&mut out, "line 1 is the title", tint(Tint::Overlay0));
            push_piece(&mut out, "  \u{b7}  ", tint(Tint::Overlay0));
            push_hint(&mut out, "enter", "newline");
            push_hint(&mut out, "\u{2191}\u{2193}\u{2190}\u{2192}", "move");
            push_hint(&mut out, "alt+\u{2190}\u{2192}", "word");
            push_hint(&mut out, "shift+\u{2190}\u{2192}", "select");
            push_hint(&mut out, "ctrl+c", "copy");
            push_hint(&mut out, "ctrl+\u{232b}", "del word");
            push_hint(&mut out, "esc", "save");
        },
        Mode::Nav => {
            push_hint(&mut out, "scroll/\u{b1}", "zoom");
            push_hint(&mut out, "drag", "move/pan");
            push_hint(&mut out, "n", "new");
            push_hint(&mut out, "e", "edit");
            push_hint(&mut out, "y", "copy");
            push_hint(&mut out, "c", "color");
            push_hint(&mut out, "d", "del");
            push_hint(&mut out, "tab", "world");
            push_hint(&mut out, "w", "+world");
            push_hint(&mut out, "t", &crate::git::glued("theme:", theme));
            push_hint(&mut out, "q", "quit");
        },
    }
    proof {
        assert(pieces_view(out@) =~= hints(mode, theme@));
    }
    out
}

/// The footer's line.
pub fn footer(app: &App) -> (out: Vec<Piece>)
    requires
        app@.wf(),
    ensures
        pieces_view(out@) == footer_line(app@),
{
    let mut out: Vec<Piece> = Vec::new();
    if let (Some(target), Some(note)) = (app.drop_target(), app.dragging_note()) {
        if target.world < app.boards.len() {
            let mut title = chars_of("\"");
            push_text(&mut title, &note.title);
            push_text(&mut title, "\"");
            proof {
                assert(title@ =~= "\""@ + note.title@ + "\""@);
            }
            push_piece(&mut out, " release ", tint(Tint::Overlay1));
            push_piece(&mut out, "to move ", tint(Tint::Overlay1));
            push_piece(&mut out, &string_of(&title), bold(Tint::Text));
            push_piece(&mut out, " to ", tint(Tint::Overlay1));
            push_piece(&mut out, &app.boards[target.world].name, bold(Tint::Accent));
            proof {
                assert(pieces_view(out@) =~= drop_line(
                    note.title@,
                    app@.boards[target.world as int].name,
                ));
            }
            return out;
        }
    }
    if let Some(status) = app.status() {
        let mut text = chars_of(" ");
        push_text(&mut text, status);
        push_text(&mut text, " ");
        push_piece(&mut out, &string_of(&text), bold(Tint::Accent));
        proof {
            assert(pieces_view(out@) =~= footer_line(app@));
        }
        return out;
    }
    if let Some(warning) = app.warning() {
        let mut text = chars_of(" !! ");
        push_text(&mut text, warning);
        push_text(&mut text, " ");
        push_piece(&mut out, &string_of(&text), bold(Tint::Note(Color::Red)));
        proof {
            assert(pieces_view(out@) =~= footer_line(app@));
        }
        return out;
    }
    mode_hints(app.mode, app.theme().name)
}

// ---- prompt ----

pub open spec fn between(v: int, lo: int, hi: int) -> int {
    if v < lo {
        lo
    } else if v > hi {
        hi
    } else {
        v
    }
}

/// Half of what is left over, if anything is.
pub open spec fn half_of_rest(whole: int, part: int) -> int {
    if whole > part {
        (whole - part) / 2
    } else {
        0
    }
}

/// Where the prompt stands: a small box in the middle of the board.
pub open spec fn prompt_place(area: Rect) -> Rect {
    let width = between(area.width as int, 12, 44);
    let height = if area.height < 6 {
        area.height as int
    } else {
        6
    };
    Rect {
        x: (area.x + half_of_rest(area.width as int, width)) as u16,
        y: (area.y + half_of_rest(area.height as int, height)) as u16,
        width: width as u16,
        height: height as u16,
    }
}

/// A small centered dialog. Deliberately a stop-and-answer moment rather than a
/// keystroke that acts instantly: naming a world deserves an escape hatch.
pub fn prompt_box(area: Rect) -> (r: Rect)
    requires
        area.fits(),
    ensures
        r == prompt_place(area),
{
    let width: u16 = if area.width < 12 {
        12
    } else if area.width > 44 {
        44
    } else {
        area.width
    };
    let height: u16 = if area.height < 6 {
        area.height
    } else {
        6
    };
    let dx: u16 = if area.width > width {
        (area.width - width) / 2
    } else {
        0
    };
    let dy: u16 = if area.height > height {
        (area.height - height) / 2
    } else {
        0
    };
    Rect { x: area.x + dx, y: area.y + dy, width, height }
}

/// The typed name with a block caret, a blank line, and either the error or the
/// hint.
pub open spec fn prompt_text(p: PromptView) -> Seq<Seq<PieceView>> {
    seq![
        seq![
            piece(p.input, tinted(Tint::Text)),
            piece(
                " "@,
                Look { fg: Some(Tint::Text), bg: None, bold: false, reversed: true },
            ),
        ],
        Seq::empty(),
        match p.error {
            Some(error) => seq![piece(error, tinted(Tint::Note(Color::Red)))],
            None => seq![piece(p.hint, tinted(Tint::Overlay0))],
        },
    ]
}

/// Lines of pieces as lines of values.
pub open spec fn lines_view(lines: Seq<Vec<Piece>>) -> Seq<Seq<PieceView>> {
    Seq::new(lines.len(), |i: int| pieces_view(lines[i]@))
}

/// The lines of the prompt.
pub fn prompt_lines(prompt: &Prompt) -> (out: Vec<Vec<Piece>>)
    ensures
        lines_view(out@) == prompt_text(prompt@),
{
    let mut typed: Vec<Piece> = Vec::new();
    push_piece(&mut typed, &prompt.input, tint(Tint::Text));
    push_piece(
        &mut typed,
        " ",
        Look { fg: Some(Tint::Text), bg: None, bold: false, reversed: true },
    );
    let blank: Vec<Piece> = Vec::new();
    let mut last: Vec<Piece> = Vec::new();
    match &prompt.error {
        Some(error) => push_piece(&mut last, error, tint(Tint::Note(Color::Red))),
        None => push_piece(&mut last, prompt.hint, tint(Tint::Overlay0)),
    }
    let mut out: Vec<Vec<Piece>> = Vec::new();
    proof {
        assert(pieces_view(typed@) =~= prompt_text(prompt@)[0]);
        assert(pieces_view(blank@) =~= prompt_text(prompt@)[1]);
        assert(pieces_view(last@) =~= prompt_text(prompt@)[2]);
    }
    out.push(typed);
    out.push(blank);
    out.push(last);
    proof {
        assert(lines_view(out@) =~= prompt_text(prompt@));
    }
    out
}

// ---- laws ----

/// How much text the pieces hold.
pub open spec fn length_of(pieces: Seq<PieceView>) -> int
    decreases pieces.len(),
{
    if pieces.len() == 0 {
        0
    } else {
        length_of(pieces.drop_last()) + pieces.last().text.len()
    }
}

/// Seen and hit cannot drift apart: each tab is drawn exactly where a click is
/// tested for it.
pub proof fn law_tabs_are_drawn_where_they_are_hit(s: AppState, n: int)
    requires
        0 <= n <= s.boards.len(),
        forall|i: int| 0 <= i < s.boards.len() ==> (#[trigger] s.boards[i]).notes.len() <= usize::MAX,
    ensures
        length_of(
            strip_pieces(tabs_of(s.boards, s.active), armed_world(s), n),
        ) == strip_end(s.boards, n),
    decreases n,
{
    let tabs = tabs_of(s.boards, s.active);
    let armed = armed_world(s);
    reveal_strlit(" ");
    reveal_strlit("  ");
    if n == 0 {
        let first = strip_pieces(tabs, armed, 0);
        assert(first.drop_last() =~= Seq::empty());
        assert(first.last().text.len() == 1);
        assert(length_of(first.drop_last()) == 0);
    } else {
        law_tabs_are_drawn_where_they_are_hit(s, n - 1);
        reveal_strlit("\u{258E}");
        let before = strip_pieces(tabs, armed, n - 1);
        let one = tab_pieces(tabs[n - 1].kind, armed);
        assert(one.len() == 3);
        lemma_length_three(before, one);
        assert(tabs[n - 1] == crate::state::world_tab(s.boards, s.active, n - 1));
        assert(s.boards[n - 1].notes.len() <= usize::MAX);
    }
}

proof fn lemma_length_three(before: Seq<PieceView>, one: Seq<PieceView>)
    requires
        one.len() == 3,
    ensures
        length_of(before + one) == length_of(before) + one[0].text.len() + one[1].text.len()
            + one[2].text.len(),
{
    let a = before.push(one[0]);
    let b = a.push(one[1]);
    let c = b.push(one[2]);
    assert(before + one =~= c);
    assert(c.drop_last() =~= b);
    assert(b.drop_last() =~= a);
    assert(a.drop_last() =~= before);
    assert(length_of(a) == length_of(before) + one[0].text.len());
    assert(length_of(b) == length_of(a) + one[1].text.len());
    assert(length_of(c) == length_of(b) + one[2].text.len());
}

/// News outranks hints: a status is what the footer shows, whatever else there
/// is to say, unless a pin is about to be dropped.
pub proof fn law_news_takes_the_footer(s: AppState, status: Seq<char>)
    requires
        s.drop_target is None,
        s.status == Some(status),
    ensures
        footer_line(s) == seq![piece(" "@ + status + " "@, strong(Tint::Accent))],
{
}

/// While a pin is held over another world's tab the footer says what letting go would
/// do: which pin would go, and where.
pub proof fn law_a_drop_is_announced(s: AppState, n: NoteView, world: usize)
    requires
        s.drop_target matches Some(t) && t.world == world,
        dragged(s) == Some(n),
        world < s.boards.len(),
    ensures
        ({
            let said = footer_line(s);
            &&& exists|i: int|
                0 <= i < said.len() && (#[trigger] said[i]).text == "\""@ + n.title + "\""@
            &&& said.last().text == s.boards[world as int].name
        }),
{
    let said = footer_line(s);
    assert(said[2].text == "\""@ + n.title + "\""@);
}

/// The prompt shows what was typed with a caret behind it, and below it what is wrong
/// with that, or with nothing wrong what is asked for.
pub proof fn law_the_prompt_shows_what_is_typed(p: PromptView)
    ensures
        ({
            let lines = prompt_text(p);
            &&& lines[0][0].text == p.input
            &&& lines[0].last().look.reversed && !lines[0][0].look.reversed
            &&& p.error matches Some(error) ==> lines.last() == seq![
                piece(error, tinted(Tint::Note(Color::Red))),
            ]
            &&& p.error is None ==> lines.last().len() == 1 && lines.last()[0].text == p.hint
        }),
{
}

} // verus!

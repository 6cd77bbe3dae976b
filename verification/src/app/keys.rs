//! What the keyboard does.

use super::App;
use crate::editor::{Motion, TextEditor};
use crate::input::{KeyCode, KeyEvent};
use crate::state::{edited, AppState, Mode, Step};
use vstd::prelude::*;

verus! {

/// The cursor movement a key means while editing, if it means one at all.
///
/// Terminals disagree about what Option/Alt + arrow sends: some report
/// Alt+Left, others the readline escapes Alt-b / Alt-f. Both spellings are
/// accepted, and Ctrl+arrow with them.
///
/// SUPER is Cmd on macOS, where Cmd + arrow is line-wise movement. Most
/// terminals claim that chord before it reaches an application - it is bound
/// here so it works in the ones that can be told to forward it, not because it
/// can be relied on.
pub fn motion_for(code: KeyCode, ctrl: bool, alt: bool, sup: bool) -> (m: Option<Motion>)
    ensures
        m == crate::state::motion_for(code, ctrl, alt, sup),
{
    match code {
        KeyCode::Left => Some(
            if ctrl || alt {
                Motion::LeftWord
            } else if sup {
                Motion::Home
            } else {
                Motion::Left
            },
        ),
        KeyCode::Right => Some(
            if ctrl || alt {
                Motion::RightWord
            } else if sup {
                Motion::End
            } else {
                Motion::Right
            },
        ),
        KeyCode::Char(c) => {
            if alt && (c == 'b' || c == 'B') {
                Some(Motion::LeftWord)
            } else if alt && (c == 'f' || c == 'F') {
                Some(Motion::RightWord)
            } else {
                None
            }
        },
        KeyCode::Up => Some(Motion::Up),
        KeyCode::Down => Some(Motion::Down),
        KeyCode::Home => Some(Motion::Home),
        KeyCode::End => Some(Motion::End),
        _ => None,
    }
}

/// What a key does to the note being edited.
fn edit(editor: &mut TextEditor, key: KeyEvent)
    requires
        old(editor)@.wf(),
    ensures
        final(editor)@ == edited(old(editor)@, key),
        final(editor)@.wf(),
{
    let ctrl = key.modifiers.control;
    let alt = key.modifiers.alt;
    let sup = key.modifiers.sup;
    // Movement first, because every motion is also a selection gesture:
    // holding shift extends instead of collapsing. Routing them all through
    // `step` is what keeps the two from drifting apart.
    if let Some(motion) = motion_for(key.code, ctrl, alt, sup) {
        editor.step(motion, key.modifiers.shift);
        return;
    }
    match key.code {
        // Word / line delete. Ctrl or Alt + Backspace (and Ctrl-W) kill the
        // word before the cursor; Ctrl-U clears the current line.
        KeyCode::Backspace => {
            if ctrl || alt {
                editor.delete_word()
            } else {
                editor.backspace()
            }
        },
        KeyCode::Enter => editor.insert_newline(),
        KeyCode::Delete => editor.delete(),
        KeyCode::Char(c) => {
            if c == 'w' && ctrl {
                editor.delete_word()
            } else if c == 'u' && ctrl {
                editor.kill_line()
            } else if (c == 'a' || c == 'A') && (ctrl || sup) {
                editor.select_all()
            } else if !(ctrl || alt || sup) {
                // A modified key that got this far is a chord we don't bind,
                // never text. Without this guard an unbound Alt-<letter> - which
                // is how a terminal spells Option+arrow - would type its letter
                // into the note.
                editor.insert_char(c)
            }
        },
        _ => {},
    }
}

/// Whether a key is a copy chord (`Some(false)`) or a cut chord (`Some(true)`).
fn chord(key: KeyEvent) -> (out: Option<bool>)
    ensures
        out == crate::state::copy_chord(key),
{
    if !key.modifiers.control && !key.modifiers.sup {
        return None;
    }
    match key.code {
        KeyCode::Char(c) => {
            if c == 'c' || c == 'C' {
                Some(false)
            } else if c == 'x' || c == 'X' {
                Some(true)
            } else {
                None
            }
        },
        _ => None,
    }
}

impl App {
    /// A key press. Whatever it changed becomes one undo step.
    pub fn on_key(&mut self, key: KeyEvent)
        requires
            old(self)@.has_room(),
        ensures
            final(self)@ == old(self)@.on_key(key),
            final(self)@.wf(),
            final(self)@.at_rest(),
    {
        self.begin_step();
        self.key(key);
        let ghost handled = self@;
        self.follow_caret();
        assert(self@.revision == handled.revision);
        let ghost ending = self@;
        self.end_step();
        proof {
            crate::laws::lemma_ends_at_rest(ending);
        }
    }

    /// Text arriving as one lump from a bracketed paste. Never key-by-key, so a
    /// pasted newline cannot be mistaken for Enter.
    pub fn on_paste(&mut self, text: String)
        requires
            old(self)@.has_room(),
        ensures
            final(self)@ == old(self)@.on_paste(text@),
            final(self)@.wf(),
            final(self)@.at_rest(),
    {
        self.begin_step();
        self.paste(&text);
        let ghost handled = self@;
        self.follow_caret();
        assert(self@.revision == handled.revision);
        let ghost ending = self@;
        self.end_step();
        proof {
            crate::laws::lemma_ends_at_rest(ending);
        }
    }

    fn key(&mut self, key: KeyEvent)
        requires
            old(self)@.has_room(),
        ensures
            final(self)@ == old(self)@.key(key),
            final(self)@.safe(),
            final(self)@.revision < u64::MAX,
    {
        reveal(AppState::key);
        // Whatever the last event had to say, this one supersedes it.
        self.status = None;
        // The key that dismisses the list is spent doing so: pressing ? and
        // then n should not leave you holding a note you never asked for.
        // Checked before everything else, ctrl-c included, so there is exactly
        // one thing any key can mean while the list is up.
        if self.help {
            self.help = false;
            return;
        }
        // F1 rather than only `?`, because in a note `?` is a character you are
        // trying to type. No terminal sends F1 as text, so it is the one key
        // that can mean the same thing in every mode.
        if key.code == KeyCode::F(1) {
            self.help = true;
            return;
        }
        // The copy and cut chords have to be resolved before the per-mode
        // dispatch because Ctrl-C means two different things: it copies when
        // there is a selection to copy and quits otherwise, so it keeps working
        // as the escape hatch everywhere except the one moment you obviously
        // meant to copy. SUPER+C only ever copies.
        if let Some(cut) = chord(key) {
            if self.mode == Mode::Edit && self.has_selection() {
                self.copy_selection(cut);
            } else if key.modifiers.control && !cut {
                self.quit();
            }
            return;
        }
        match self.mode {
            Mode::Edit => self.edit_key(key),
            Mode::Prompt => {
                self.prompt_key(key);
            },
            Mode::Nav => self.nav_key(key),
        }
    }

    fn has_selection(&self) -> (r: bool)
        ensures
            r == self@.has_selection(),
    {
        match &self.editor {
            Some(e) => e.selection().is_some(),
            None => false,
        }
    }

    fn edit_key(&mut self, key: KeyEvent)
        requires
            old(self)@.safe(),
            old(self)@.mode == Mode::Edit,
            old(self)@.revision < u64::MAX - 4,
        ensures
            final(self)@ == old(self)@.edit_key(key),
            final(self)@.safe(),
            final(self)@.revision < u64::MAX,
    {
        reveal(AppState::edit_key);
        if key.code == KeyCode::Esc {
            self.commit_edit();
            return;
        }
        let ghost start = self@;
        if let Some(e) = self.editor.take() {
            let mut editor = e;
            edit(&mut editor, key);
            self.editor = Some(editor);
        }
        proof {
            assert(self@ =~= start.edit_key(key));
        }
    }

    fn nav_key(&mut self, key: KeyEvent)
        requires
            old(self)@.has_room(),
            old(self)@.mode == Mode::Nav,
        ensures
            final(self)@ == old(self)@.nav_key(key),
            final(self)@.safe(),
            final(self)@.revision < u64::MAX,
    {
        reveal(AppState::nav_key);
        reveal(AppState::switch_world);
        let shift = key.modifiers.shift;
        match key.code {
            KeyCode::Char(c) => self.nav_char(c, key.modifiers.control),
            KeyCode::Esc => {
                self.selected = None;
            },
            KeyCode::PageDown => self.page_selected(true),
            KeyCode::PageUp => self.page_selected(false),
            KeyCode::Delete => self.delete_selected(),
            KeyCode::Enter => self.begin_edit(),
            KeyCode::Tab => {
                let next: usize = if self.active == self.boards.len() - 1 {
                    0
                } else {
                    self.active + 1
                };
                proof {
                    lemma_next_world(self@.active as int, self@.boards.len() as int);
                }
                self.switch_world(next);
            },
            KeyCode::BackTab => {
                let prev: usize = if self.active == 0 {
                    self.boards.len() - 1
                } else {
                    self.active - 1
                };
                proof {
                    lemma_previous_world(self@.active as int, self@.boards.len() as int);
                }
                self.switch_world(prev);
            },
            // Selection before panning: shift means "select" here exactly as it
            // does inside a note.
            KeyCode::Left => {
                if shift {
                    self.select_toward(Step::Left)
                } else {
                    self.pan_cells(-4, 0)
                }
            },
            KeyCode::Right => {
                if shift {
                    self.select_toward(Step::Right)
                } else {
                    self.pan_cells(4, 0)
                }
            },
            KeyCode::Up => {
                if shift {
                    self.select_toward(Step::Up)
                } else {
                    self.pan_cells(0, -4)
                }
            },
            KeyCode::Down => {
                if shift {
                    self.select_toward(Step::Down)
                } else {
                    self.pan_cells(0, 4)
                }
            },
            _ => {},
        }
    }

    fn nav_char(&mut self, c: char, ctrl: bool)
        requires
            old(self)@.has_room(),
            old(self)@.mode == Mode::Nav,
        ensures
            final(self)@ == old(self)@.nav_char(c, ctrl),
            final(self)@.safe(),
            final(self)@.revision < u64::MAX,
    {
        reveal(AppState::nav_char);
        if c == 'r' && ctrl {
            self.redo_step()
        } else if c == 'u' {
            self.undo_step()
        } else if c == '?' {
            self.help = true;
        } else if c == 'q' {
            self.quit()
        } else if c == '+' || c == '=' {
            self.zoom_at_center(true)
        } else if c == '-' || c == '_' {
            self.zoom_at_center(false)
        } else if c == 'n' {
            self.new_note()
        } else if c == 'd' || c == 'x' {
            self.delete_selected()
        } else if c == 'e' {
            self.begin_edit()
        } else if c == 't' {
            self.cycle_theme(true)
        } else if c == 'T' {
            self.cycle_theme(false)
        } else if c == 'c' {
            self.cycle_note_color(true)
        } else if c == 'C' {
            self.cycle_note_color(false)
        } else if c == 'w' {
            self.begin_new_world()
        } else if c == 'W' {
            self.begin_delete_world()
        } else if c == 'y' {
            self.yank_note()
        } else if '1' <= c && c <= '9' {
            self.switch_world(c as usize - '1' as usize)
        } else if c == 'H' {
            self.select_toward(Step::Left)
        } else if c == 'L' {
            self.select_toward(Step::Right)
        } else if c == 'K' {
            self.select_toward(Step::Up)
        } else if c == 'J' {
            self.select_toward(Step::Down)
        }
    }
}

/// The world after this one, round the end.
proof fn lemma_next_world(active: int, n: int)
    requires
        0 <= active < n,
    ensures
        (active + 1) % n == (if active == n - 1 {
            0
        } else {
            active + 1
        }),
        0int % n == 0,
        active < n - 1 ==> (active + 1) % n == active + 1,
{
    if active == n - 1 {
        vstd::arithmetic::div_mod::lemma_mod_self_0(n);
    } else {
        vstd::arithmetic::div_mod::lemma_small_mod((active + 1) as nat, n as nat);
    }
    vstd::arithmetic::div_mod::lemma_small_mod(0, n as nat);
}

/// The world before this one, round the end.
proof fn lemma_previous_world(active: int, n: int)
    requires
        0 <= active < n,
    ensures
        (active + n - 1) % n == (if active == 0 {
            n - 1
        } else {
            active - 1
        }),
        (n - 1) % n == n - 1,
        active > 0 ==> (active - 1) % n == active - 1,
{
    vstd::arithmetic::div_mod::lemma_small_mod((n - 1) as nat, n as nat);
    if active > 0 {
        vstd::arithmetic::div_mod::lemma_small_mod((active - 1) as nat, n as nat);
        vstd::arithmetic::div_mod::lemma_mod_add_multiples_vanish(active - 1, n);
    }
}

} // verus!

//! Naming and deleting worlds: the two questions the app asks.

use super::{cat2, cat3, App, Prompt};
use crate::input::{KeyCode, KeyEvent};
use crate::model::{boards_view, Board, BoardView};
use crate::state::{
    board_within, clamp, first_line, name_error, pin_limit, AppState, Mode, PromptKind,
    BOARD_NAME_MAX, MAX_WORLDS,
};
use crate::text::{
    chars_of, lines, lines_of, push_all, push_decimal, push_text, same_str, string_of, sub_vec,
    trimmed,
};
use vstd::prelude::*;

verus! {

broadcast use crate::text::group_strs;

/// A world is a directory, so its name has to survive being one.
pub fn validate_board_name(name: &str) -> (out: Result<(), String>)
    ensures
        match out {
            Ok(_) => name_error(name@) is None,
            Err(why) => name_error(name@) == Some(why@),
        },
{
    let chars = chars_of(name);
    if chars.len() == 0 {
        return Err("give it a name".to_owned());
    }
    if chars[0] == '.' {
        return Err("cannot start with a dot".to_owned());
    }
    let mut i: usize = 0;
    while i < chars.len()
        invariant
            i <= chars@.len(),
            chars@ == name@,
            chars@.len() > 0,
            chars@[0] != '.',
            forall|k: int| 0 <= k < i ==> chars@[k] != '/' && chars@[k] != '\\',
        decreases chars@.len() - i,
    {
        if chars[i] == '/' || chars[i] == '\\' {
            proof {
                assert(name@.contains(chars@[i as int]));
            }
            return Err("no slashes - a world is one directory".to_owned());
        }
        i += 1;
    }
    if chars.len() > BOARD_NAME_MAX {
        return Err("keep it under 40 characters".to_owned());
    }
    Ok(())
}

/// The first line of a text.
fn line_of(text: &str) -> (out: Vec<char>)
    ensures
        out@ == first_line(text@),
{
    let all = lines(&chars_of(text));
    let mut out: Vec<char> = Vec::new();
    if all.len() > 0 {
        push_all(&mut out, &all[0]);
        proof {
            assert(out@ =~= lines_of(text@)[0]);
        }
    } else {
        proof {
            assert(out@ =~= Seq::<char>::empty());
        }
    }
    out
}

impl App {
    fn open_prompt(&mut self, kind: PromptKind, title: &'static str, hint: &'static str)
        requires
            old(self)@.safe(),
            old(self)@.mode != Mode::Edit,
        ensures
            final(self)@ == old(self)@.with_prompt(kind, title@, hint@),
            final(self)@.safe(),
    {
        let ghost start = self@;
        self.prompt = Some(Prompt { kind, title, hint, input: String::new(), error: None });
        self.mode = Mode::Prompt;
        proof {
            assert(self.prompt->0@.input =~= Seq::<char>::empty());
            assert(self@ =~= start.with_prompt(kind, title@, hint@));
        }
    }

    /// Open the prompt that names a new world. A note being edited is written
    /// back first.
    pub(super) fn begin_new_world(&mut self)
        requires
            old(self)@.safe(),
            old(self)@.revision < u64::MAX,
        ensures
            final(self)@ == old(self)@.begin_new_world(),
            final(self)@.safe(),
            final(self)@.revision <= old(self)@.revision + 1,
    {
        reveal(AppState::begin_new_world);
        if self.refuse_if_read_only() {
            return;
        }
        // Refused here rather than on confirm: being asked for a name and only
        // then told the world cannot exist is the wrong order to find out.
        if self.boards.len() >= MAX_WORLDS {
            self.status = Some("9 worlds is the limit".to_owned());
            return;
        }
        if self.mode == Mode::Edit {
            self.commit_edit();
        }
        self.open_prompt(PromptKind::NewWorld, "new world", "enter to create · esc to cancel");
    }

    /// Delete the world you are on: outright if it is empty, on a typed
    /// confirmation if there are pins to lose.
    ///
    /// Both refusals happen here rather than on confirm, for the reason
    /// [`Self::begin_new_world`] gives.
    ///
    /// The last world stays: everything assumes there is a board to be on.
    pub(super) fn begin_delete_world(&mut self)
        requires
            old(self)@.safe(),
            old(self)@.mode == Mode::Nav,
            old(self)@.revision < u64::MAX,
        ensures
            final(self)@ == old(self)@.begin_delete_world(),
            final(self)@.safe(),
            final(self)@.revision <= old(self)@.revision + 1,
    {
        reveal(AppState::begin_delete_world);
        if self.refuse_if_read_only() {
            return;
        }
        if self.boards.len() == 1 {
            self.status = Some(cat2(&self.active_board().name, " is the last world"));
            return;
        }
        // Nothing to lose, nothing to ask about.
        if self.active_board().notes.len() == 0 {
            self.delete_active_world();
            return;
        }
        self.open_prompt(
            PromptKind::DeleteWorld,
            "delete world",
            "type its name to confirm · esc to cancel",
        );
    }

    /// Drop the active world and queue its directory for the runner.
    ///
    /// The pins go with it: moving them out first is what dragging onto another
    /// world's tab is for. Undo restores both, because the snapshot taken before
    /// the event holds the whole workspace.
    fn delete_active_world(&mut self)
        requires
            old(self)@.safe(),
            old(self)@.boards.len() >= 2,
            old(self)@.revision < u64::MAX,
        ensures
            final(self)@ == old(self)@.delete_active_world(),
            final(self)@.safe(),
            final(self)@.revision <= old(self)@.revision + 1,
    {
        reveal(AppState::delete_active_world);
        let ghost start = self@;
        let ghost before = self.boards@;
        let gone = self.boards.remove(self.active);
        proof {
            assert(boards_view(self.boards@) =~= boards_view(before).remove(self.active as int));
            assert forall|i: int| 0 <= i < self@.boards.len() implies board_within(
                #[trigger] self@.boards[i],
                3 * pin_limit(),
            ) by {
                if i < start.active {
                    assert(self@.boards[i] == start.boards[i]);
                } else {
                    assert(self@.boards[i] == start.boards[i + 1]);
                }
            }
        }
        self.pending_deletes.push(gone.name.clone());
        // The tab that slid into this slot is the one to show; deleting the
        // last tab falls back one.
        if self.active >= self.boards.len() {
            self.active = self.boards.len() - 1;
        }
        self.selected = None;
        self.centered = false;  // re-center on whatever board we landed on
        self.revision += 1;
        self.status = Some(cat2("deleted ", &gone.name));
        proof {
            assert(self@ =~= start.delete_active_world());
        }
    }

    /// Make a world, or say why not.
    ///
    /// Creating a world does not switch to it. Naming one is something you do
    /// *while* working on another board, and being carried off the board you
    /// were looking at is a worse surprise than having to press its number.
    /// A name already on a tab is refused for the same reason: it would be the
    /// one way `w` could still move you.
    fn create_world(&mut self, name: &str) -> (out: Result<(), String>)
        requires
            old(self)@.safe(),
            old(self)@.revision < u64::MAX,
        ensures
            match out {
                Ok(_) => old(self)@.create_error(name@) is None && final(self)@
                    == old(self)@.create_world(name@),
                Err(why) => old(self)@.create_error(name@) == Some(why@) && final(self)@
                    == old(self)@,
            },
            final(self)@.safe(),
    {
        let ghost start = self@;
        if let Err(why) = validate_board_name(name) {
            return Err(why);
        }
        // Two directories cannot share a name anyway.
        let mut i: usize = 0;
        while i < self.boards.len()
            invariant
                i <= self.boards@.len(),
                self@ == start,
                forall|k: int| 0 <= k < i ==> (#[trigger] start.boards[k]).name != name@,
                name_error(name@) is None,
                start.safe(),
            decreases self.boards@.len() - i,
        {
            assert(start.boards[i as int] == self.boards@[i as int]@);
            if same_str(&self.boards[i].name, name) {
                return Err(cat2(name, " already exists"));
            }
            i += 1;
        }
        let ghost before = self.boards@;
        let fresh = Board::new(name);
        proof {
            assert(fresh@ =~= BoardView { name: name@, notes: Seq::empty() });
        }
        self.boards.push(fresh);
        proof {
            assert(boards_view(self.boards@) =~= boards_view(before).push(fresh@));
            assert forall|k: int| 0 <= k < self@.boards.len() implies board_within(
                #[trigger] self@.boards[k],
                3 * pin_limit(),
            ) by {
                if k < start.boards.len() {
                    assert(self@.boards[k] == start.boards[k]);
                }
            }
        }
        self.revision += 1;
        // Staying put means a growing tab strip is the only sign anything
        // happened, so say what was made and which key opens it.
        let mut message = chars_of("created ");
        push_text(&mut message, name);
        push_text(&mut message, " · press ");
        push_decimal(&mut message, self.boards.len() as u64);
        push_text(&mut message, " to open it");
        self.status = Some(string_of(&message));
        proof {
            assert(self@ =~= start.create_world(name@));
        }
        Ok(())
    }

    /// Delete the world you are on, if what was typed is its name.
    ///
    /// Its name rather than a yes/no: the pins on a world are worth more than
    /// one keystroke of protection, and a name you have to read off the tab
    /// strip to type is a name you have looked at.
    fn confirm_delete_world(&mut self, answer: &str) -> (out: Result<(), String>)
        requires
            old(self)@.safe(),
            old(self)@.boards.len() >= 2,
            old(self)@.revision < u64::MAX,
        ensures
            match out {
                Ok(_) => answer@ == old(self)@.board().name && final(self)@
                    == old(self)@.delete_active_world(),
                Err(why) => answer@ != old(self)@.board().name && why@ == "type "@
                    + old(self)@.board().name + " to delete it"@ && final(self)@ == old(self)@,
            },
            final(self)@.safe(),
    {
        if !same_str(answer, &self.active_board().name) {
            return Err(cat3("type ", &self.active_board().name, " to delete it"));
        }
        self.delete_active_world();
        Ok(())
    }

    /// Act on the prompt's answer. A refusal keeps the prompt open with the
    /// typed text intact and the reason shown - retyping a name because of a
    /// stray slash would be its own small insult.
    fn confirm_prompt(&mut self)
        requires
            old(self)@.safe(),
            old(self)@.mode == Mode::Prompt,
            old(self)@.prompt matches Some(p) ==> p.kind == PromptKind::DeleteWorld
                ==> old(self)@.boards.len() >= 2,
            old(self)@.revision < u64::MAX,
        ensures
            final(self)@ == old(self)@.confirm_prompt(),
            final(self)@.safe(),
            final(self)@.revision <= old(self)@.revision + 1,
    {
        reveal(AppState::confirm_prompt);
        reveal(AppState::delete_active_world);
        let ghost start = self@;
        let (kind, answer) = match &self.prompt {
            Some(p) => (p.kind, string_of(&trimmed(&chars_of(&p.input)))),
            None => return,
        };
        let outcome = match kind {
            PromptKind::NewWorld => self.create_world(&answer),
            PromptKind::DeleteWorld => self.confirm_delete_world(&answer),
        };
        if let Err(why) = outcome {
            if let Some(p) = self.prompt.take() {
                self.prompt = Some(
                    Prompt {
                        kind: p.kind,
                        title: p.title,
                        hint: p.hint,
                        input: p.input,
                        error: Some(why),
                    },
                );
            }
            proof {
                assert(self@ =~= start.confirm_prompt());
            }
            return;
        }
        self.prompt = None;
        self.mode = Mode::Nav;
        proof {
            assert(self@ =~= start.confirm_prompt());
        }
    }

    /// Change what has been typed so far.
    fn set_input(&mut self, input: String)
        requires
            old(self)@.safe(),
            old(self)@.prompt is Some,
        ensures
            final(self)@ == old(self)@.with_input(old(self)@.prompt->0, input@),
            final(self)@.safe(),
    {
        let ghost start = self@;
        if let Some(p) = self.prompt.take() {
            self.prompt = Some(
                Prompt { kind: p.kind, title: p.title, hint: p.hint, input, error: None },
            );
        }
        proof {
            assert(self@ =~= start.with_input(start.prompt->0, input@));
        }
    }
}

impl App {
    pub(super) fn prompt_key(&mut self, key: KeyEvent)
        requires
            old(self)@.safe(),
            old(self)@.mode == Mode::Prompt,
            old(self)@.prompt matches Some(p) ==> p.kind == PromptKind::DeleteWorld
                ==> old(self)@.boards.len() >= 2,
            old(self)@.revision < u64::MAX,
        ensures
            final(self)@ == old(self)@.prompt_key(key),
            final(self)@.safe(),
            final(self)@.revision <= old(self)@.revision + 1,
    {
        reveal(AppState::prompt_key);
        let ctrl = key.modifiers.control;
        let alt = key.modifiers.alt;
        let mut input = match &self.prompt {
            Some(p) => chars_of(&p.input),
            None => return,
        };
        match key.code {
            KeyCode::Esc => {
                self.prompt = None;
                self.mode = Mode::Nav;
            },
            KeyCode::Enter => self.confirm_prompt(),
            KeyCode::Backspace => {
                if ctrl || alt {
                    input.clear();
                } else {
                    let _ = input.pop();
                }
                proof {
                    let was = self@.prompt->0.input;
                    assert(input@ =~= (if ctrl || alt || was.len() == 0 {
                        Seq::empty()
                    } else {
                        was.drop_last()
                    }));
                }
                self.set_input(string_of(&input));
            },
            KeyCode::Char(c) => {
                if c == 'u' && ctrl {
                    input.clear();
                    proof {
                        assert(input@ =~= Seq::<char>::empty());
                    }
                } else if ctrl || alt {
                    // As in the note editor, a modified key that got this far is
                    // a chord we do not bind, never text.
                    return;
                } else if input.len() < BOARD_NAME_MAX {
                    input.push(c);
                }
                self.set_input(string_of(&input));
            },
            _ => {},
        }
    }

    pub(super) fn paste(&mut self, text: &str)
        requires
            old(self)@.safe(),
        ensures
            final(self)@ == old(self)@.paste(text@),
            final(self)@.safe(),
            final(self)@.revision == old(self)@.revision,
    {
        reveal(AppState::paste);
        let ghost start = self@;
        self.status = None;
        if self.help {
            return;
        }
        match self.mode {
            Mode::Edit => {
                if let Some(e) = self.editor.take() {
                    let mut editor = e;
                    editor.insert_str(text);
                    self.editor = Some(editor);
                }
                proof {
                    assert(self@ =~= start.paste(text@));
                }
            },
            Mode::Prompt => {
                // A world name is a directory name: one line, bounded.
                let mut input = match &self.prompt {
                    Some(p) => chars_of(&p.input),
                    None => return,
                };
                let line = line_of(text);
                let room: usize = if input.len() < BOARD_NAME_MAX {
                    BOARD_NAME_MAX - input.len()
                } else {
                    0
                };
                let fits: usize = if line.len() < room {
                    line.len()
                } else {
                    room
                };
                let part = sub_vec(&line, 0, fits);
                push_all(&mut input, &part);
                self.set_input(string_of(&input));
                proof {
                    let p = start.prompt->0;
                    let want = clamp(
                        BOARD_NAME_MAX - p.input.len(),
                        0,
                        first_line(text@).len() as int,
                    );
                    assert(part@ =~= first_line(text@).take(want));
                    assert(self@ =~= start.paste(text@));
                }
            },
            Mode::Nav => {},
        }
    }
}

} // verus!

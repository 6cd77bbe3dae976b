//! The storage seam.
//!
//! Every pinz tool talks to its data through [`Store`], never to the filesystem
//! or a network directly. Keeping the trait free of UI and transport details is
//! what lets several front ends and a future backend share one core.

use crate::geometry::GRAIN;
use crate::model::{boards_view, copy_boards, Board, BoardView, Color, Note, NoteView};
use crate::text::{push_text, same_str, string_of, strs};
use vstd::prelude::*;

verus! {

/// Anything that can go wrong reaching the store.
#[derive(Debug)]
pub enum StoreError {
    /// A named board or note was not found.
    NotFound(String),
    /// The backing store (files, network, ...) failed. Message is human-facing.
    Backend(String),
}

impl StoreError {
    /// What to tell the user.
    pub open spec fn says(self) -> Seq<char> {
        match self {
            StoreError::NotFound(what) => "not found: "@ + what@,
            StoreError::Backend(msg) => "store backend error: "@ + msg@,
        }
    }

    /// What to tell the user.
    pub fn message(&self) -> (out: String)
        ensures
            out@ == self.says(),
    {
        let mut out: Vec<char> = Vec::new();
        match self {
            StoreError::NotFound(what) => {
                push_text(&mut out, "not found: ");
                push_text(&mut out, what);
            },
            StoreError::Backend(msg) => {
                push_text(&mut out, "store backend error: ");
                push_text(&mut out, msg);
            },
        }
        proof {
            assert(out@ =~= self.says());
        }
        string_of(&out)
    }
}

/// What a save did, beyond succeeding.
#[derive(Debug, PartialEq, Eq)]
pub struct SaveReport {
    /// Pins left alone because they changed underneath the session since they
    /// were loaded.
    pub skipped: Vec<String>,
}

impl Default for SaveReport {
    fn default() -> (r: SaveReport)
        ensures
            r.skipped@.len() == 0,
    {
        SaveReport { skipped: Vec::new() }
    }
}

/// A [`StoreError`] as a value.
pub enum Trouble {
    NotFound(Seq<char>),
    Backend(Seq<char>),
}

impl View for StoreError {
    type V = Trouble;

    open spec fn view(&self) -> Trouble {
        match self {
            StoreError::NotFound(what) => Trouble::NotFound(what@),
            StoreError::Backend(msg) => Trouble::Backend(msg@),
        }
    }
}

/// What a store answers.
pub enum StoreAnswer {
    /// It was done.
    Done,
    /// The boards are kept, but for these pins.
    Kept(Seq<Seq<char>>),
    /// It was not done.
    Failed(Trouble),
}

/// What an asking that has nothing to report came to.
pub open spec fn answer(out: Result<(), StoreError>) -> StoreAnswer {
    match out {
        Ok(_) => StoreAnswer::Done,
        Err(e) => StoreAnswer::Failed(e@),
    }
}

/// What a save came to.
pub open spec fn save_answer(out: Result<SaveReport, StoreError>) -> StoreAnswer {
    match out {
        Ok(report) => StoreAnswer::Kept(strs(report.skipped@)),
        Err(e) => StoreAnswer::Failed(e@),
    }
}

/// Something a store is asked to do.
pub enum StoreCall {
    /// Remove the board of a name.
    Drop(Seq<char>),
    /// Keep these boards.
    Save(Seq<BoardView>),
    /// Remember that the world of a name is open.
    OpenWorld(Seq<char>),
}

/// Load and persist the full set of boards.
///
/// Deliberately coarse - whole-workspace load/save. It is widened only when a
/// real backend needs it, so the trait does not grow speculative methods no
/// caller uses yet.
pub trait Store {
    /// Whether the store keeps exactly what it is handed and never fails. One
    /// that writes to a disk or a network does neither.
    open spec fn faithful() -> bool {
        false
    }

    /// What a faithful store keeps.
    open spec fn kept(&self) -> Seq<BoardView> {
        Seq::empty()
    }

    /// Whether the store keeps account of what it is asked. One that keeps none
    /// is asked the same: no caller can tell the two apart.
    open spec fn accounts() -> bool {
        false
    }

    /// What a store that keeps account has been asked so far, in order.
    open spec fn asked(&self) -> Seq<StoreCall> {
        Seq::empty()
    }

    /// What a store that keeps account has answered so far: to everything it was
    /// asked, in the same order.
    open spec fn answered(&self) -> Seq<StoreAnswer> {
        Seq::empty()
    }

    fn load(&mut self) -> (out: Result<Vec<Board>, StoreError>)
        ensures
            Self::faithful() ==> out is Ok && boards_view(out->Ok_0@) == old(self).kept()
                && final(self).kept() == old(self).kept(),
            Self::accounts() ==> final(self).asked() == old(self).asked()
                && final(self).answered() == old(self).answered(),
    ;

    fn save(&mut self, boards: &[Board]) -> (out: Result<SaveReport, StoreError>)
        ensures
            Self::faithful() ==> out is Ok && out->Ok_0.skipped@.len() == 0 && final(self).kept()
                == boards_view(boards@),
            Self::accounts() ==> final(self).asked() == old(self).asked().push(
                StoreCall::Save(boards_view(boards@)),
            ) && final(self).answered() == old(self).answered().push(save_answer(out)),
    ;

    /// Remove a board and everything on it.
    ///
    /// Separate from `save` because `save` writes the boards it is handed and
    /// cannot tell a board that was deleted from one that was never there -
    /// another machine's world, arrived by sync, would look the same. Deleting
    /// is a thing you say, not something inferred from an absence.
    fn delete_board(&mut self, name: &str) -> (out: Result<(), StoreError>)
        ensures
            Self::faithful() ==> final(self).kept() == without_board(old(self).kept(), name@)
                && match out {
                Ok(_) => crate::state::named_world(old(self).kept(), name@),
                Err(StoreError::NotFound(what)) => what@ == name@ && !crate::state::named_world(
                    old(self).kept(),
                    name@,
                ),
                Err(StoreError::Backend(_)) => false,
            },
            Self::accounts() ==> final(self).asked() == old(self).asked().push(
                StoreCall::Drop(name@),
            ) && final(self).answered() == old(self).answered().push(answer(out)),
    ;

    /// The world that was open when the last session closed. A store that keeps
    /// no such thing has none.
    fn load_last_world(&mut self) -> (out: Option<String>)
        ensures
            Self::faithful() ==> final(self).kept() == old(self).kept(),
            Self::accounts() ==> final(self).asked() == old(self).asked()
                && final(self).answered() == old(self).answered(),
    {
        None
    }

    /// Remember the world that is open.
    fn save_last_world(&mut self, name: &str) -> (out: Result<(), StoreError>)
        ensures
            Self::faithful() ==> out is Ok && final(self).kept() == old(self).kept(),
            Self::accounts() ==> final(self).asked() == old(self).asked().push(
                StoreCall::OpenWorld(name@),
            ) && final(self).answered() == old(self).answered().push(answer(out)),
    ;
}

/// The boards without the ones that have a name.
pub open spec fn without_board(boards: Seq<BoardView>, name: Seq<char>) -> Seq<BoardView>
    decreases boards.len(),
{
    if boards.len() == 0 {
        Seq::empty()
    } else if boards.last().name == name {
        without_board(boards.drop_last(), name)
    } else {
        without_board(boards.drop_last(), name).push(boards.last())
    }
}

/// In-memory store, optionally seeded with demo content. Enough to bring a
/// renderer up and to test against; not persistent.
pub struct MemoryStore {
    boards: Vec<Board>,
    /// What it has been asked.
    asked: Ghost<Seq<StoreCall>>,
    /// What it answered.
    answered: Ghost<Seq<StoreAnswer>>,
}

impl View for MemoryStore {
    type V = Seq<BoardView>;

    closed spec fn view(&self) -> Seq<BoardView> {
        boards_view(self.boards@)
    }
}

/// A pin of the demo boards, placed in world units.
pub open spec fn seed_note(
    id: int,
    x: int,
    y: int,
    color: Color,
    title: Seq<char>,
    body: Seq<char>,
) -> NoteView {
    NoteView {
        id: id as u64,
        title,
        body,
        x: (x * 7140) as i128,
        y: (y * 7140) as i128,
        z: id as u32,
        color,
    }
}

/// The demo boards. Deliberately generic - they double as a tutorial.
pub open spec fn seed() -> Seq<BoardView> {
    seq![
        BoardView {
            name: "ideas"@,
            notes: seq![
                seed_note(1, 120, 110, Color::Yellow, "welcome"@, "Drag a pin to move it. Press e to edit, n for a new one, q to quit."@),
                seed_note(2, 470, 150, Color::Peach, "zoom"@, "Scroll, or + and -, to step through the four levels of detail."@),
                seed_note(3, 300, 430, Color::Mauve, "colors"@, "Press c to cycle a pin through the palette, C to go back."@),
                seed_note(4, 720, 380, Color::Green, "worlds"@, "Tab switches boards. A board is just a directory of pins."@),
            ],
        },
        BoardView {
            name: "sketches"@,
            notes: seq![
                seed_note(5, 140, 130, Color::Blue, "stacking"@, "Drop pins on each other; whichever you grab comes to the front."@),
                seed_note(6, 500, 200, Color::Teal, "long lines"@, "A body wider than the pin wraps to the note, and keeps the line breaks you typed."@),
                seed_note(7, 360, 470, Color::Pink, "the edges"@, "Pan a pin off the screen: it gets cut, never re-flowed."@),
            ],
        },
        BoardView {
            name: "todo"@,
            notes: seq![
                seed_note(8, 150, 140, Color::Red, "one thing"@, "The first line is the title. Everything after it is the body."@),
                seed_note(9, 520, 180, Color::Green, "and another"@, "Pins are markdown files, one per pin, in their own git repo."@),
            ],
        },
    ]
}

/// A pin of the demo boards.
fn seeded_note(id: u64, x: i128, y: i128, color: Color, title: &str, body: &str) -> (n: Note)
    requires
        id <= 9,
        0 <= x <= 1000,
        0 <= y <= 1000,
    ensures
        n@ == seed_note(id as int, x as int, y as int, color, title@, body@),
{
    Note {
        id,
        title: title.to_owned(),
        body: body.to_owned(),
        x: x * GRAIN,
        y: y * GRAIN,
        z: id as u32,
        color,
    }
}

/// Boards for tests and screenshots.
pub fn seed_boards() -> (out: Vec<Board>)
    ensures
        boards_view(out@) == seed(),
{
    let ideas = vec![
        seeded_note(1, 120, 110, Color::Yellow, "welcome", "Drag a pin to move it. Press e to edit, n for a new one, q to quit."),
        seeded_note(2, 470, 150, Color::Peach, "zoom", "Scroll, or + and -, to step through the four levels of detail."),
        seeded_note(3, 300, 430, Color::Mauve, "colors", "Press c to cycle a pin through the palette, C to go back."),
        seeded_note(4, 720, 380, Color::Green, "worlds", "Tab switches boards. A board is just a directory of pins."),
    ];
    let sketches = vec![
        seeded_note(5, 140, 130, Color::Blue, "stacking", "Drop pins on each other; whichever you grab comes to the front."),
        seeded_note(6, 500, 200, Color::Teal, "long lines", "A body wider than the pin wraps to the note, and keeps the line breaks you typed."),
        seeded_note(7, 360, 470, Color::Pink, "the edges", "Pan a pin off the screen: it gets cut, never re-flowed."),
    ];
    let todo = vec![
        seeded_note(8, 150, 140, Color::Red, "one thing", "The first line is the title. Everything after it is the body."),
        seeded_note(9, 520, 180, Color::Green, "and another", "Pins are markdown files, one per pin, in their own git repo."),
    ];
    let out = vec![
        Board { name: "ideas".to_owned(), notes: ideas },
        Board { name: "sketches".to_owned(), notes: sketches },
        Board { name: "todo".to_owned(), notes: todo },
    ];
    proof {
        let want = seed();
        assert(out@[0]@.notes =~= want[0].notes);
        assert(out@[1]@.notes =~= want[1].notes);
        assert(out@[2]@.notes =~= want[2].notes);
        assert(boards_view(out@) =~= want);
    }
    out
}

impl MemoryStore {
    pub fn empty() -> (s: Self)
        ensures
            s@ == Seq::<BoardView>::empty(),
    {
        let s = MemoryStore { boards: Vec::new(), asked: Ghost(Seq::empty()), answered: Ghost(Seq::empty()) };
        proof {
            assert(s@ =~= Seq::<BoardView>::empty());
        }
        s
    }

    /// A store carrying the demo boards.
    ///
    /// For tests and screenshots only: the boards a renderer shows must come
    /// from someone's real pin repo, never from content baked into the program.
    pub fn seeded() -> (s: Self)
        ensures
            s@ == seed(),
    {
        MemoryStore {
            boards: seed_boards(),
            asked: Ghost(Seq::empty()),
            answered: Ghost(Seq::empty()),
        }
    }
}

impl Store for MemoryStore {
    open spec fn faithful() -> bool {
        true
    }

    open spec fn kept(&self) -> Seq<BoardView> {
        self@
    }

    open spec fn accounts() -> bool {
        true
    }

    closed spec fn asked(&self) -> Seq<StoreCall> {
        self.asked@
    }

    closed spec fn answered(&self) -> Seq<StoreAnswer> {
        self.answered@
    }

    fn load(&mut self) -> (out: Result<Vec<Board>, StoreError>)
        ensures
            final(self)@ == old(self)@,
            out matches Ok(boards) && boards_view(boards@) == old(self)@,
    {
        Ok(copy_boards(&self.boards))
    }

    fn save(&mut self, boards: &[Board]) -> (out: Result<SaveReport, StoreError>)
        ensures
            final(self)@ == boards_view(boards@),
            out matches Ok(report) && report.skipped@.len() == 0,
    {
        self.boards = copy_boards(boards);
        let out: Result<SaveReport, StoreError> = Ok(SaveReport { skipped: Vec::new() });
        self.asked = Ghost(self.asked@.push(StoreCall::Save(boards_view(boards@))));
        self.answered = Ghost(self.answered@.push(save_answer(out)));
        out
    }

    fn delete_board(&mut self, name: &str) -> (out: Result<(), StoreError>)
        ensures
            final(self)@ == without_board(old(self)@, name@),
            match out {
                Ok(_) => crate::state::named_world(old(self)@, name@),
                Err(StoreError::NotFound(what)) => what@ == name@ && !crate::state::named_world(
                    old(self)@,
                    name@,
                ),
                Err(StoreError::Backend(_)) => false,
            },
    {
        let ghost all = self@;
        let mut kept: Vec<Board> = Vec::new();
        let mut i: usize = 0;
        let mut found = false;
        proof {
            assert(boards_view(kept@) =~= Seq::<BoardView>::empty());
        }
        while i < self.boards.len()
            invariant
                i <= self.boards@.len(),
                all == boards_view(self.boards@),
                boards_view(kept@) == without_board(all.take(i as int), name@),
                found == (exists|k: int| 0 <= k < i && (#[trigger] all[k]).name == name@),
            decreases self.boards@.len() - i,
        {
            let b = &self.boards[i];
            proof {
                assert(all[i as int] == b@);
                assert(all.take(i + 1).drop_last() =~= all.take(i as int));
            }
            if same_str(&b.name, name) {
                found = true;
            } else {
                let ghost before = kept@;
                kept.push(b.clone());
                proof {
                    assert(boards_view(kept@) =~= boards_view(before).push(b@));
                }
            }
            i += 1;
        }
        proof {
            assert(all.take(all.len() as int) =~= all);
        }
        self.boards = kept;
        let out: Result<(), StoreError> = if found {
            Ok(())
        } else {
            Err(StoreError::NotFound(name.to_owned()))
        };
        self.asked = Ghost(self.asked@.push(StoreCall::Drop(name@)));
        self.answered = Ghost(self.answered@.push(answer(out)));
        out
    }

    /// What is kept in memory is gone when a session closes, the open world too.
    fn load_last_world(&mut self) -> (out: Option<String>)
        ensures
            final(self)@ == old(self)@,
            out is None,
    {
        None
    }

    fn save_last_world(&mut self, name: &str) -> (out: Result<(), StoreError>)
        ensures
            final(self)@ == old(self)@,
            out is Ok,
    {
        self.asked = Ghost(self.asked@.push(StoreCall::OpenWorld(name@)));
        self.answered = Ghost(self.answered@.push(StoreAnswer::Done));
        Ok(())
    }
}

// ---- laws ----

/// Deleting a board leaves none of that name, and leaves the store as it was
/// when there was none.
pub proof fn law_deleted_boards_are_gone(boards: Seq<BoardView>, name: Seq<char>)
    ensures
        !crate::state::named_world(without_board(boards, name), name),
        !crate::state::named_world(boards, name) ==> without_board(boards, name) == boards,
    decreases boards.len(),
{
    if boards.len() > 0 {
        let front = boards.drop_last();
        law_deleted_boards_are_gone(front, name);
        let left = without_board(boards, name);
        if crate::state::named_world(left, name) {
            let i = choose|i: int| 0 <= i < left.len() && (#[trigger] left[i]).name == name;
            if i < without_board(front, name).len() {
                assert(without_board(front, name)[i].name == name);
            }
        }
        if !crate::state::named_world(boards, name) {
            assert forall|i: int| 0 <= i < front.len() implies (#[trigger] front[i]).name != name by {
                assert(boards[i].name != name);
            }
            assert(boards[boards.len() - 1].name != name);
            assert(left =~= boards);
        }
    }
}

} // verus!

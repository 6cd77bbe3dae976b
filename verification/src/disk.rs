//! The pin directory as a value: which files are there, and what a change to
//! them would leave. A store plans against this; whoever owns the filesystem
//! carries the plan out.

use crate::text::{opt_str, same_str};
use vstd::prelude::*;

verus! {

/// A file in a board's directory.
#[derive(Debug)]
pub struct Stored {
    pub board: String,
    pub name: String,
    /// What it holds, if it could be read as text.
    pub text: Option<String>,
}

/// Files by board and name, each with what it holds.
pub open spec fn listing(files: Seq<Stored>) -> Map<(Seq<char>, Seq<char>), Option<Seq<char>>>
    decreases files.len(),
{
    if files.len() == 0 {
        Map::empty()
    } else {
        listing(files.drop_last()).insert(
            (files.last().board@, files.last().name@),
            opt_str(files.last().text),
        )
    }
}

/// The files under the pin directory, one directory per board.
#[derive(Debug)]
pub struct Disk {
    pub files: Vec<Stored>,
}

impl View for Disk {
    type V = Map<(Seq<char>, Seq<char>), Option<Seq<char>>>;

    open spec fn view(&self) -> Map<(Seq<char>, Seq<char>), Option<Seq<char>>> {
        listing(self.files@)
    }
}

/// One step of a plan.
#[derive(Debug)]
pub enum Change {
    /// Make sure a board's directory exists.
    MakeFolder { board: String },
    /// Remove a board's directory and everything in it.
    RemoveFolder { board: String },
    /// Write a file, whether or not it was there.
    Write { board: String, name: String, text: String },
    /// Remove a file. One that is already gone is no failure.
    Remove { board: String, name: String },
}

/// A [`Change`] as a value.
pub enum ChangeView {
    MakeFolder { board: Seq<char> },
    RemoveFolder { board: Seq<char> },
    Write { board: Seq<char>, name: Seq<char>, text: Seq<char> },
    Remove { board: Seq<char>, name: Seq<char> },
}

impl View for Change {
    type V = ChangeView;

    open spec fn view(&self) -> ChangeView {
        match self {
            Change::MakeFolder { board } => ChangeView::MakeFolder { board: board@ },
            Change::RemoveFolder { board } => ChangeView::RemoveFolder { board: board@ },
            Change::Write { board, name, text } => ChangeView::Write {
                board: board@,
                name: name@,
                text: text@,
            },
            Change::Remove { board, name } => ChangeView::Remove { board: board@, name: name@ },
        }
    }
}

/// A list of changes as a list of values.
pub open spec fn changes_view(changes: Seq<Change>) -> Seq<ChangeView> {
    Seq::new(changes.len(), |i: int| changes[i]@)
}

/// What a change leaves.
pub open spec fn done(
    disk: Map<(Seq<char>, Seq<char>), Option<Seq<char>>>,
    change: ChangeView,
) -> Map<(Seq<char>, Seq<char>), Option<Seq<char>>> {
    match change {
        ChangeView::MakeFolder { .. } => disk,
        ChangeView::RemoveFolder { board } => disk.restrict(
            Set::new(|key: (Seq<char>, Seq<char>)| key.0 != board),
        ),
        ChangeView::Write { board, name, text } => disk.insert((board, name), Some(text)),
        ChangeView::Remove { board, name } => disk.remove((board, name)),
    }
}

/// What a plan leaves, its changes made in order.
pub open spec fn all_done(
    disk: Map<(Seq<char>, Seq<char>), Option<Seq<char>>>,
    changes: Seq<ChangeView>,
) -> Map<(Seq<char>, Seq<char>), Option<Seq<char>>>
    decreases changes.len(),
{
    if changes.len() == 0 {
        disk
    } else {
        done(all_done(disk, changes.drop_last()), changes.last())
    }
}

impl Disk {
    pub fn new() -> (d: Disk)
        ensures
            d@ == Map::<(Seq<char>, Seq<char>), Option<Seq<char>>>::empty(),
    {
        Disk { files: Vec::new() }
    }

    /// Note a file that is there.
    pub fn add_file(&mut self, board: String, name: String, text: Option<String>)
        ensures
            final(self)@ == old(self)@.insert((board@, name@), opt_str(text)),
            final(self).files@.len() == old(self).files@.len() + 1,
    {
        let ghost before = self.files@;
        self.files.push(Stored { board, name, text });
        proof {
            assert(self.files@.drop_last() =~= before);
        }
    }

    /// Where a file stands in the list, if it is there at all.
    pub fn find(&self, board: &str, name: &str) -> (at: Option<usize>)
        ensures
            at is Some <==> self@.contains_key((board@, name@)),
            at is Some ==> at->0 < self.files@.len() && opt_str(self.files@[at->0 as int].text)
                == self@[(board@, name@)],
    {
        let mut at: Option<usize> = None;
        let mut i: usize = 0;
        let ghost key = (board@, name@);
        proof {
            assert(self.files@.take(0) =~= Seq::empty());
        }
        while i < self.files.len()
            invariant
                i <= self.files@.len(),
                key == (board@, name@),
                at is Some <==> listing(self.files@.take(i as int)).contains_key(key),
                at is Some ==> at->0 < i && opt_str(self.files@[at->0 as int].text) == listing(
                    self.files@.take(i as int),
                )[key],
            decreases self.files@.len() - i,
        {
            if same_str(&self.files[i].board, board) && same_str(&self.files[i].name, name) {
                at = Some(i);
            }
            proof {
                assert(self.files@.take(i + 1).drop_last() =~= self.files@.take(i as int));
            }
            i += 1;
        }
        proof {
            assert(self.files@.take(i as int) =~= self.files@);
        }
        at
    }

    /// Carry out a change in this picture of the disk.
    pub fn apply(&mut self, change: &Change)
        ensures
            final(self)@ == done(old(self)@, change@),
    {
        match change {
            Change::MakeFolder { .. } => {},
            Change::RemoveFolder { board } => {
                self.keep_but(board, None);
            },
            Change::Write { board, name, text } => {
                self.add_file(board.clone(), name.clone(), Some(text.clone()));
            },
            Change::Remove { board, name } => {
                self.keep_but(board, Some(name));
            },
        }
    }

    /// Drop a board's files, or only the one of a given name.
    fn keep_but(&mut self, board: &str, name: Option<&str>)
        ensures
            name is Some ==> final(self)@ == old(self)@.remove((board@, name->0@)),
            name is None ==> final(self)@ == old(self)@.restrict(
                Set::new(|key: (Seq<char>, Seq<char>)| key.0 != board@),
            ),
    {
        let ghost stays = Set::new(
            |key: (Seq<char>, Seq<char>)|
                key.0 != board@ || (name is Some && key.1 != name->0@),
        );
        let mut kept: Vec<Stored> = Vec::new();
        let mut i: usize = 0;
        proof {
            assert(self.files@.take(0) =~= Seq::empty());
            assert(listing(kept@) =~= listing(self.files@.take(0)).restrict(stays));
        }
        while i < self.files.len()
            invariant
                i <= self.files@.len(),
                stays == Set::new(
                    |key: (Seq<char>, Seq<char>)|
                        key.0 != board@ || (name is Some && key.1 != name->0@),
                ),
                listing(kept@) == listing(self.files@.take(i as int)).restrict(stays),
            decreases self.files@.len() - i,
        {
            let ghost before = kept@;
            let f = &self.files[i];
            let ghost key = (f.board@, f.name@);
            let hit = same_str(&f.board, board) && match name {
                Some(name) => same_str(&f.name, name),
                None => true,
            };
            if !hit {
                kept.push(
                    Stored {
                        board: f.board.clone(),
                        name: f.name.clone(),
                        text: copy_text(&f.text),
                    },
                );
                proof {
                    assert(kept@.drop_last() =~= before);
                }
            }
            proof {
                assert(self.files@.take(i + 1).drop_last() =~= self.files@.take(i as int));
                assert(listing(kept@) =~= listing(self.files@.take(i + 1)).restrict(stays));
            }
            i += 1;
        }
        proof {
            assert(self.files@.take(i as int) =~= self.files@);
            if name is Some {
                assert(listing(self.files@).restrict(stays) =~= listing(self.files@).remove(
                    (board@, name->0@),
                ));
            } else {
                assert(stays =~= Set::new(|key: (Seq<char>, Seq<char>)| key.0 != board@));
            }
        }
        self.files = kept;
    }

    /// The same files once more.
    pub fn copy(&self) -> (d: Disk)
        ensures
            d@ == self@,
            d.files@.len() == self.files@.len(),
    {
        let mut files: Vec<Stored> = Vec::new();
        let mut i: usize = 0;
        proof {
            assert(self.files@.take(0) =~= Seq::empty());
        }
        while i < self.files.len()
            invariant
                i <= self.files@.len(),
                files@.len() == i,
                listing(files@) == listing(self.files@.take(i as int)),
            decreases self.files@.len() - i,
        {
            let ghost before = files@;
            let f = &self.files[i];
            files.push(
                Stored { board: f.board.clone(), name: f.name.clone(), text: copy_text(&f.text) },
            );
            proof {
                assert(files@.drop_last() =~= before);
                assert(self.files@.take(i + 1).drop_last() =~= self.files@.take(i as int));
            }
            i += 1;
        }
        proof {
            assert(self.files@.take(i as int) =~= self.files@);
        }
        Disk { files }
    }
}

/// A text once more, if there is one.
pub fn copy_text(text: &Option<String>) -> (out: Option<String>)
    ensures
        opt_str(out) == opt_str(*text),
{
    match text {
        Some(t) => Some(t.clone()),
        None => None,
    }
}

/// A disk holds no more files than its list is long.
pub proof fn lemma_listing_is_finite(files: Seq<Stored>)
    ensures
        listing(files).dom().finite(),
        listing(files).dom().len() <= files.len(),
    decreases files.len(),
{
    if files.len() > 0 {
        lemma_listing_is_finite(files.drop_last());
    }
}

} // verus!

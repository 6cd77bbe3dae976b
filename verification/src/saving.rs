//! Planning a save: which files to write, move and remove so that the pin
//! directory holds the boards as they are now.

use crate::disk::{copy_text, done, lemma_listing_is_finite, Change, ChangeView, Disk};
use crate::files::{held_view, marker, FileStore, Held, HeldView};
use crate::model::{boards_view, notes_view, Board, BoardView, Note, NoteView};
use crate::naming::{slug, slug_of};
use crate::pinfile::{render_pin, rendered};
use crate::store::SaveReport;
use crate::text::{
    chars_of, decimal, opt_str, push_all, push_text, push_wide, same_str, stands_at, string_of, strs,
    sub_vec,
};
use vstd::prelude::*;

verus! {

broadcast use crate::text::group_strs;

/// The held pin with an id, the latest where there are several.
pub open spec fn held_at(held: Seq<HeldView>, id: u64) -> Option<HeldView>
    decreases held.len(),
{
    if held.len() == 0 {
        None
    } else if held.last().id == id {
        Some(held.last())
    } else {
        held_at(held.drop_last(), id)
    }
}

fn find_held(held: &[Held], id: u64) -> (at: Option<usize>)
    ensures
        at is Some <==> held_at(held_view(held@), id) is Some,
        at is Some ==> at->0 < held@.len() && held_at(held_view(held@), id) == Some(
            held@[at->0 as int]@,
        ),
{
    let mut i: usize = held.len();
    proof {
        assert(held_view(held@).take(i as int) =~= held_view(held@));
    }
    while i > 0
        invariant
            i <= held@.len(),
            held_at(held_view(held@), id) == held_at(held_view(held@).take(i as int), id),
        decreases i,
    {
        proof {
            assert(held_view(held@).take(i as int).drop_last() =~= held_view(held@).take(i - 1));
        }
        if held[i - 1].id == id {
            return Some(i - 1);
        }
        i -= 1;
    }
    None
}

// ---- names for new pins ----

/// The `n`-th name to try for a new pin.
pub open spec fn candidate(stem: Seq<char>, n: nat) -> Seq<char> {
    if n <= 1 {
        stem + ".md"@
    } else {
        stem + "-"@ + decimal(n) + ".md"@
    }
}

/// Where a held pin's file is.
pub open spec fn key(h: HeldView) -> (Seq<char>, Seq<char>) {
    (h.board, h.name)
}

/// The places that are spoken for: where there is a file, and where a held pin
/// has its own, there or not.
pub open spec fn claims(
    disk: Map<(Seq<char>, Seq<char>), Option<Seq<char>>>,
    held: Seq<HeldView>,
) -> Set<(Seq<char>, Seq<char>)> {
    disk.dom().union(held.map_values(|h: HeldView| key(h)).to_set())
}

/// What it is to be spoken for. There is an end to such places.
pub proof fn lemma_claims(
    disk: Map<(Seq<char>, Seq<char>), Option<Seq<char>>>,
    held: Seq<HeldView>,
)
    requires
        disk.dom().finite(),
    ensures
        claims(disk, held).finite(),
        claims(disk, held).len() <= disk.dom().len() + held.len(),
        forall|k: (Seq<char>, Seq<char>)|
            disk.contains_key(k) ==> #[trigger] claims(disk, held).contains(k),
        forall|a: int|
            0 <= a < held.len() ==> claims(disk, held).contains(key(#[trigger] held[a])),
        forall|k: (Seq<char>, Seq<char>)| #[trigger]
            claims(disk, held).contains(k) && !disk.contains_key(k) ==> exists|a: int|
                0 <= a < held.len() && key(#[trigger] held[a]) == k,
{
    let keys = held.map_values(|h: HeldView| key(h));
    vstd::seq_lib::seq_to_set_is_finite(keys);
    keys.lemma_cardinality_of_set();
    vstd::set_lib::lemma_len_union(disk.dom(), keys.to_set());
    assert forall|a: int| 0 <= a < held.len() implies claims(disk, held).contains(
        key(#[trigger] held[a]),
    ) by {
        assert(keys[a] == key(held[a]));
    }
    assert forall|k: (Seq<char>, Seq<char>)| #[trigger]
        claims(disk, held).contains(k) && !disk.contains_key(k) implies exists|a: int|
        0 <= a < held.len() && key(#[trigger] held[a]) == k by {
        let a = choose|a: int| 0 <= a < keys.len() && keys[a] == k;
        assert(key(held[a]) == k);
    }
}

/// Whether the `n`-th name is the first that is free.
pub open spec fn first_free(
    taken: Set<(Seq<char>, Seq<char>)>,
    board: Seq<char>,
    stem: Seq<char>,
    n: nat,
) -> bool {
    &&& n >= 1
    &&& !taken.contains((board, candidate(stem, n)))
    &&& forall|k: nat| 1 <= k < n ==> taken.contains((board, #[trigger] candidate(stem, k)))
}

/// A fresh, unused name: the first that is free.
pub open spec fn fresh_name(
    taken: Set<(Seq<char>, Seq<char>)>,
    board: Seq<char>,
    stem: Seq<char>,
) -> Seq<char> {
    candidate(stem, choose|n: nat| #[trigger] first_free(taken, board, stem, n))
}

/// A file's name without its ending.
pub open spec fn stem_in(name: Seq<char>) -> Seq<char> {
    if name.len() >= 3 && name.skip(name.len() - 3) == ".md"@ {
        name.take(name.len() - 3)
    } else {
        name
    }
}

/// The name a held pin has on another board: its own, if that is free there.
pub open spec fn moved_name(
    taken: Set<(Seq<char>, Seq<char>)>,
    board: Seq<char>,
    name: Seq<char>,
) -> Seq<char> {
    if taken.contains((board, name)) {
        fresh_name(taken, board, stem_in(name))
    } else {
        name
    }
}

proof fn lemma_candidates_differ(stem: Seq<char>, a: nat, b: nat)
    requires
        1 <= a < b,
    ensures
        candidate(stem, a) != candidate(stem, b),
{
    reveal_strlit(".md");
    reveal_strlit("-");
    let x = candidate(stem, a);
    let y = candidate(stem, b);
    crate::text::law_decimal_round_trips(a);
    crate::text::law_decimal_round_trips(b);
    if x == y {
        if a == 1 {
            assert(x.len() == stem.len() + 3);
            assert(y.len() == stem.len() + 4 + decimal(b).len());
        } else {
            let n = stem.len() as int;
            assert(x.subrange(n + 1, x.len() - 3) =~= decimal(a));
            assert(y.subrange(n + 1, y.len() - 3) =~= decimal(b));
        }
    }
}

/// Some name among one more than are taken is free.
proof fn lemma_some_name_is_free(
    taken: Set<(Seq<char>, Seq<char>)>,
    board: Seq<char>,
    stem: Seq<char>,
    n: nat,
)
    requires
        taken.finite(),
        n > taken.len(),
    ensures
        !(forall|k: nat|
            1 <= k <= n ==> taken.contains((board, #[trigger] candidate(stem, k)))),
{
    let keys = Seq::new(n, |i: int| (board, candidate(stem, (i + 1) as nat)));
    assert forall|i: int, j: int| 0 <= i < keys.len() && 0 <= j < keys.len() && i != j implies keys[i]
        != keys[j] by {
        if i < j {
            lemma_candidates_differ(stem, (i + 1) as nat, (j + 1) as nat);
        } else {
            lemma_candidates_differ(stem, (j + 1) as nat, (i + 1) as nat);
        }
    }
    keys.unique_seq_to_set();
    if forall|k: nat| 1 <= k <= n ==> taken.contains((board, #[trigger] candidate(stem, k))) {
        assert forall|key: (Seq<char>, Seq<char>)|
            keys.to_set().contains(key) implies taken.contains(key) by {
            let i = choose|i: int| 0 <= i < keys.len() && keys[i] == key;
            assert(taken.contains((board, candidate(stem, (i + 1) as nat))));
        }
        vstd::set_lib::lemma_len_subset(keys.to_set(), taken);
    }
}

/// There is a first free name.
pub proof fn lemma_some_free(
    taken: Set<(Seq<char>, Seq<char>)>,
    board: Seq<char>,
    stem: Seq<char>,
)
    requires
        taken.finite(),
    ensures
        exists|n: nat| #[trigger] first_free(taken, board, stem, n),
{
    let top = taken.len() + 1;
    lemma_some_name_is_free(taken, board, stem, top);
    let k = choose|k: nat|
        1 <= k <= top && !taken.contains((board, #[trigger] candidate(stem, k)));
    lemma_first_below(taken, board, stem, k);
}

proof fn lemma_first_below(
    taken: Set<(Seq<char>, Seq<char>)>,
    board: Seq<char>,
    stem: Seq<char>,
    k: nat,
)
    requires
        k >= 1,
        !taken.contains((board, candidate(stem, k))),
    ensures
        exists|n: nat| #[trigger] first_free(taken, board, stem, n),
    decreases k,
{
    if forall|j: nat| 1 <= j < k ==> taken.contains((board, #[trigger] candidate(stem, j))) {
        assert(first_free(taken, board, stem, k));
    } else {
        let j = choose|j: nat|
            1 <= j < k && !taken.contains((board, #[trigger] candidate(stem, j)));
        lemma_first_below(taken, board, stem, j);
    }
}

proof fn lemma_first_free_is_one(
    taken: Set<(Seq<char>, Seq<char>)>,
    board: Seq<char>,
    stem: Seq<char>,
    n: nat,
)
    requires
        first_free(taken, board, stem, n),
    ensures
        fresh_name(taken, board, stem) == candidate(stem, n),
{
    let m = choose|m: nat| #[trigger] first_free(taken, board, stem, m);
    assert(first_free(taken, board, stem, m));
    if m < n {
        assert(taken.contains((board, candidate(stem, m))));
    } else if n < m {
        assert(taken.contains((board, candidate(stem, n))));
    }
}

/// Whether a held pin has a place.
fn is_held(held: &[Held], board: &str, name: &str) -> (r: bool)
    ensures
        r == exists|a: int|
            0 <= a < held@.len() && key(#[trigger] held_view(held@)[a]) == (board@, name@),
{
    let mut i: usize = 0;
    while i < held.len()
        invariant
            i <= held@.len(),
            forall|a: int| 0 <= a < i ==> key(#[trigger] held_view(held@)[a]) != (board@, name@),
        decreases held@.len() - i,
    {
        assert(held_view(held@)[i as int] == held@[i as int]@);
        if same_str(&held[i].board, board) && same_str(&held[i].name, name) {
            assert(key(held_view(held@)[i as int]) == (board@, name@));
            return true;
        }
        i += 1;
    }
    false
}

/// Whether a place is spoken for.
fn is_claimed(disk: &Disk, held: &[Held], board: &str, name: &str) -> (r: bool)
    ensures
        r == claims(disk@, held_view(held@)).contains((board@, name@)),
{
    proof {
        lemma_listing_is_finite(disk.files@);
        lemma_claims(disk@, held_view(held@));
    }
    disk.find(board, name).is_some() || is_held(held, board, name)
}

/// A fresh, unused name for a pin on a board.
fn new_name(disk: &Disk, held: &[Held], board: &str, stem: &[char]) -> (name: String)
    ensures
        name@ == fresh_name(claims(disk@, held_view(held@)), board@, stem@),
        !claims(disk@, held_view(held@)).contains((board@, name@)),
{
    let ghost taken = claims(disk@, held_view(held@));
    let mut n: u128 = 1;
    assert(disk.files.len() == disk.files@.len());
    assert(held.len() == held@.len());
    proof {
        lemma_listing_is_finite(disk.files@);
        lemma_claims(disk@, held_view(held@));
    }
    loop
        invariant
            1 <= n <= disk.files@.len() + held@.len() + 1,
            disk.files@.len() <= usize::MAX,
            held@.len() <= usize::MAX,
            taken == claims(disk@, held_view(held@)),
            taken.finite(),
            taken.len() <= disk.files@.len() + held@.len(),
            forall|k: nat| 1 <= k < n ==> taken.contains((board@, #[trigger] candidate(stem@, k))),
        decreases disk.files@.len() + held@.len() + 1 - n,
    {
        let mut name: Vec<char> = Vec::new();
        push_all(&mut name, stem);
        if n > 1 {
            push_text(&mut name, "-");
            push_wide(&mut name, n);
        }
        push_text(&mut name, ".md");
        proof {
            assert(name@ =~= candidate(stem@, n as nat));
        }
        let name = string_of(&name);
        if !is_claimed(disk, held, board, &name) {
            proof {
                lemma_first_free_is_one(taken, board@, stem@, n as nat);
            }
            return name;
        }
        proof {
            if n == disk.files@.len() + held@.len() + 1 {
                lemma_some_name_is_free(taken, board@, stem@, n as nat);
            }
        }
        n += 1;
    }
}

/// A file's name without its ending.
fn stem_of(name: &str) -> (stem: Vec<char>)
    ensures
        stem@ == stem_in(name@),
{
    let chars = chars_of(name);
    let ending = chars_of(".md");
    proof {
        reveal_strlit(".md");
    }
    if chars.len() >= 3 && stands_at(&ending, &chars, chars.len() - 3) {
        let stem = sub_vec(&chars, 0, chars.len() - 3);
        proof {
            let n = name@.len() as int;
            assert(name@.skip(n - 3) =~= name@.subrange(n - 3, n));
            assert(stem@ =~= name@.take(n - 3));
        }
        stem
    } else {
        proof {
            let n = name@.len() as int;
            if n >= 3 {
                assert(name@.skip(n - 3) =~= name@.subrange(n - 3, n));
            }
        }
        chars
    }
}

// ---- one save ----

/// A save under way: the disk as it will be, the changes that make it so, the
/// pins seen, and the ones left alone.
#[verifier::ext_equal]
pub struct Saving {
    pub disk: Map<(Seq<char>, Seq<char>), Option<Seq<char>>>,
    pub changes: Seq<ChangeView>,
    pub held: Seq<HeldView>,
    pub skipped: Seq<Seq<char>>,
}

impl Saving {
    pub open spec fn start(disk: Map<(Seq<char>, Seq<char>), Option<Seq<char>>>) -> Saving {
        Saving { disk, changes: Seq::empty(), held: Seq::empty(), skipped: Seq::empty() }
    }

    pub open spec fn change(self, c: ChangeView) -> Saving {
        Saving { disk: done(self.disk, c), changes: self.changes.push(c), ..self }
    }

    pub open spec fn hold(self, h: HeldView) -> Saving {
        Saving { held: self.held.push(h), ..self }
    }

    /// Put a pin's text where it belongs:
    ///
    /// 1. If the file already says this, leave it. The two writers agree.
    /// 2. Otherwise, if it no longer says what the store last knew it to say, it
    ///    changed underneath the session. Leave it, and report it.
    /// 3. Otherwise, write it.
    pub open spec fn put(
        self,
        id: u64,
        board: Seq<char>,
        name: Seq<char>,
        known: Option<Seq<char>>,
        text: Seq<char>,
    ) -> Saving {
        let there = if self.disk.contains_key((board, name)) {
            self.disk[(board, name)]
        } else {
            None
        };
        if there == Some(text) {
            self.hold(HeldView { id, board, name, text: Some(text) })
        } else if known is Some && there is Some && there != known {
            let s = self.hold(HeldView { id, board, name, text: known });
            Saving { skipped: s.skipped.push(board + "/"@ + name), ..s }
        } else {
            self.change(ChangeView::Write { board, name, text }).hold(
                HeldView { id, board, name, text: Some(text) },
            )
        }
    }

    /// Save one pin. A pin that has a file keeps its name. One that has been
    /// dragged to another board moves directory, and keeps its name there unless
    /// another file or pin has it.
    pub open spec fn note(
        self,
        board: Seq<char>,
        n: NoteView,
        held: Seq<HeldView>,
        stamp: Seq<char>,
    ) -> Saving {
        match held_at(held, n.id) {
            Some(h) => if h.board == board {
                self.put(n.id, board, h.name, h.text, rendered(n))
            } else {
                self.change(ChangeView::Remove { board: h.board, name: h.name }).put(
                    n.id,
                    board,
                    moved_name(claims(self.disk, held), board, h.name),
                    None,
                    rendered(n),
                )
            },
            None => self.put(
                n.id,
                board,
                fresh_name(claims(self.disk, held), board, stamp + "-"@ + slug_of(n.title)),
                None,
                rendered(n),
            ),
        }
    }

    pub open spec fn notes(
        self,
        board: Seq<char>,
        notes: Seq<NoteView>,
        held: Seq<HeldView>,
        stamp: Seq<char>,
    ) -> Saving
        decreases notes.len(),
    {
        if notes.len() == 0 {
            self
        } else {
            self.notes(board, notes.drop_last(), held, stamp).note(board, notes.last(), held, stamp)
        }
    }

    /// Git cannot track an empty directory, so an emptied board would vanish on
    /// the next machine. A marker keeps the tab alive.
    pub open spec fn mark(self, b: BoardView) -> Saving {
        let marked = self.disk.contains_key((b.name, marker()));
        if b.notes.len() == 0 && !marked {
            self.change(ChangeView::Write { board: b.name, name: marker(), text: Seq::empty() })
        } else if b.notes.len() > 0 && marked {
            self.change(ChangeView::Remove { board: b.name, name: marker() })
        } else {
            self
        }
    }

    pub open spec fn board(self, b: BoardView, held: Seq<HeldView>, stamp: Seq<char>) -> Saving {
        self.change(ChangeView::MakeFolder { board: b.name }).notes(
            b.name,
            b.notes,
            held,
            stamp,
        ).mark(b)
    }

    pub open spec fn boards(
        self,
        boards: Seq<BoardView>,
        held: Seq<HeldView>,
        stamp: Seq<char>,
    ) -> Saving
        decreases boards.len(),
    {
        if boards.len() == 0 {
            self
        } else {
            self.boards(boards.drop_last(), held, stamp).board(boards.last(), held, stamp)
        }
    }

    /// Remove only files this store loaded and that are no longer on a board.
    /// Anything it never loaded is not its to remove.
    pub open spec fn prune(self, held: Seq<HeldView>) -> Saving
        decreases held.len(),
    {
        if held.len() == 0 {
            self
        } else {
            let s = self.prune(held.drop_last());
            let h = held.last();
            if held_at(self.held, h.id) is None {
                s.change(ChangeView::Remove { board: h.board, name: h.name })
            } else {
                s
            }
        }
    }
}

/// A whole save: every board, then what is no longer on one.
pub open spec fn saved(
    disk: Map<(Seq<char>, Seq<char>), Option<Seq<char>>>,
    boards: Seq<BoardView>,
    held: Seq<HeldView>,
    stamp: Seq<char>,
) -> Saving {
    Saving::start(disk).boards(boards, held, stamp).prune(held)
}

/// What a save would do.
#[derive(Debug)]
pub struct SavePlan {
    /// What to do to the files, in order.
    pub changes: Vec<Change>,
    /// Pins left alone because they changed on disk since they were loaded.
    pub skipped: Vec<String>,
    /// What the store holds once the changes are made.
    pub held: Vec<Held>,
}

/// A [`Saving`] in the making.
struct Saver {
    disk: Disk,
    plan: SavePlan,
}

impl View for Saver {
    type V = Saving;

    closed spec fn view(&self) -> Saving {
        Saving {
            disk: self.disk@,
            changes: crate::disk::changes_view(self.plan.changes@),
            held: held_view(self.plan.held@),
            skipped: strs(self.plan.skipped@),
        }
    }
}

impl Saver {
    fn change(&mut self, c: Change)
        ensures
            final(self)@ == old(self)@.change(c@),
    {
        let ghost before = self@;
        self.disk.apply(&c);
        self.plan.changes.push(c);
        proof {
            assert(self@ =~= before.change(c@));
        }
    }

    fn hold(&mut self, id: u64, board: &str, name: &str, text: Option<String>)
        ensures
            final(self)@ == old(self)@.hold(
                HeldView { id, board: board@, name: name@, text: opt_str(text) },
            ),
    {
        let ghost before = self@;
        self.plan.held.push(Held { id, board: board.to_owned(), name: name.to_owned(), text });
        proof {
            assert(self@.held =~= before.held.push(
                HeldView { id, board: board@, name: name@, text: opt_str(text) },
            ));
        }
    }

    fn put(&mut self, id: u64, board: &str, name: &str, known: &Option<String>, text: String)
        ensures
            final(self)@ == old(self)@.put(id, board@, name@, opt_str(*known), text@),
    {
        let there: Option<String> = match self.disk.find(board, name) {
            Some(at) => copy_text(&self.disk.files[at].text),
            None => None,
        };
        if let Some(there) = &there {
            if same_str(there, &text) {
                self.hold(id, board, name, Some(text));
                return;
            }
            if let Some(known) = known {
                if !same_str(there, known) {
                    self.hold(id, board, name, Some(known.clone()));
                    let ghost s = self@;
                    let mut path = chars_of(board);
                    push_text(&mut path, "/");
                    push_text(&mut path, name);
                    self.plan.skipped.push(string_of(&path));
                    proof {
                        assert(self@ =~= (Saving {
                            skipped: s.skipped.push(board@ + "/"@ + name@),
                            ..s
                        }));
                    }
                    return;
                }
            }
        }
        let kept = text.clone();
        self.change(Change::Write { board: board.to_owned(), name: name.to_owned(), text });
        self.hold(id, board, name, Some(kept));
    }

    fn note(&mut self, board: &str, n: &Note, held: &[Held], stamp: &str)
        ensures
            final(self)@ == old(self)@.note(board@, n@, held_view(held@), stamp@),
    {
        let text = render_pin(n);
        match find_held(held, n.id) {
            Some(at) => {
                let h = &held[at];
                if same_str(&h.board, board) {
                    self.put(n.id, board, &h.name, &h.text, text);
                } else {
                    let name = if is_claimed(&self.disk, held, board, &h.name) {
                        new_name(&self.disk, held, board, &stem_of(&h.name))
                    } else {
                        h.name.clone()
                    };
                    self.change(Change::Remove { board: h.board.clone(), name: h.name.clone() });
                    self.put(n.id, board, &name, &None, text);
                }
            },
            None => {
                let mut stem = chars_of(stamp);
                push_text(&mut stem, "-");
                push_text(&mut stem, &slug(&n.title));
                let name = new_name(&self.disk, held, board, &stem);
                proof {
                    assert(stem@ =~= stamp@ + "-"@ + slug_of(n.title@));
                }
                self.put(n.id, board, &name, &None, text);
            },
        }
    }

    fn board(&mut self, b: &Board, held: &[Held], stamp: &str)
        ensures
            final(self)@ == old(self)@.board(b@, held_view(held@), stamp@),
    {
        self.change(Change::MakeFolder { board: b.name.clone() });
        let ghost start = self@;
        let mut i: usize = 0;
        proof {
            assert(notes_view(b.notes@).take(0) =~= Seq::empty());
        }
        while i < b.notes.len()
            invariant
                i <= b.notes@.len(),
                self@ == start.notes(
                    b.name@,
                    notes_view(b.notes@).take(i as int),
                    held_view(held@),
                    stamp@,
                ),
            decreases b.notes@.len() - i,
        {
            self.note(&b.name, &b.notes[i], held, stamp);
            proof {
                let some = notes_view(b.notes@).take(i + 1);
                assert(some.drop_last() =~= notes_view(b.notes@).take(i as int));
            }
            i += 1;
        }
        proof {
            assert(notes_view(b.notes@).take(i as int) =~= b@.notes);
        }
        let marked = self.disk.find(&b.name, ".gitkeep").is_some();
        if b.notes.len() == 0 {
            if !marked {
                proof {
                    reveal_strlit("");
                    assert(""@ =~= Seq::empty());
                }
                self.change(
                    Change::Write {
                        board: b.name.clone(),
                        name: ".gitkeep".to_owned(),
                        text: "".to_owned(),
                    },
                );
            }
        } else if marked {
            self.change(Change::Remove { board: b.name.clone(), name: ".gitkeep".to_owned() });
        }
    }

    fn prune(&mut self, held: &[Held])
        ensures
            final(self)@ == old(self)@.prune(held_view(held@)),
    {
        let ghost start = self@;
        let mut i: usize = 0;
        proof {
            assert(held_view(held@).take(0) =~= Seq::empty());
        }
        while i < held.len()
            invariant
                i <= held@.len(),
                self@.held == start.held,
                self@ == start.prune(held_view(held@).take(i as int)),
            decreases held@.len() - i,
        {
            proof {
                let some = held_view(held@).take(i + 1);
                assert(some.drop_last() =~= held_view(held@).take(i as int));
                assert(some.last() == held@[i as int]@);
            }
            let h = &held[i];
            if find_held(&self.plan.held, h.id).is_none() {
                self.change(Change::Remove { board: h.board.clone(), name: h.name.clone() });
            }
            i += 1;
        }
        proof {
            assert(held_view(held@).take(i as int) =~= held_view(held@));
        }
    }
}

impl FileStore {
    /// Plan a save of the boards onto a disk. `stamp` names the pins that have
    /// no file yet.
    pub fn plan(&self, boards: &[Board], disk: &Disk, stamp: &str) -> (plan: SavePlan)
        ensures
            ({
                let s = saved(disk@, boards_view(boards@), held_view(self.held@), stamp@);
                &&& crate::disk::changes_view(plan.changes@) == s.changes
                &&& strs(plan.skipped@) == s.skipped
                &&& held_view(plan.held@) == s.held
            }),
    {
        let mut saver = Saver {
            disk: disk.copy(),
            plan: SavePlan { changes: Vec::new(), skipped: Vec::new(), held: Vec::new() },
        };
        let mut i: usize = 0;
        let ghost start = Saving::start(disk@);
        proof {
            assert(saver@ =~= start);
            assert(boards_view(boards@).take(0) =~= Seq::empty());
        }
        while i < boards.len()
            invariant
                i <= boards@.len(),
                saver@ == start.boards(
                    boards_view(boards@).take(i as int),
                    held_view(self.held@),
                    stamp@,
                ),
            decreases boards@.len() - i,
        {
            saver.board(&boards[i], &self.held, stamp);
            proof {
                let some = boards_view(boards@).take(i + 1);
                assert(some.drop_last() =~= boards_view(boards@).take(i as int));
            }
            i += 1;
        }
        proof {
            assert(boards_view(boards@).take(i as int) =~= boards_view(boards@));
        }
        saver.prune(&self.held);
        saver.plan
    }

    /// The changes of a plan were made: hold what it left, and say which pins it
    /// left alone.
    pub fn settle(&mut self, plan: SavePlan) -> (report: SaveReport)
        ensures
            final(self).held@ == plan.held@,
            final(self).root@ == old(self).root@,
            report.skipped@ == plan.skipped@,
    {
        self.held = plan.held;
        SaveReport { skipped: plan.skipped }
    }
}

// ---- laws ----

/// A new file gets a name that no file and no pin has: the one it would have alone if
/// that is free, and otherwise the same with the first number from two on that makes it
/// free.
pub proof fn law_how_a_new_file_is_named(
    taken: Set<(Seq<char>, Seq<char>)>,
    board: Seq<char>,
    stem: Seq<char>,
    n: nat,
)
    requires
        taken.finite(),
        n >= 2,
    ensures
        ({
            let name = fresh_name(taken, board, stem);
            let numbered = |k: nat| stem + "-"@ + decimal(k) + ".md"@;
            &&& !taken.contains((board, name))
            &&& !taken.contains((board, stem + ".md"@)) ==> name == stem + ".md"@
            &&& taken.contains((board, stem + ".md"@)) && !taken.contains((board, numbered(n))) && (
            forall|k: nat| 2 <= k < n ==> taken.contains((board, #[trigger] numbered(k)))) ==> name
                == numbered(n)
        }),
{
    lemma_some_free(taken, board, stem);
    let m = choose|m: nat| #[trigger] first_free(taken, board, stem, m);
    let numbered = |k: nat| stem + "-"@ + decimal(k) + ".md"@;
    assert(first_free(taken, board, stem, m));
    if !taken.contains((board, stem + ".md"@)) {
        assert(first_free(taken, board, stem, 1)) by {
            assert(candidate(stem, 1) == stem + ".md"@);
        }
        lemma_first_free_is_one(taken, board, stem, 1);
    }
    if taken.contains((board, stem + ".md"@)) && !taken.contains((board, numbered(n))) && (forall|
        k: nat,
    |
        2 <= k < n ==> taken.contains((board, #[trigger] numbered(k)))) {
        assert forall|k: nat| 1 <= k < n implies taken.contains(
            (board, #[trigger] candidate(stem, k)),
        ) by {
            if k >= 2 {
                assert(taken.contains((board, numbered(k))));
            }
        }
        assert(first_free(taken, board, stem, n));
        lemma_first_free_is_one(taken, board, stem, n);
    }
}

/// The file of a pin that had none is named after the moment and the pin's title; a pin
/// that goes to another board takes its file's name along wherever that is free.
pub proof fn law_which_file_a_pin_goes_to(
    s: Saving,
    board: Seq<char>,
    n: NoteView,
    held: Seq<HeldView>,
    stamp: Seq<char>,
)
    requires
        s.disk.dom().finite(),
    ensures
        ({
            let after = s.note(board, n, held, stamp);
            let h = after.held.last();
            let spoken_for = claims(s.disk, held);
            let own = stamp + "-"@ + slug_of(n.title) + ".md"@;
            &&& h.id == n.id && h.board == board
            &&& held_at(held, n.id) is None && !spoken_for.contains((board, own)) ==> h.name == own
            &&& held_at(held, n.id) is None ==> !spoken_for.contains((board, h.name))
            &&& held_at(held, n.id) matches Some(was) ==> {
                &&& was.board == board ==> h.name == was.name
                &&& was.board != board && !spoken_for.contains((board, was.name)) ==> h.name == was.name
                &&& was.board != board ==> !spoken_for.contains((board, h.name))
            }
        }),
{
    let spoken_for = claims(s.disk, held);
    lemma_claims(s.disk, held);
    let stem = stamp + "-"@ + slug_of(n.title);
    law_how_a_new_file_is_named(spoken_for, board, stem, 2);
    if let Some(was) = held_at(held, n.id) {
        law_how_a_new_file_is_named(spoken_for, board, stem_in(was.name), 2);
    }
}

/// A board without pins keeps its directory by a marker in it, and one with pins has no
/// marker.
pub proof fn law_an_empty_board_keeps_its_directory(
    s: Saving,
    b: BoardView,
    held: Seq<HeldView>,
    stamp: Seq<char>,
)
    ensures
        s.board(b, held, stamp).disk.contains_key((b.name, ".gitkeep"@)) <==> b.notes.len() == 0,
{
}

} // verus!

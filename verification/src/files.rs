//! The git-friendly file store: pinz's own corpus on disk.
//!
//! Layout is one directory per board, one markdown file per pin:
//!
//! ```text
//! ~/pinz-board/
//!   ideas/
//!     2026-08-01-143022-buy-a-new-lamp.md
//!   sketches/
//! ```
//!
//! **One file per pin is a sync decision, not a style one.** These files live in
//! a git repo synced between machines; a single board file would conflict
//! whenever both ends touched anything on that board, while per-pin files
//! conflict only when the same pin was edited twice. It also keeps saves
//! incremental - only files whose bytes actually changed are rewritten, so a
//! drag doesn't churn the whole board's history.
//!
//! The store reads and plans; it never touches the filesystem itself. A load is
//! handed the files, a save hands back the changes to make.

use crate::disk::{Change, ChangeView};
use crate::model::{boards_view, Board, BoardView, Note};
use crate::pinfile::{parse_pin, parsed};
use crate::store::StoreError;
use crate::text::{
    chars_of, decimal, opt_str, push_decimal, push_text, same_str, string_of, strs,
};
use vstd::prelude::*;

verus! {

broadcast use crate::text::group_strs;

/// The marker that keeps an empty board in git.
pub open spec fn marker() -> Seq<char> {
    ".gitkeep"@
}

// ---- listings ----

/// A name starting with `.` is ours to ignore (`.git`, `.gitkeep`, editor
/// droppings).
pub open spec fn hidden(name: Seq<char>) -> bool {
    name.len() > 0 && name[0] == '.'
}

/// A pin's file name: a markdown file that is not hidden.
pub open spec fn names_a_pin(name: Seq<char>) -> bool {
    !hidden(name) && name.len() >= 3 && name.skip(name.len() - 3) == ".md"@
}

pub fn is_hidden(name: &str) -> (r: bool)
    ensures
        r == hidden(name@),
{
    let chars = chars_of(name);
    chars.len() > 0 && chars[0] == '.'
}

fn is_pin_name(name: &str) -> (r: bool)
    ensures
        r == names_a_pin(name@),
{
    let chars = chars_of(name);
    let n: usize = chars.len();
    proof {
        reveal_strlit(".md");
        if n >= 3 {
            let tail = chars@.skip(n - 3);
            assert(tail[0] == chars@[n - 3] && tail[1] == chars@[n - 2] && tail[2] == chars@[n - 1]);
            assert(tail == ".md"@ <==> tail =~= ".md"@);
            assert(".md"@[0] == '.' && ".md"@[1] == 'm' && ".md"@[2] == 'd');
        }
    }
    !is_hidden(name) && n >= 3 && chars[n - 3] == '.' && chars[n - 2] == 'm' && chars[n - 1] == 'd'
}

/// Whether one name sorts before another, or is the same: by character, the
/// shorter first where one starts the other.
pub open spec fn sorts_before(a: Seq<char>, b: Seq<char>) -> bool
    decreases a.len(),
{
    if a.len() == 0 {
        true
    } else if b.len() == 0 {
        false
    } else if a[0] != b[0] {
        a[0] < b[0]
    } else {
        sorts_before(a.skip(1), b.skip(1))
    }
}

proof fn lemma_sorts_total(a: Seq<char>, b: Seq<char>)
    ensures
        sorts_before(a, b) || sorts_before(b, a),
    decreases a.len(),
{
    if a.len() > 0 && b.len() > 0 && a[0] == b[0] {
        lemma_sorts_total(a.skip(1), b.skip(1));
    }
}

proof fn lemma_sorts_transitive(a: Seq<char>, b: Seq<char>, c: Seq<char>)
    requires
        sorts_before(a, b),
        sorts_before(b, c),
    ensures
        sorts_before(a, c),
    decreases a.len(),
{
    if a.len() > 0 && b.len() > 0 && c.len() > 0 && a[0] == b[0] && b[0] == c[0] {
        lemma_sorts_transitive(a.skip(1), b.skip(1), c.skip(1));
    }
}

/// Sorting is a strict matter of the names: two that sort before each other are
/// the same.
pub proof fn law_sorting_is_total(a: Seq<char>, b: Seq<char>)
    ensures
        sorts_before(a, b) || sorts_before(b, a),
        sorts_before(a, b) && sorts_before(b, a) ==> a == b,
    decreases a.len(),
{
    if a.len() > 0 && b.len() > 0 && a[0] == b[0] {
        law_sorting_is_total(a.skip(1), b.skip(1));
        if sorts_before(a, b) && sorts_before(b, a) {
            assert(a =~= seq![a[0]] + a.skip(1));
            assert(b =~= seq![b[0]] + b.skip(1));
        }
    } else if a.len() == 0 && b.len() == 0 {
        assert(a =~= b);
    }
}

/// Names in order.
pub open spec fn in_order(names: Seq<Seq<char>>) -> bool {
    forall|i: int, j: int| 0 <= i <= j < names.len() ==> sorts_before(names[i], names[j])
}

fn comes_first(a: &str, b: &str) -> (r: bool)
    ensures
        r == sorts_before(a@, b@),
{
    let x = chars_of(a);
    let y = chars_of(b);
    let mut i: usize = 0;
    proof {
        assert(x@.skip(0) =~= x@);
        assert(y@.skip(0) =~= y@);
    }
    while i < x.len() && i < y.len() && x[i] == y[i]
        invariant
            i <= x@.len(),
            i <= y@.len(),
            sorts_before(x@.skip(i as int), y@.skip(i as int)) == sorts_before(x@, y@),
        decreases x@.len() - i,
    {
        proof {
            assert(x@.skip(i as int).skip(1) =~= x@.skip(i + 1));
            assert(y@.skip(i as int).skip(1) =~= y@.skip(i + 1));
        }
        i += 1;
    }
    if i >= x.len() {
        true
    } else if i >= y.len() {
        false
    } else {
        x[i] < y[i]
    }
}

/// Put a name where it belongs among names in order.
fn insert_in_order(names: &mut Vec<String>, name: String)
    requires
        in_order(strs(old(names)@)),
    ensures
        in_order(strs(final(names)@)),
        strs(final(names)@).to_multiset() == strs(old(names)@).to_multiset().insert(name@),
{
    let ghost before = strs(names@);
    let mut i: usize = names.len();
    while i > 0 && !comes_first(&names[i - 1], &name)
        invariant
            i <= names@.len(),
            before == strs(names@),
            forall|k: int| i <= k < names@.len() ==> !sorts_before(before[k], name@),
        decreases i,
    {
        i -= 1;
    }
    let ghost added = name@;
    names.insert(i, name);
    proof {
        let after = strs(names@);
        assert(after =~= before.insert(i as int, added));
        before.to_multiset_ensures();
        assert forall|a: int, b: int| 0 <= a <= b < after.len() implies sorts_before(
            after[a],
            after[b],
        ) by {
            if i > 0 {
                assert(sorts_before(before[i - 1], added));
            }
            if a < i && b == i {
                lemma_sorts_transitive(before[a], before[i - 1], added);
            } else if a == i && b == i {
                lemma_sorts_total(added, added);
            } else if a == i && b > i {
                lemma_sorts_total(added, before[b - 1]);
            }
        }
        vstd::seq_lib::to_multiset_insert(before, i as int, added);
    }
}

/// Something found in the pin directory.
#[derive(Debug)]
pub struct Entry {
    pub name: String,
    pub is_dir: bool,
}

/// The entries that are boards: directories that are not hidden.
pub open spec fn boards_among(entries: Seq<Entry>) -> Seq<Seq<char>>
    decreases entries.len(),
{
    if entries.len() == 0 {
        Seq::empty()
    } else if entries.last().is_dir && !hidden(entries.last().name@) {
        boards_among(entries.drop_last()).push(entries.last().name@)
    } else {
        boards_among(entries.drop_last())
    }
}

/// The names that are pins.
pub open spec fn pins_among(names: Seq<Seq<char>>) -> Seq<Seq<char>>
    decreases names.len(),
{
    if names.len() == 0 {
        Seq::empty()
    } else if names_a_pin(names.last()) {
        pins_among(names.drop_last()).push(names.last())
    } else {
        pins_among(names.drop_last())
    }
}

/// Board directories, sorted by name so the tab strip is stable across runs
/// and machines.
pub fn board_dirs(entries: &[Entry]) -> (out: Vec<String>)
    ensures
        in_order(strs(out@)),
        strs(out@).to_multiset() == boards_among(entries@).to_multiset(),
{
    let mut out: Vec<String> = Vec::new();
    let mut i: usize = 0;
    proof {
        assert(entries@.take(0) =~= Seq::empty());
        assert(strs(out@) =~= Seq::empty());
    }
    while i < entries.len()
        invariant
            i <= entries@.len(),
            in_order(strs(out@)),
            strs(out@).to_multiset() == boards_among(entries@.take(i as int)).to_multiset(),
        decreases entries@.len() - i,
    {
        proof {
            assert(entries@.take(i + 1).drop_last() =~= entries@.take(i as int));
            boards_among(entries@.take(i as int)).to_multiset_ensures();
        }
        let e = &entries[i];
        if e.is_dir && !is_hidden(&e.name) {
            insert_in_order(&mut out, e.name.clone());
        }
        i += 1;
    }
    proof {
        assert(entries@.take(i as int) =~= entries@);
    }
    out
}

/// The `.md` files of one board, sorted by name - which, because names lead
/// with a timestamp, means oldest pin first.
pub fn pin_files(names: &[String]) -> (out: Vec<String>)
    ensures
        in_order(strs(out@)),
        strs(out@).to_multiset() == pins_among(strs(names@)).to_multiset(),
{
    let mut out: Vec<String> = Vec::new();
    let mut i: usize = 0;
    proof {
        assert(strs(names@).take(0) =~= Seq::empty());
        assert(strs(out@) =~= Seq::empty());
    }
    while i < names.len()
        invariant
            i <= names@.len(),
            in_order(strs(out@)),
            strs(out@).to_multiset() == pins_among(strs(names@).take(i as int)).to_multiset(),
        decreases names@.len() - i,
    {
        proof {
            assert(strs(names@).take(i + 1).drop_last() =~= strs(names@).take(i as int));
            pins_among(strs(names@).take(i as int)).to_multiset_ensures();
        }
        if is_pin_name(&names[i]) {
            insert_in_order(&mut out, names[i].clone());
        }
        i += 1;
    }
    proof {
        assert(strs(names@).take(i as int) =~= strs(names@));
    }
    out
}

// ---- loading ----

/// A pin's file: its name and what it holds.
#[derive(Debug)]
pub struct PinFile {
    pub name: String,
    pub text: String,
}

/// A board's directory, its pin files in order.
#[derive(Debug)]
pub struct Folder {
    pub name: String,
    pub pins: Vec<PinFile>,
}

/// How many pins the first `n` folders hold.
pub open spec fn pins_before(folders: Seq<Folder>, n: int) -> int
    decreases n,
{
    if n <= 0 {
        0
    } else {
        pins_before(folders, n - 1) + folders[n - 1].pins@.len()
    }
}

/// The board a folder holds, its pins numbered from `first`.
pub open spec fn board_in(folder: Folder, first: int) -> BoardView {
    BoardView {
        name: folder.name@,
        notes: Seq::new(
            folder.pins@.len(),
            |j: int| parsed(folder.pins@[j].text@, (first + j) as u64),
        ),
    }
}

/// The boards the folders hold, pins numbered from one.
pub open spec fn boards_in(folders: Seq<Folder>) -> Seq<BoardView> {
    Seq::new(folders.len(), |i: int| board_in(folders[i], 1 + pins_before(folders, i)))
}

/// A pin this store is responsible for: which file is its own, and what that
/// file held when the store last knew.
#[derive(Debug)]
pub struct Held {
    pub id: u64,
    pub board: String,
    pub name: String,
    pub text: Option<String>,
}

/// A [`Held`] pin as a value.
pub struct HeldView {
    pub id: u64,
    pub board: Seq<char>,
    pub name: Seq<char>,
    pub text: Option<Seq<char>>,
}

impl View for Held {
    type V = HeldView;

    open spec fn view(&self) -> HeldView {
        HeldView { id: self.id, board: self.board@, name: self.name@, text: opt_str(self.text) }
    }
}

/// A list of held pins as a list of values.
pub open spec fn held_view(held: Seq<Held>) -> Seq<HeldView> {
    Seq::new(held.len(), |i: int| held[i]@)
}

/// What a store holds after reading the first `m` pins of a folder.
pub open spec fn held_in(folder: Folder, first: int, m: int) -> Seq<HeldView> {
    Seq::new(
        m as nat,
        |j: int|
            HeldView {
                id: (first + j) as u64,
                board: folder.name@,
                name: folder.pins@[j].name@,
                text: Some(folder.pins@[j].text@),
            },
    )
}

/// What a store holds after reading the first `n` folders.
pub open spec fn held_after(folders: Seq<Folder>, n: int) -> Seq<HeldView>
    decreases n,
{
    if n <= 0 {
        Seq::empty()
    } else {
        held_after(folders, n - 1) + held_in(
            folders[n - 1],
            1 + pins_before(folders, n - 1),
            folders[n - 1].pins@.len() as int,
        )
    }
}

/// Two path pieces as one path.
pub open spec fn joined(root: Seq<char>, name: Seq<char>) -> Seq<char> {
    if root.len() == 0 {
        name
    } else if root.last() == '/' {
        root + name
    } else {
        root + "/"@ + name
    }
}

/// Boards and pins as files under a root directory.
#[derive(Debug)]
pub struct FileStore {
    pub root: String,
    /// The pins loaded or saved, each with its file, so a save can rewrite, move
    /// or delete exactly the files this store is responsible for and no others.
    pub held: Vec<Held>,
}

impl FileStore {
    /// A store rooted at `root`.
    pub fn open(root: &str) -> (s: FileStore)
        ensures
            s.root@ == root@,
            s.held@.len() == 0,
    {
        FileStore { root: root.to_owned(), held: Vec::new() }
    }

    /// The default root: `$PINZ_HOME`, else `~/pinz-board`.
    ///
    /// Named to match the git repo it usually is, so the directory on disk and
    /// the repo on the remote are not two names for one thing.
    pub fn default_root(pinz_home: Option<String>, home: Option<String>) -> (root: Option<String>)
        ensures
            opt_str(root) == (match (opt_str(pinz_home), opt_str(home)) {
                (Some(dir), _) => Some(dir),
                (None, Some(home)) => Some(joined(home, "pinz-board"@)),
                (None, None) => None,
            }),
    {
        match pinz_home {
            Some(dir) => Some(dir),
            None => match home {
                Some(home) => {
                    let mut path = chars_of(&home);
                    let n: usize = path.len();
                    if n > 0 && path[n - 1] != '/' {
                        path.push('/');
                    }
                    push_text(&mut path, "pinz-board");
                    proof {
                        reveal_strlit("/");
                        assert(path@ =~= joined(home@, "pinz-board"@));
                    }
                    Some(string_of(&path))
                },
                None => None,
            },
        }
    }

    pub fn root(&self) -> (root: &str)
        ensures
            root@ == self.root@,
    {
        self.root.as_str()
    }

    /// The boards in the pin directory. From here on the store is responsible
    /// for the files these pins came from.
    pub fn load(&mut self, folders: &[Folder]) -> (boards: Vec<Board>)
        requires
            pins_before(folders@, folders@.len() as int) < u64::MAX,
        ensures
            boards_view(boards@) == boards_in(folders@),
            held_view(final(self).held@) == held_after(folders@, folders@.len() as int),
            final(self).root@ == old(self).root@,
    {
        let mut held: Vec<Held> = Vec::new();
        let mut boards: Vec<Board> = Vec::new();
        let mut next: u64 = 1;
        let mut i: usize = 0;
        proof {
            assert(held_view(held@) =~= Seq::empty());
        }
        while i < folders.len()
            invariant
                i <= folders@.len(),
                pins_before(folders@, folders@.len() as int) < u64::MAX,
                next == 1 + pins_before(folders@, i as int),
                boards@.len() == i,
                forall|k: int|
                    0 <= k < i ==> #[trigger] boards@[k]@ == board_in(
                        folders@[k],
                        1 + pins_before(folders@, k),
                    ),
                held_view(held@) == held_after(folders@, i as int),
            decreases folders@.len() - i,
        {
            let folder = &folders[i];
            let ghost first: int = next as int;
            let ghost held_so_far = held_view(held@);
            proof {
                lemma_pins_before(folders@, i + 1);
                assert(pins_before(folders@, i + 1) == pins_before(folders@, i as int)
                    + folder.pins@.len());
            }
            let mut notes: Vec<Note> = Vec::new();
            let mut j: usize = 0;
            while j < folder.pins.len()
                invariant
                    j <= folder.pins@.len(),
                    first + folder.pins@.len() < u64::MAX + 1,
                    next == first + j,
                    notes@.len() == j,
                    forall|k: int|
                        0 <= k < j ==> #[trigger] notes@[k]@ == parsed(
                            folder.pins@[k].text@,
                            (first + k) as u64,
                        ),
                    held_view(held@) == held_so_far + held_in(*folder, first, j as int),
                decreases folder.pins@.len() - j,
            {
                let ghost before = held@;
                let f = &folder.pins[j];
                notes.push(parse_pin(&f.text, next));
                held.push(
                    Held {
                        id: next,
                        board: folder.name.clone(),
                        name: f.name.clone(),
                        text: Some(f.text.clone()),
                    },
                );
                proof {
                    let one = held@.last()@;
                    assert(held_view(held@) =~= held_view(before).push(one));
                    assert(held_in(*folder, first, j + 1) =~= held_in(
                        *folder,
                        first,
                        j as int,
                    ).push(one));
                    assert(held_view(held@) =~= held_so_far + held_in(*folder, first, j + 1));
                }
                next += 1;
                j += 1;
            }
            let board = Board { name: folder.name.clone(), notes };
            proof {
                assert(board@.notes =~= board_in(*folder, first).notes);
            }
            boards.push(board);
            i += 1;
        }
        self.held = held;
        proof {
            assert(boards_view(boards@) =~= boards_in(folders@));
        }
        boards
    }
}

// ---- deleting a board ----

impl FileStore {
    /// Remove a board's directory, and with it files this store never loaded: a
    /// world is its directory. The store still knows which file each pin came
    /// from, so an undo can put them back where they were.
    pub fn delete_board(&self, name: &str, folders: &[String]) -> (out: Result<Change, StoreError>)
        ensures
            match out {
                Ok(change) => strs(folders@).contains(name@) && change@
                    == (ChangeView::RemoveFolder { board: name@ }),
                Err(e) => !strs(folders@).contains(name@) && e is NotFound && e->NotFound_0@
                    == name@,
            },
    {
        let mut i: usize = 0;
        while i < folders.len()
            invariant
                i <= folders@.len(),
                forall|k: int| 0 <= k < i ==> strs(folders@)[k] != name@,
            decreases folders@.len() - i,
        {
            if same_str(&folders[i], name) {
                proof {
                    assert(strs(folders@)[i as int] == name@);
                }
                return Ok(Change::RemoveFolder { board: name.to_owned() });
            }
            i += 1;
        }
        Err(StoreError::NotFound(name.to_owned()))
    }
}

/// What to tell the user of pins a save left alone: where they are, or how many
/// there are if they are too many to list.
pub open spec fn skipped_warning(skipped: Seq<Seq<char>>) -> Option<Seq<char>> {
    if skipped.len() == 0 {
        None
    } else {
        let head = "! "@ + decimal(skipped.len()) + if skipped.len() == 1 {
            " pin changed on disk and was not overwritten"@
        } else {
            " pins changed on disk and were not overwritten"@
        };
        Some(
            if skipped.len() > 3 {
                head
            } else {
                head + ": "@ + listed(skipped)
            },
        )
    }
}

/// Names with commas between them.
pub open spec fn listed(names: Seq<Seq<char>>) -> Seq<char>
    decreases names.len(),
{
    if names.len() == 0 {
        Seq::empty()
    } else if names.len() == 1 {
        names[0]
    } else {
        listed(names.drop_last()) + ", "@ + names.last()
    }
}

/// The warning for pins a save left alone, if there were any.
pub fn warn_of_skipped(skipped: &[String]) -> (out: Option<String>)
    ensures
        opt_str(out) == skipped_warning(strs(skipped@)),
{
    if skipped.len() == 0 {
        return None;
    }
    let mut out = chars_of("! ");
    push_decimal(&mut out, skipped.len() as u64);
    if skipped.len() == 1 {
        push_text(&mut out, " pin changed on disk and was not overwritten");
    } else {
        push_text(&mut out, " pins changed on disk and were not overwritten");
    }
    if skipped.len() <= 3 {
        push_text(&mut out, ": ");
        let ghost head = out@;
        push_text(&mut out, &skipped[0]);
        let mut i: usize = 1;
        proof {
            assert(strs(skipped@).take(1).len() == 1);
            assert(strs(skipped@).take(1)[0] == skipped@[0]@);
        }
        while i < skipped.len()
            invariant
                1 <= i <= skipped@.len(),
                out@ == head + listed(strs(skipped@).take(i as int)),
            decreases skipped@.len() - i,
        {
            proof {
                let some = strs(skipped@).take(i + 1);
                assert(some.drop_last() =~= strs(skipped@).take(i as int));
            }
            push_text(&mut out, ", ");
            push_text(&mut out, &skipped[i]);
            proof {
                assert(out@ =~= head + listed(strs(skipped@).take(i + 1)));
            }
            i += 1;
        }
        proof {
            assert(strs(skipped@).take(i as int) =~= strs(skipped@));
            assert(out@ =~= skipped_warning(strs(skipped@))->0);
        }
    } else {
        proof {
            assert(out@ =~= skipped_warning(strs(skipped@))->0);
        }
    }
    Some(string_of(&out))
}

proof fn lemma_pins_before(folders: Seq<Folder>, n: int)
    requires
        0 <= n <= folders.len(),
    ensures
        0 <= pins_before(folders, n) <= pins_before(folders, folders.len() as int),
    decreases folders.len() - n,
{
    if n < folders.len() {
        lemma_pins_before(folders, n + 1);
    }
    lemma_pins_before_nonneg(folders, n);
}

proof fn lemma_pins_before_nonneg(folders: Seq<Folder>, n: int)
    ensures
        0 <= pins_before(folders, n),
    decreases n,
{
    if n > 0 {
        lemma_pins_before_nonneg(folders, n - 1);
    }
}

// ---- what counts ----

/// A markdown file is a pin, unless its name starts with a dot; nothing else is.
pub proof fn law_which_files_are_pins(stem: Seq<char>, name: Seq<char>)
    ensures
        stem.len() > 0 && stem[0] != '.' ==> names_a_pin(stem + ".md"@),
        name.len() > 0 && name[0] == '.' ==> !names_a_pin(name),
        names_a_pin(name) ==> name.len() > 3 && name == name.take(name.len() - 3) + ".md"@,
{
    reveal_strlit(".md");
    let whole = stem + ".md"@;
    assert(whole.skip(whole.len() - 3) =~= ".md"@);
    if names_a_pin(name) {
        assert(name.skip(name.len() - 3) == ".md"@);
        assert(name =~= name.take(name.len() - 3) + name.skip(name.len() - 3));
        assert(name.skip(name.len() - 3)[0] == name[name.len() - 3]);
    }
}

/// A board is a directory that is not hidden: each one there is listed, and nothing
/// else is.
pub proof fn law_which_directories_are_boards(entries: Seq<Entry>, name: Seq<char>)
    ensures
        boards_among(entries).contains(name) <==> exists|i: int|
            0 <= i < entries.len() && (#[trigger] entries[i]).is_dir && entries[i].name@ == name && !(
            name.len() > 0 && name[0] == '.'),
    decreases entries.len(),
{
    if entries.len() > 0 {
        let less = entries.drop_last();
        let last = entries.last();
        law_which_directories_are_boards(less, name);
        assert(entries[entries.len() - 1] == last);
        assert(forall|i: int| 0 <= i < less.len() ==> #[trigger] less[i] == entries[i]);
        let rest = boards_among(less);
        if last.is_dir && !hidden(last.name@) {
            let all = rest.push(last.name@);
            assert(all[rest.len() as int] == last.name@);
            if rest.contains(name) {
                let k = choose|k: int| 0 <= k < rest.len() && rest[k] == name;
                assert(all[k] == name);
            }
        }
        if exists|i: int|
            0 <= i < entries.len() && (#[trigger] entries[i]).is_dir && entries[i].name@ == name && !(
            name.len() > 0 && name[0] == '.') {
            let i = choose|i: int|
                0 <= i < entries.len() && (#[trigger] entries[i]).is_dir && entries[i].name@ == name
                    && !(name.len() > 0 && name[0] == '.');
            if i < less.len() {
                assert(less[i].is_dir);
            }
        }
    }
}

/// The pins of a board are the names that are pins: each one there is listed, and
/// nothing else is.
pub proof fn law_which_names_are_listed(names: Seq<Seq<char>>, name: Seq<char>)
    ensures
        pins_among(names).contains(name) <==> names.contains(name) && names_a_pin(name),
    decreases names.len(),
{
    if names.len() > 0 {
        let less = names.drop_last();
        law_which_names_are_listed(less, name);
        let rest = pins_among(less);
        if names_a_pin(names.last()) {
            let all = rest.push(names.last());
            assert(all[rest.len() as int] == names.last());
            if rest.contains(name) {
                let k = choose|k: int| 0 <= k < rest.len() && rest[k] == name;
                assert(all[k] == name);
            }
        }
        if names.contains(name) {
            let i = choose|i: int| 0 <= i < names.len() && names[i] == name;
            if i < less.len() {
                assert(less[i] == name);
            }
        }
        if less.contains(name) {
            let i = choose|i: int| 0 <= i < less.len() && less[i] == name;
            assert(names[i] == name);
        }
        assert(names.contains(names.last()));
    }
}

} // verus!

//! What a load finds after a save.

use crate::disk::{done, ChangeView};
use crate::files::{boards_in, hidden, marker, names_a_pin, pins_before, Folder, HeldView};
use crate::model::{BoardView, NoteView};
use crate::pinfile::{parsed, rendered};
use crate::naming::slug_of;
use crate::saving::{candidate, claims, first_free, held_at, key, saved, stem_in, Saving};
use crate::saving_laws::{
    as_known, as_read, good_record, has_id, ids_differ, law_a_saved_pin_is_in_its_file,
    lemma_boards_list, lemma_boards_marked, lemma_held_at, lemma_prune_marks_nothing,
    lemma_prune_removes, marked_right, name_for, names_differ, pins, pins_on,
};
use vstd::prelude::*;

verus! {

// ---- where a save puts files ----

/// A board of a name is among them.
pub open spec fn has_board(boards: Seq<BoardView>, name: Seq<char>) -> bool {
    exists|i: int| 0 <= i < boards.len() && (#[trigger] boards[i]).name == name
}

proof fn lemma_notes_stay_on_board(
    s: Saving,
    board: Seq<char>,
    notes: Seq<NoteView>,
    held: Seq<HeldView>,
    stamp: Seq<char>,
    spot: (Seq<char>, Seq<char>),
)
    requires
        spot.0 != board,
        s.notes(board, notes, held, stamp).disk.contains_key(spot),
    ensures
        s.disk.contains_key(spot),
    decreases notes.len(),
{
    if notes.len() > 0 {
        lemma_notes_stay_on_board(s, board, notes.drop_last(), held, stamp, spot);
    }
}

/// A save makes no file outside the directories of the boards it saves.
proof fn lemma_saved_on_boards(
    disk: Map<(Seq<char>, Seq<char>), Option<Seq<char>>>,
    boards: Seq<BoardView>,
    held: Seq<HeldView>,
    stamp: Seq<char>,
    spot: (Seq<char>, Seq<char>),
)
    requires
        !has_board(boards, spot.0),
        Saving::start(disk).boards(boards, held, stamp).disk.contains_key(spot),
    ensures
        disk.contains_key(spot),
    decreases boards.len(),
{
    if boards.len() > 0 {
        let fewer = boards.drop_last();
        let b = boards.last();
        assert(boards[boards.len() - 1].name != spot.0);
        let opened = Saving::start(disk).boards(fewer, held, stamp).change(
            ChangeView::MakeFolder { board: b.name },
        );
        lemma_notes_stay_on_board(opened, b.name, b.notes, held, stamp, spot);
        if has_board(fewer, spot.0) {
            let i = choose|i: int| 0 <= i < fewer.len() && (#[trigger] fewer[i]).name == spot.0;
            assert(boards[i].name == spot.0);
        }
        lemma_saved_on_boards(disk, fewer, held, stamp, spot);
    }
}

/// Clearing away only takes away.
proof fn lemma_prune_adds_nothing(s: Saving, held: Seq<HeldView>, spot: (Seq<char>, Seq<char>))
    requires
        s.prune(held).disk.contains_key(spot),
    ensures
        s.disk.contains_key(spot),
        s.prune(held).disk[spot] == s.disk[spot],
    decreases held.len(),
{
    if held.len() > 0 {
        lemma_prune_adds_nothing(s, held.drop_last(), spot);
    }
}

/// A deleted world stays deleted: a save of boards without it puts nothing back
/// into its directory, whatever the store still knows of its pins.
pub proof fn law_a_deleted_world_stays_deleted(
    disk: Map<(Seq<char>, Seq<char>), Option<Seq<char>>>,
    boards: Seq<BoardView>,
    held: Seq<HeldView>,
    stamp: Seq<char>,
    name: Seq<char>,
)
    requires
        !has_board(boards, name),
    ensures
        forall|f: Seq<char>|
            !(#[trigger] saved(
                done(disk, ChangeView::RemoveFolder { board: name }),
                boards,
                held,
                stamp,
            ).disk.contains_key((name, f))),
{
    let left = done(disk, ChangeView::RemoveFolder { board: name });
    let s = Saving::start(left).boards(boards, held, stamp);
    assert forall|f: Seq<char>| !(#[trigger] saved(left, boards, held, stamp).disk.contains_key(
        (name, f),
    )) by {
        if saved(left, boards, held, stamp).disk.contains_key((name, f)) {
            lemma_prune_adds_nothing(s, held, (name, f));
            lemma_saved_on_boards(left, boards, held, stamp, (name, f));
        }
    }
}

// ---- no pin file but the pins' ----

/// A pin file is that of a pin already saved, or of one still to come.
spec fn accounted(
    s: Saving,
    seen: Seq<(Seq<char>, NoteView)>,
    held: Seq<HeldView>,
    spot: (Seq<char>, Seq<char>),
) -> bool {
    ||| exists|k: int| 0 <= k < s.held.len() && key(#[trigger] s.held[k]) == spot
    ||| exists|a: int|
        0 <= a < held.len() && key(#[trigger] held[a]) == spot && !has_id(seen, held[a].id)
}

spec fn all_accounted(s: Saving, seen: Seq<(Seq<char>, NoteView)>, held: Seq<HeldView>) -> bool {
    forall|spot: (Seq<char>, Seq<char>)|
        s.disk.contains_key(spot) && names_a_pin(spot.1) ==> #[trigger] accounted(
            s,
            seen,
            held,
            spot,
        )
}

proof fn lemma_note_accounted(
    s: Saving,
    seen: Seq<(Seq<char>, NoteView)>,
    pin: (Seq<char>, NoteView),
    held: Seq<HeldView>,
    stamp: Seq<char>,
)
    requires
        all_accounted(s, seen, held),
        good_record(held),
    ensures
        all_accounted(s.note(pin.0, pin.1, held, stamp), seen.push(pin), held),
{
    let t = s.note(pin.0, pin.1, held, stamp);
    let more = seen.push(pin);
    let id = pin.1.id;
    let own = (pin.0, name_for(s.disk, pin.0, pin.1, held, stamp));
    let n = s.held.len() as int;
    assert(t.held.len() == n + 1 && key(t.held[n]) == own);
    lemma_held_at(held, id);
    assert forall|spot: (Seq<char>, Seq<char>)|
        t.disk.contains_key(spot) && names_a_pin(spot.1) implies #[trigger] accounted(
        t,
        more,
        held,
        spot,
    ) by {
        if spot == own {
            assert(key(t.held[n]) == spot);
        } else {
            assert(s.disk.contains_key(spot));
            assert(accounted(s, seen, held, spot));
            if exists|k: int| 0 <= k < s.held.len() && key(#[trigger] s.held[k]) == spot {
                let k = choose|k: int| 0 <= k < s.held.len() && key(#[trigger] s.held[k]) == spot;
                assert(t.held[k] == s.held[k]);
            } else {
                let a = choose|a: int|
                    0 <= a < held.len() && key(#[trigger] held[a]) == spot && !has_id(
                        seen,
                        held[a].id,
                    );
                if held[a].id == id {
                    let c = choose|c: int|
                        0 <= c < held.len() && #[trigger] held[c] == held_at(held, id)->0
                            && held[c].id == id;
                    assert(a == c);
                }
                if has_id(more, held[a].id) {
                    let k = choose|k: int|
                        0 <= k < more.len() && (#[trigger] more[k]).1.id == held[a].id;
                    if k < seen.len() {
                        assert(seen[k].1.id == held[a].id);
                    }
                }
            }
        }
    }
}

proof fn lemma_notes_accounted(
    s: Saving,
    seen: Seq<(Seq<char>, NoteView)>,
    b: BoardView,
    m: int,
    held: Seq<HeldView>,
    stamp: Seq<char>,
)
    requires
        all_accounted(s, seen, held),
        good_record(held),
        0 <= m <= b.notes.len(),
    ensures
        all_accounted(
            s.notes(b.name, b.notes.take(m), held, stamp),
            seen + pins_on(b).take(m),
            held,
        ),
    decreases m,
{
    if m == 0 {
        assert(b.notes.take(0) =~= Seq::empty());
        assert(seen + pins_on(b).take(0) =~= seen);
    } else {
        lemma_notes_accounted(s, seen, b, m - 1, held, stamp);
        assert(b.notes.take(m).drop_last() =~= b.notes.take(m - 1));
        let before = seen + pins_on(b).take(m - 1);
        let pin = pins_on(b)[m - 1];
        lemma_note_accounted(
            s.notes(b.name, b.notes.take(m - 1), held, stamp),
            before,
            pin,
            held,
            stamp,
        );
        assert(before.push(pin) =~= seen + pins_on(b).take(m));
    }
}

/// Other files, and what was listed, are no matter.
proof fn lemma_still_accounted(
    s: Saving,
    t: Saving,
    seen: Seq<(Seq<char>, NoteView)>,
    held: Seq<HeldView>,
)
    requires
        all_accounted(s, seen, held),
        t.held == s.held,
        forall|spot: (Seq<char>, Seq<char>)|
            t.disk.contains_key(spot) && names_a_pin(spot.1) ==> #[trigger] s.disk.contains_key(
                spot,
            ),
    ensures
        all_accounted(t, seen, held),
{
    assert forall|spot: (Seq<char>, Seq<char>)|
        t.disk.contains_key(spot) && names_a_pin(spot.1) implies #[trigger] accounted(
        t,
        seen,
        held,
        spot,
    ) by {
        assert(s.disk.contains_key(spot));
        assert(accounted(s, seen, held, spot));
    }
}

proof fn lemma_boards_accounted(
    disk: Map<(Seq<char>, Seq<char>), Option<Seq<char>>>,
    boards: Seq<BoardView>,
    held: Seq<HeldView>,
    stamp: Seq<char>,
)
    requires
        good_record(held),
        only_held(disk, held),
    ensures
        all_accounted(Saving::start(disk).boards(boards, held, stamp), pins(boards), held),
    decreases boards.len(),
{
    if boards.len() == 0 {
        let s = Saving::start(disk);
        assert forall|spot: (Seq<char>, Seq<char>)|
            s.disk.contains_key(spot) && names_a_pin(spot.1) implies #[trigger] accounted(
            s,
            pins(boards),
            held,
            spot,
        ) by {
            assert(is_held_at(held, spot));
        }
        assert(s.boards(boards, held, stamp) == s);
    } else {
        let b = boards.last();
        let fewer = boards.drop_last();
        lemma_boards_accounted(disk, fewer, held, stamp);
        let before = Saving::start(disk).boards(fewer, held, stamp);
        let opened = before.change(ChangeView::MakeFolder { board: b.name });
        lemma_still_accounted(before, opened, pins(fewer), held);
        lemma_notes_accounted(opened, pins(fewer), b, b.notes.len() as int, held, stamp);
        assert(b.notes.take(b.notes.len() as int) =~= b.notes);
        assert(pins_on(b).take(b.notes.len() as int) =~= pins_on(b));
        let filled = opened.notes(b.name, b.notes, held, stamp);
        reveal_strlit(".gitkeep");
        assert(hidden(marker()));
        lemma_still_accounted(filled, filled.mark(b), pins(boards), held);
    }
}

// ---- a save, then a load ----

/// A held pin has its file at a place.
pub open spec fn is_held_at(held: Seq<HeldView>, spot: (Seq<char>, Seq<char>)) -> bool {
    exists|a: int| 0 <= a < held.len() && key(#[trigger] held[a]) == spot
}

/// Every pin file there is has been read by the store.
pub open spec fn only_held(
    disk: Map<(Seq<char>, Seq<char>), Option<Seq<char>>>,
    held: Seq<HeldView>,
) -> bool {
    forall|spot: (Seq<char>, Seq<char>)|
        disk.contains_key(spot) && names_a_pin(spot.1) ==> #[trigger] is_held_at(held, spot)
}

/// Every file is in the directory of one of the boards.
pub open spec fn only_boards(
    disk: Map<(Seq<char>, Seq<char>), Option<Seq<char>>>,
    boards: Seq<BoardView>,
) -> bool {
    forall|spot: (Seq<char>, Seq<char>)| #[trigger]
        disk.contains_key(spot) ==> has_board(boards, spot.0)
}

/// The `j`-th pin read from the `f`-th folder is from the file of a held pin.
pub open spec fn is_file_of(folders: Seq<Folder>, f: int, j: int, h: HeldView) -> bool {
    &&& 0 <= f < folders.len()
    &&& 0 <= j < folders[f].pins@.len()
    &&& folders[f].name@ == h.board
    &&& folders[f].pins@[j].name@ == h.name
}

/// A pin was read from the file of a held pin.
pub open spec fn is_read(folders: Seq<Folder>, h: HeldView) -> bool {
    exists|f: int, j: int| #[trigger] is_file_of(folders, f, j, h)
}

/// The `j`-th pin of the `f`-th board that was loaded is one of the pins, as it is
/// read from its file.
pub open spec fn is_of_a_pin(
    folders: Seq<Folder>,
    f: int,
    j: int,
    held: Seq<HeldView>,
    pins: Seq<(Seq<char>, NoteView)>,
) -> bool {
    exists|k: int|
        0 <= k < pins.len() && #[trigger] is_file_of(folders, f, j, held[k]) && boards_in(
            folders,
        )[f].notes[j] == as_read(pins[k].1, boards_in(folders)[f].notes[j].id)
}

/// A place is the file a pin was read from.
pub open spec fn is_read_at(
    folders: Seq<Folder>,
    f: int,
    j: int,
    spot: (Seq<char>, Seq<char>),
) -> bool {
    &&& 0 <= f < folders.len()
    &&& 0 <= j < folders[f].pins@.len()
    &&& (folders[f].name@, folders[f].pins@[j].name@) == spot
}

/// Folders that are a listing of a disk: every directory that has a file in it,
/// and in each every pin file, with what it holds, once.
pub open spec fn lists_disk(
    folders: Seq<Folder>,
    disk: Map<(Seq<char>, Seq<char>), Option<Seq<char>>>,
) -> bool {
    &&& forall|f: int, g: int|
        0 <= f < g < folders.len() ==> (#[trigger] folders[f]).name@ != (#[trigger] folders[g]).name@
    &&& forall|f: int|
        0 <= f < folders.len() ==> exists|file: Seq<char>| #[trigger]
            disk.contains_key(((#[trigger] folders[f]).name@, file))
    &&& forall|spot: (Seq<char>, Seq<char>)| #[trigger]
        disk.contains_key(spot) && !hidden(spot.0) ==> has_folder(folders, spot.0)
    &&& forall|f: int, i: int, j: int|
        0 <= f < folders.len() && 0 <= i < j < folders[f].pins@.len() ==> (
        #[trigger] folders[f].pins@[i]).name@ != (#[trigger] folders[f].pins@[j]).name@
    &&& forall|f: int, j: int|
        0 <= f < folders.len() && 0 <= j < folders[f].pins@.len() ==> {
            let pin = #[trigger] folders[f].pins@[j];
            &&& names_a_pin(pin.name@)
            &&& disk.contains_key((folders[f].name@, pin.name@))
            &&& disk[(folders[f].name@, pin.name@)] == Some(pin.text@)
        }
    &&& forall|spot: (Seq<char>, Seq<char>)| #[trigger]
        disk.contains_key(spot) && !hidden(spot.0) && names_a_pin(spot.1) ==> exists|
            f: int,
            j: int,
        | #[trigger] is_read_at(folders, f, j, spot)
}

pub open spec fn has_folder(folders: Seq<Folder>, name: Seq<char>) -> bool {
    exists|f: int| 0 <= f < folders.len() && (#[trigger] folders[f]).name@ == name
}

/// Names a load looks at: every held pin's, and every one that starts with the
/// stamp.
pub open spec fn in_plain_sight(held: Seq<HeldView>, stamp: Seq<char>) -> bool {
    &&& forall|a: int| 0 <= a < held.len() ==> names_a_pin((#[trigger] held[a]).name)
    &&& stamp.len() > 0 && !hidden(stamp)
}

proof fn lemma_candidate_names(stem: Seq<char>, n: nat)
    requires
        stem.len() > 0,
        !hidden(stem),
    ensures
        names_a_pin(candidate(stem, n)),
{
    reveal_strlit(".md");
    let name = candidate(stem, n);
    assert(name.skip(name.len() - 3) =~= ".md"@);
    assert(name[0] == stem[0]);
}

proof fn lemma_name_in_sight(
    disk: Map<(Seq<char>, Seq<char>), Option<Seq<char>>>,
    board: Seq<char>,
    n: NoteView,
    held: Seq<HeldView>,
    stamp: Seq<char>,
)
    requires
        in_plain_sight(held, stamp),
    ensures
        names_a_pin(name_for(disk, board, n, held, stamp)),
{
    let taken = claims(disk, held);
    lemma_held_at(held, n.id);
    match held_at(held, n.id) {
        Some(h) => {
            assert(names_a_pin(h.name));
            let stem = stem_in(h.name);
            reveal_strlit(".md");
            if stem.len() == 0 {
                assert(h.name.skip(0) =~= h.name);
                assert(".md"@[0] == '.');
            }
            lemma_candidate_names(
                stem,
                choose|k: nat| #[trigger] first_free(taken, board, stem, k),
            );
        },
        None => {
            let stem = stamp + "-"@ + slug_of(n.title);
            assert(stem[0] == stamp[0]);
            lemma_candidate_names(
                stem,
                choose|k: nat| #[trigger] first_free(taken, board, stem, k),
            );
        },
    }
}

spec fn all_in_sight(s: Saving) -> bool {
    forall|k: int| 0 <= k < s.held.len() ==> names_a_pin((#[trigger] s.held[k]).name)
}

proof fn lemma_notes_in_sight(
    s: Saving,
    board: Seq<char>,
    notes: Seq<NoteView>,
    held: Seq<HeldView>,
    stamp: Seq<char>,
)
    requires
        all_in_sight(s),
        in_plain_sight(held, stamp),
    ensures
        all_in_sight(s.notes(board, notes, held, stamp)),
    decreases notes.len(),
{
    if notes.len() > 0 {
        lemma_notes_in_sight(s, board, notes.drop_last(), held, stamp);
        let t = s.notes(board, notes.drop_last(), held, stamp);
        let u = t.note(board, notes.last(), held, stamp);
        lemma_name_in_sight(t.disk, board, notes.last(), held, stamp);
        assert(u.held.drop_last() =~= t.held);
        assert forall|k: int| 0 <= k < u.held.len() implies names_a_pin(
            (#[trigger] u.held[k]).name,
        ) by {
            if k < t.held.len() {
                assert(u.held.drop_last()[k] == t.held[k]);
            } else {
                assert(u.held[k].name == name_for(t.disk, board, notes.last(), held, stamp));
            }
        }
    }
}

proof fn lemma_boards_in_sight(
    disk: Map<(Seq<char>, Seq<char>), Option<Seq<char>>>,
    boards: Seq<BoardView>,
    held: Seq<HeldView>,
    stamp: Seq<char>,
)
    requires
        in_plain_sight(held, stamp),
    ensures
        all_in_sight(Saving::start(disk).boards(boards, held, stamp)),
    decreases boards.len(),
{
    if boards.len() > 0 {
        let b = boards.last();
        let fewer = boards.drop_last();
        lemma_boards_in_sight(disk, fewer, held, stamp);
        let opened = Saving::start(disk).boards(fewer, held, stamp).change(
            ChangeView::MakeFolder { board: b.name },
        );
        lemma_notes_in_sight(opened, b.name, b.notes, held, stamp);
    }
}

/// The pins of a board are among all the pins.
proof fn lemma_pin_is_listed(boards: Seq<BoardView>, i: int) -> (k: int)
    requires
        0 <= i < boards.len(),
        boards[i].notes.len() > 0,
    ensures
        0 <= k < pins(boards).len(),
        pins(boards)[k].0 == boards[i].name,
    decreases boards.len(),
{
    let before = pins(boards.drop_last());
    if i == boards.len() - 1 {
        assert(pins(boards)[before.len() as int] == pins_on(boards.last())[0]);
        before.len() as int
    } else {
        assert(boards.drop_last()[i] == boards[i]);
        let k = lemma_pin_is_listed(boards.drop_last(), i);
        assert(pins(boards)[k] == before[k]);
        k
    }
}

/// A pin that is listed is on a board of that name.
proof fn lemma_listed_is_on_board(boards: Seq<BoardView>, k: int)
    requires
        0 <= k < pins(boards).len(),
    ensures
        has_board(boards, pins(boards)[k].0),
    decreases boards.len(),
{
    let before = pins(boards.drop_last());
    if k < before.len() {
        lemma_listed_is_on_board(boards.drop_last(), k);
        let i = choose|i: int|
            0 <= i < boards.drop_last().len() && (#[trigger] boards.drop_last()[i]).name
                == before[k].0;
        assert(boards[i].name == before[k].0);
    } else {
        assert(boards[boards.len() - 1].name == pins(boards)[k].0);
    }
}

/// What the pin files of a disk are, after a save: those of the pins, each its
/// own, and no others.
proof fn lemma_pin_files(
    disk: Map<(Seq<char>, Seq<char>), Option<Seq<char>>>,
    boards: Seq<BoardView>,
    held: Seq<HeldView>,
    stamp: Seq<char>,
    spot: (Seq<char>, Seq<char>),
)
    requires
        good_record(held),
        only_held(disk, held),
        saved(disk, boards, held, stamp).disk.contains_key(spot),
        names_a_pin(spot.1),
    ensures
        is_held_at(saved(disk, boards, held, stamp).held, spot),
{
    let s = Saving::start(disk).boards(boards, held, stamp);
    lemma_boards_accounted(disk, boards, held, stamp);
    lemma_boards_list(disk, boards, held, stamp);
    lemma_prune_adds_nothing(s, held, spot);
    lemma_prune_removes(s, held.len() as int, held);
    assert(held.take(held.len() as int) =~= held);
    assert(accounted(s, pins(boards), held, spot));
    if exists|a: int|
        0 <= a < held.len() && key(#[trigger] held[a]) == spot && !has_id(pins(boards), held[a].id) {
        let a = choose|a: int|
            0 <= a < held.len() && key(#[trigger] held[a]) == spot && !has_id(
                pins(boards),
                held[a].id,
            );
        lemma_held_at(s.held, held[a].id);
        if held_at(s.held, held[a].id) is Some {
            let k = choose|k: int|
                0 <= k < s.held.len() && #[trigger] s.held[k] == held_at(s.held, held[a].id)->0
                    && s.held[k].id == held[a].id;
            assert(pins(boards)[k].1.id == held[a].id);
        }
    }
}

/// A save that no other writer disturbs, of boards a load looks at: the store has
/// read every pin file there is and knows what it holds, there are no other
/// directories, no two boards or pins go by one name or id, and a title is one
/// line.
pub open spec fn undisturbed(
    disk: Map<(Seq<char>, Seq<char>), Option<Seq<char>>>,
    boards: Seq<BoardView>,
    held: Seq<HeldView>,
    stamp: Seq<char>,
) -> bool {
    &&& disk.dom().finite()
    &&& good_record(held)
    &&& as_known(disk, held)
    &&& in_plain_sight(held, stamp)
    &&& only_held(disk, held)
    &&& only_boards(disk, boards)
    &&& ids_differ(pins(boards))
    &&& names_differ(boards)
    &&& forall|i: int| 0 <= i < boards.len() ==> !hidden((#[trigger] boards[i]).name)
    &&& forall|k: int|
        0 <= k < pins(boards).len() ==> !(#[trigger] pins(boards)[k]).1.title.contains('\n')
}

proof fn lemma_board_is_loaded(
    disk: Map<(Seq<char>, Seq<char>), Option<Seq<char>>>,
    boards: Seq<BoardView>,
    held: Seq<HeldView>,
    stamp: Seq<char>,
    folders: Seq<Folder>,
    i: int,
)
    requires
        undisturbed(disk, boards, held, stamp),
        lists_disk(folders, saved(disk, boards, held, stamp).disk),
        0 <= i < boards.len(),
    ensures
        has_board(boards_in(folders), boards[i].name),
{
    let s = saved(disk, boards, held, stamp);
    let kept = Saving::start(disk).boards(boards, held, stamp);
    let name = boards[i].name;
    if boards[i].notes.len() > 0 {
        law_a_saved_pin_is_in_its_file(disk, boards, held, stamp);
        let k = lemma_pin_is_listed(boards, i);
        assert(s.held[k].board == name);
        assert(s.disk.contains_key((name, s.held[k].name)));
    } else {
        lemma_boards_marked(boards, disk, held, stamp);
        assert(marked_right(kept.disk, boards[i]));
        lemma_prune_marks_nothing(kept, held, name);
        assert(s.disk.contains_key((name, marker())));
    }
    assert(has_folder(folders, name));
    let f = choose|f: int| 0 <= f < folders.len() && (#[trigger] folders[f]).name@ == name;
    assert(boards_in(folders)[f].name == name);
}

proof fn lemma_loaded_is_board(
    disk: Map<(Seq<char>, Seq<char>), Option<Seq<char>>>,
    boards: Seq<BoardView>,
    held: Seq<HeldView>,
    stamp: Seq<char>,
    folders: Seq<Folder>,
    f: int,
)
    requires
        undisturbed(disk, boards, held, stamp),
        lists_disk(folders, saved(disk, boards, held, stamp).disk),
        0 <= f < folders.len(),
    ensures
        has_board(boards, folders[f].name@),
{
    let s = saved(disk, boards, held, stamp);
    let kept = Saving::start(disk).boards(boards, held, stamp);
    let name = folders[f].name@;
    let file = choose|file: Seq<char>| #[trigger] s.disk.contains_key((folders[f].name@, file));
    lemma_prune_adds_nothing(kept, held, (name, file));
    if !has_board(boards, name) {
        lemma_saved_on_boards(disk, boards, held, stamp, (name, file));
    }
}

proof fn lemma_pin_is_loaded(
    disk: Map<(Seq<char>, Seq<char>), Option<Seq<char>>>,
    boards: Seq<BoardView>,
    held: Seq<HeldView>,
    stamp: Seq<char>,
    folders: Seq<Folder>,
    k: int,
)
    requires
        undisturbed(disk, boards, held, stamp),
        lists_disk(folders, saved(disk, boards, held, stamp).disk),
        0 <= k < pins(boards).len(),
    ensures
        is_read(folders, saved(disk, boards, held, stamp).held[k]),
{
    let s = saved(disk, boards, held, stamp);
    let kept = Saving::start(disk).boards(boards, held, stamp);
    law_a_saved_pin_is_in_its_file(disk, boards, held, stamp);
    lemma_boards_in_sight(disk, boards, held, stamp);
    lemma_prune_removes(kept, held.len() as int, held);
    assert(held.take(held.len() as int) =~= held);
    let h = s.held[k];
    let spot = (h.board, h.name);
    assert(names_a_pin(kept.held[k].name));
    lemma_listed_is_on_board(boards, k);
    let i = choose|i: int|
        0 <= i < boards.len() && (#[trigger] boards[i]).name == pins(boards)[k].0;
    assert(!hidden(boards[i].name));
    assert(s.disk.contains_key(spot));
    let (f, j) = choose|f: int, j: int| #[trigger] is_read_at(folders, f, j, spot);
    assert(is_file_of(folders, f, j, h));
}

proof fn lemma_loaded_is_pin(
    disk: Map<(Seq<char>, Seq<char>), Option<Seq<char>>>,
    boards: Seq<BoardView>,
    held: Seq<HeldView>,
    stamp: Seq<char>,
    folders: Seq<Folder>,
    f: int,
    j: int,
) -> (k: int)
    requires
        undisturbed(disk, boards, held, stamp),
        lists_disk(folders, saved(disk, boards, held, stamp).disk),
        0 <= f < folders.len(),
        0 <= j < folders[f].pins@.len(),
    ensures
        0 <= k < pins(boards).len(),
        is_file_of(folders, f, j, saved(disk, boards, held, stamp).held[k]),
        forall|id: u64| #[trigger]
            parsed(folders[f].pins@[j].text@, id) == as_read(pins(boards)[k].1, id),
{
    let s = saved(disk, boards, held, stamp);
    let pin = folders[f].pins@[j];
    let spot = (folders[f].name@, pin.name@);
    law_a_saved_pin_is_in_its_file(disk, boards, held, stamp);
    assert(names_a_pin(pin.name@));
    lemma_pin_files(disk, boards, held, stamp, spot);
    let k = choose|k: int| 0 <= k < s.held.len() && key(#[trigger] s.held[k]) == spot;
    assert(s.disk[spot] == Some(rendered(pins(boards)[k].1)));
    assert forall|id: u64| #[trigger]
        parsed(folders[f].pins@[j].text@, id) == as_read(pins(boards)[k].1, id) by {
        crate::pinfile::law_a_pin_round_trips(pins(boards)[k].1, id);
    }
    k
}

/// What was saved is what is loaded: the boards that were saved, by name, and on
/// them their pins, each from its own file and rounded as its file rounds it, and
/// no board or pin besides.
pub proof fn law_what_was_saved_is_loaded(
    disk: Map<(Seq<char>, Seq<char>), Option<Seq<char>>>,
    boards: Seq<BoardView>,
    held: Seq<HeldView>,
    stamp: Seq<char>,
    folders: Seq<Folder>,
)
    requires
        undisturbed(disk, boards, held, stamp),
        lists_disk(folders, saved(disk, boards, held, stamp).disk),
    ensures
        ({
            let s = saved(disk, boards, held, stamp);
            let loaded = boards_in(folders);
            &&& forall|i: int|
                0 <= i < boards.len() ==> has_board(loaded, (#[trigger] boards[i]).name)
            &&& forall|f: int|
                0 <= f < loaded.len() ==> has_board(boards, (#[trigger] loaded[f]).name)
            &&& forall|k: int|
                0 <= k < pins(boards).len() ==> is_read(folders, #[trigger] s.held[k])
            &&& forall|f: int, j: int|
                0 <= f < folders.len() && 0 <= j < folders[f].pins@.len() ==> #[trigger]
                    is_of_a_pin(folders, f, j, s.held, pins(boards))
            &&& forall|k: int, l: int|
                0 <= k < l < pins(boards).len() ==> key(#[trigger] s.held[k]) != key(
                    #[trigger] s.held[l],
                )
        }),
{
    let s = saved(disk, boards, held, stamp);
    let all = pins(boards);
    let loaded = boards_in(folders);
    assert forall|i: int| 0 <= i < boards.len() implies has_board(
        loaded,
        (#[trigger] boards[i]).name,
    ) by {
        lemma_board_is_loaded(disk, boards, held, stamp, folders, i);
    }
    assert forall|f: int| 0 <= f < loaded.len() implies has_board(
        boards,
        (#[trigger] loaded[f]).name,
    ) by {
        lemma_loaded_is_board(disk, boards, held, stamp, folders, f);
    }
    assert forall|k: int| 0 <= k < all.len() implies is_read(folders, #[trigger] s.held[k]) by {
        lemma_pin_is_loaded(disk, boards, held, stamp, folders, k);
    }
    assert forall|f: int, j: int|
        0 <= f < folders.len() && 0 <= j < folders[f].pins@.len() implies #[trigger] is_of_a_pin(
        folders,
        f,
        j,
        s.held,
        all,
    ) by {
        let k = lemma_loaded_is_pin(disk, boards, held, stamp, folders, f, j);
        let id = (1 + pins_before(folders, f) + j) as u64;
        assert(loaded[f].notes[j] == parsed(folders[f].pins@[j].text@, id));
        assert(is_file_of(folders, f, j, s.held[k]));
    }
    law_a_saved_pin_is_in_its_file(disk, boards, held, stamp);
}

} // verus!

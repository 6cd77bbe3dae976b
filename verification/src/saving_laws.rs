//! What a save promises of the pin directory.

use crate::changes::distinct;
use crate::coord::units;
use crate::disk::{all_done, ChangeView};
use crate::files::{marker, HeldView};
use crate::model::{BoardView, NoteView};
use crate::naming::slug_of;
use crate::pinfile::{parsed, rendered};
use crate::saving::{
    candidate, claims, first_free, fresh_name, held_at, key, lemma_claims, moved_name, saved, stem_in,
    Saving,
};
use crate::text::trim_end;
use vstd::prelude::*;

verus! {

// ---- the plan and the disk ----

proof fn lemma_tied_note(
    s: Saving,
    disk: Map<(Seq<char>, Seq<char>), Option<Seq<char>>>,
    board: Seq<char>,
    n: NoteView,
    held: Seq<HeldView>,
    stamp: Seq<char>,
)
    requires
        all_done(disk, s.changes) == s.disk,
    ensures
        all_done(disk, s.note(board, n, held, stamp).changes) == s.note(board, n, held, stamp).disk,
{
    assert forall|t: Saving, c: ChangeView| all_done(disk, t.changes) == t.disk implies all_done(
        disk,
        (#[trigger] t.change(c)).changes,
    ) == t.change(c).disk by {
        assert(t.change(c).changes.drop_last() =~= t.changes);
    }
}

proof fn lemma_tied_notes(
    s: Saving,
    disk: Map<(Seq<char>, Seq<char>), Option<Seq<char>>>,
    board: Seq<char>,
    notes: Seq<NoteView>,
    held: Seq<HeldView>,
    stamp: Seq<char>,
)
    requires
        all_done(disk, s.changes) == s.disk,
    ensures
        all_done(disk, s.notes(board, notes, held, stamp).changes) == s.notes(
            board,
            notes,
            held,
            stamp,
        ).disk,
    decreases notes.len(),
{
    if notes.len() > 0 {
        lemma_tied_notes(s, disk, board, notes.drop_last(), held, stamp);
        lemma_tied_note(
            s.notes(board, notes.drop_last(), held, stamp),
            disk,
            board,
            notes.last(),
            held,
            stamp,
        );
    }
}

proof fn lemma_tied_boards(
    s: Saving,
    disk: Map<(Seq<char>, Seq<char>), Option<Seq<char>>>,
    boards: Seq<BoardView>,
    held: Seq<HeldView>,
    stamp: Seq<char>,
)
    requires
        all_done(disk, s.changes) == s.disk,
    ensures
        all_done(disk, s.boards(boards, held, stamp).changes) == s.boards(boards, held, stamp).disk,
    decreases boards.len(),
{
    if boards.len() > 0 {
        lemma_tied_boards(s, disk, boards.drop_last(), held, stamp);
        let t = s.boards(boards.drop_last(), held, stamp);
        let b = boards.last();
        let opened = t.change(ChangeView::MakeFolder { board: b.name });
        assert(opened.changes.drop_last() =~= t.changes);
        lemma_tied_notes(opened, disk, b.name, b.notes, held, stamp);
        let filled = opened.notes(b.name, b.notes, held, stamp);
        assert forall|c: ChangeView| all_done(
            disk,
            (#[trigger] filled.change(c)).changes,
        ) == filled.change(c).disk by {
            assert(filled.change(c).changes.drop_last() =~= filled.changes);
        }
    }
}

proof fn lemma_tied_prune(
    s: Saving,
    disk: Map<(Seq<char>, Seq<char>), Option<Seq<char>>>,
    held: Seq<HeldView>,
)
    requires
        all_done(disk, s.changes) == s.disk,
    ensures
        all_done(disk, s.prune(held).changes) == s.prune(held).disk,
    decreases held.len(),
{
    if held.len() > 0 {
        lemma_tied_prune(s, disk, held.drop_last());
        let t = s.prune(held.drop_last());
        let c = ChangeView::Remove { board: held.last().board, name: held.last().name };
        assert(t.change(c).changes.drop_last() =~= t.changes);
    }
}

/// Making the changes of a plan, in order, leaves the disk the plan says it
/// leaves.
pub proof fn law_a_plan_leaves_what_it_says(
    disk: Map<(Seq<char>, Seq<char>), Option<Seq<char>>>,
    boards: Seq<BoardView>,
    held: Seq<HeldView>,
    stamp: Seq<char>,
)
    ensures
        all_done(disk, saved(disk, boards, held, stamp).changes) == saved(
            disk,
            boards,
            held,
            stamp,
        ).disk,
{
    lemma_tied_boards(Saving::start(disk), disk, boards, held, stamp);
    lemma_tied_prune(Saving::start(disk).boards(boards, held, stamp), disk, held);
}

// ---- every pin, in its file ----

/// The pins of a board, each with the board's name.
pub open spec fn pins_on(b: BoardView) -> Seq<(Seq<char>, NoteView)> {
    Seq::new(b.notes.len(), |i: int| (b.name, b.notes[i]))
}

/// Every pin, each with the name of the board it is on.
pub open spec fn pins(boards: Seq<BoardView>) -> Seq<(Seq<char>, NoteView)>
    decreases boards.len(),
{
    if boards.len() == 0 {
        Seq::empty()
    } else {
        pins(boards.drop_last()) + pins_on(boards.last())
    }
}

/// No two pins have one id.
pub open spec fn ids_differ(pins: Seq<(Seq<char>, NoteView)>) -> bool {
    forall|i: int, j: int|
        0 <= i < j < pins.len() ==> (#[trigger] pins[i]).1.id != (#[trigger] pins[j]).1.id
}

/// A store's record of its files: one pin per id, one file per pin, none of them
/// a marker.
pub open spec fn good_record(held: Seq<HeldView>) -> bool {
    &&& forall|a: int, b: int|
        0 <= a < b < held.len() ==> (#[trigger] held[a]).id != (#[trigger] held[b]).id && key(
            held[a],
        ) != key(held[b])
    &&& forall|a: int| 0 <= a < held.len() ==> (#[trigger] held[a]).name != marker()
}

/// Nothing but this store wrote to its files since it last did.
pub open spec fn as_known(
    disk: Map<(Seq<char>, Seq<char>), Option<Seq<char>>>,
    held: Seq<HeldView>,
) -> bool {
    forall|a: int|
        0 <= a < held.len() && disk.contains_key(key(#[trigger] held[a])) && disk[key(
            held[a],
        )] is Some ==> disk[key(held[a])] == held[a].text
}

/// A save that has seen some of the pins, and met no surprise.
spec fn going_well(
    s: Saving,
    seen: Seq<(Seq<char>, NoteView)>,
    disk: Map<(Seq<char>, Seq<char>), Option<Seq<char>>>,
    held: Seq<HeldView>,
) -> bool {
    &&& s.skipped.len() == 0
    &&& s.disk.dom().finite()
    &&& s.held.len() == seen.len()
    &&& forall|k: int|
        0 <= k < seen.len() ==> {
            let h = #[trigger] s.held[k];
            &&& h.id == seen[k].1.id
            &&& h.board == seen[k].0
            &&& h.text == Some(rendered(seen[k].1))
            &&& s.disk.contains_key(key(h))
            &&& s.disk[key(h)] == h.text
            &&& h.name != marker()
            &&& held_at(held, h.id) matches Some(old) ==> old.board == h.board ==> h.name
                == old.name
        }
    &&& forall|k: int, l: int|
        0 <= k < l < seen.len() ==> key(#[trigger] s.held[k]) != key(#[trigger] s.held[l])
    &&& forall|k: int, a: int|
        0 <= k < seen.len() && 0 <= a < held.len() && !has_id(seen, held[a].id) ==> key(
            #[trigger] s.held[k],
        ) != key(#[trigger] held[a])
    &&& forall|a: int|
        0 <= a < held.len() && !has_id(seen, held[a].id) ==> same_at(
            s.disk,
            disk,
            key(#[trigger] held[a]),
        )
}

/// A pin with an id is among them.
pub open spec fn has_id(seen: Seq<(Seq<char>, NoteView)>, id: u64) -> bool {
    exists|k: int| 0 <= k < seen.len() && (#[trigger] seen[k]).1.id == id
}

/// Two disks agree on a file.
spec fn same_at(
    a: Map<(Seq<char>, Seq<char>), Option<Seq<char>>>,
    b: Map<(Seq<char>, Seq<char>), Option<Seq<char>>>,
    key: (Seq<char>, Seq<char>),
) -> bool {
    a.contains_key(key) == b.contains_key(key) && (a.contains_key(key) ==> a[key] == b[key])
}

pub proof fn lemma_held_at(held: Seq<HeldView>, id: u64)
    ensures
        held_at(held, id) is Some ==> exists|a: int|
            0 <= a < held.len() && #[trigger] held[a] == held_at(held, id)->0 && held[a].id == id,
        held_at(held, id) is None ==> forall|a: int|
            0 <= a < held.len() ==> (#[trigger] held[a]).id != id,
    decreases held.len(),
{
    if held.len() > 0 && held.last().id != id {
        lemma_held_at(held.drop_last(), id);
        if held_at(held, id) is Some {
            let a = choose|a: int|
                0 <= a < held.drop_last().len() && #[trigger] held.drop_last()[a] == held_at(
                    held.drop_last(),
                    id,
                )->0 && held.drop_last()[a].id == id;
            assert(held[a] == held_at(held, id)->0);
        } else {
            assert forall|a: int| 0 <= a < held.len() implies (#[trigger] held[a]).id != id by {
                if a < held.len() - 1 {
                    assert(held.drop_last()[a].id != id);
                }
            }
        }
    } else if held.len() > 0 {
        assert(held[held.len() - 1] == held_at(held, id)->0);
    }
}

/// A fresh name is free, and is no marker. There is one wherever finitely many
/// are taken.
pub proof fn lemma_fresh(taken: Set<(Seq<char>, Seq<char>)>, board: Seq<char>, stem: Seq<char>)
    requires
        taken.finite(),
    ensures
        !taken.contains((board, fresh_name(taken, board, stem))),
        fresh_name(taken, board, stem) != marker(),
{
    reveal_strlit(".md");
    reveal_strlit(".gitkeep");
    reveal_strlit("-");
    crate::saving::lemma_some_free(taken, board, stem);
    let n = choose|n: nat| #[trigger] first_free(taken, board, stem, n);
    let name = candidate(stem, n);
    assert(name.last() == 'd');
}

/// The name a pin is saved under.
pub open spec fn name_for(
    disk: Map<(Seq<char>, Seq<char>), Option<Seq<char>>>,
    board: Seq<char>,
    n: NoteView,
    held: Seq<HeldView>,
    stamp: Seq<char>,
) -> Seq<char> {
    match held_at(held, n.id) {
        Some(h) => if h.board == board {
            h.name
        } else {
            moved_name(claims(disk, held), board, h.name)
        },
        None => fresh_name(claims(disk, held), board, stamp + "-"@ + slug_of(n.title)),
    }
}

/// A pin that has no file on its board gets a place nothing has a claim to.
pub proof fn lemma_name_for(
    disk: Map<(Seq<char>, Seq<char>), Option<Seq<char>>>,
    board: Seq<char>,
    n: NoteView,
    held: Seq<HeldView>,
    stamp: Seq<char>,
)
    requires
        disk.dom().finite(),
    ensures
        held_at(held, n.id) is None || held_at(held, n.id)->0.board != board ==> ({
            let spot = (board, name_for(disk, board, n, held, stamp));
            &&& !disk.contains_key(spot)
            &&& forall|a: int| 0 <= a < held.len() ==> key(#[trigger] held[a]) != spot
        }),
        name_for(disk, board, n, held, stamp) != marker() || held_at(held, n.id) is Some
            && held_at(held, n.id)->0.name == marker(),
{
    lemma_claims(disk, held);
    let taken = claims(disk, held);
    lemma_fresh(taken, board, stamp + "-"@ + slug_of(n.title));
    if let Some(h) = held_at(held, n.id) {
        lemma_fresh(taken, board, stem_in(h.name));
    }
    let spot = (board, name_for(disk, board, n, held, stamp));
    if held_at(held, n.id) is None || held_at(held, n.id)->0.board != board {
        assert(!taken.contains(spot));
        assert forall|a: int| 0 <= a < held.len() implies key(#[trigger] held[a]) != spot by {
            assert(taken.contains(key(held[a])));
        }
    }
}

/// A save of one more pin goes well, whichever file it comes to.
proof fn lemma_step(
    s: Saving,
    seen: Seq<(Seq<char>, NoteView)>,
    all: Seq<(Seq<char>, NoteView)>,
    disk: Map<(Seq<char>, Seq<char>), Option<Seq<char>>>,
    held: Seq<HeldView>,
    stamp: Seq<char>,
)
    requires
        going_well(s, seen, disk, held),
        good_record(held),
        as_known(disk, held),
        ids_differ(all),
        seen.len() < all.len(),
        seen == all.take(seen.len() as int),
    ensures
        going_well(
            s.note(all[seen.len() as int].0, all[seen.len() as int].1, held, stamp),
            all.take(seen.len() as int + 1),
            disk,
            held,
        ),
{
    let m = seen.len() as int;
    let pin = all[m];
    let board = pin.0;
    let n = pin.1;
    let more = all.take(m + 1);
    let t = s.note(board, n, held, stamp);
    let text = rendered(n);
    assert forall|k: int| 0 <= k < m implies more[k] == #[trigger] seen[k] && seen[k].1.id != n.id by {
        assert(all[k] == seen[k]);
    }
    assert forall|id: u64| has_id(more, id) == (has_id(seen, id) || id == n.id) by {
        if has_id(more, id) {
            let k = choose|k: int| 0 <= k < more.len() && (#[trigger] more[k]).1.id == id;
            if k < m {
                assert(seen[k].1.id == id);
            }
        }
        if has_id(seen, id) {
            let k = choose|k: int| 0 <= k < seen.len() && (#[trigger] seen[k]).1.id == id;
            assert(more[k].1.id == id);
        }
        if id == n.id {
            assert(more[m].1.id == id);
        }
    }
    assert(!has_id(seen, n.id));
    lemma_held_at(held, n.id);
    lemma_name_for(s.disk, board, n, held, stamp);
    let old = held_at(held, n.id);
    let name = name_for(s.disk, board, n, held, stamp);
    let spot = (board, name);
    // Where the pin goes meets no pin seen so far...
    assert forall|k: int| 0 <= k < m implies key(#[trigger] s.held[k]) != spot by {
        if old is Some && old->0.board == board {
            let a = choose|a: int|
                0 <= a < held.len() && #[trigger] held[a] == old->0 && held[a].id == n.id;
            assert(key(s.held[k]) != key(held[a]));
        }
    }
    // ... and no file of a pin still to come.
    assert forall|a: int| 0 <= a < held.len() && !has_id(more, held[a].id) implies key(
        #[trigger] held[a],
    ) != spot by {
        if old is Some && old->0.board == board {
            let c = choose|c: int|
                0 <= c < held.len() && #[trigger] held[c] == old->0 && held[c].id == n.id;
            if a < c {
                assert(key(held[a]) != key(held[c]));
            } else {
                assert(key(held[c]) != key(held[a]));
            }
        }
    }
    if old is Some {
        let c = choose|c: int|
            0 <= c < held.len() && #[trigger] held[c] == old->0 && held[c].id == n.id;
        assert(same_at(s.disk, disk, key(held[c])));
        assert forall|k: int| 0 <= k < m implies key(#[trigger] s.held[k]) != key(old->0) by {
            assert(key(s.held[k]) != key(held[c]));
        }
        assert forall|a: int| 0 <= a < held.len() && !has_id(more, held[a].id) implies key(
            #[trigger] held[a],
        ) != key(old->0) by {
            if a < c {
                assert(key(held[a]) != key(held[c]));
            } else {
                assert(key(held[c]) != key(held[a]));
            }
        }
    }
    assert(t.skipped.len() == 0);
    let mine = HeldView { id: n.id, board, name, text: Some(text) };
    assert(t.held == s.held.push(mine));
    assert(t.disk.contains_key(spot) && t.disk[spot] == Some(text));
    assert forall|k: int| 0 <= k < m implies same_at(t.disk, s.disk, key(#[trigger] s.held[k])) by {
    }
    assert forall|k: int| 0 <= k < more.len() implies ({
        let h = #[trigger] t.held[k];
        &&& h.id == more[k].1.id
        &&& h.board == more[k].0
        &&& h.text == Some(rendered(more[k].1))
        &&& t.disk.contains_key(key(h))
        &&& t.disk[key(h)] == h.text
        &&& h.name != marker()
        &&& held_at(held, h.id) matches Some(old) ==> old.board == h.board ==> h.name == old.name
    }) by {
        if k < m {
            assert(t.held[k] == s.held[k]);
            assert(more[k] == seen[k]);
        }
    }
    assert forall|k: int, l: int| 0 <= k < l < more.len() implies key(#[trigger] t.held[k]) != key(
        #[trigger] t.held[l],
    ) by {
        assert(t.held[k] == s.held[k]);
        if l < m {
            assert(t.held[l] == s.held[l]);
        }
    }
    assert forall|k: int, a: int|
        0 <= k < more.len() && 0 <= a < held.len() && !has_id(more, held[a].id) implies key(
        #[trigger] t.held[k],
    ) != key(#[trigger] held[a]) by {
        if k < m {
            assert(t.held[k] == s.held[k]);
        }
    }
    assert forall|a: int| 0 <= a < held.len() && !has_id(more, held[a].id) implies same_at(
        t.disk,
        disk,
        key(#[trigger] held[a]),
    ) by {
        assert(same_at(s.disk, disk, key(held[a])));
    }
}

proof fn lemma_notes_go_well(
    s: Saving,
    seen: Seq<(Seq<char>, NoteView)>,
    b: BoardView,
    m: int,
    all: Seq<(Seq<char>, NoteView)>,
    disk: Map<(Seq<char>, Seq<char>), Option<Seq<char>>>,
    held: Seq<HeldView>,
    stamp: Seq<char>,
)
    requires
        going_well(s, seen, disk, held),
        good_record(held),
        as_known(disk, held),
        ids_differ(all),
        0 <= m <= b.notes.len(),
        seen.len() + m <= all.len(),
        seen == all.take(seen.len() as int),
        all.subrange(seen.len() as int, seen.len() + m) == pins_on(b).take(m),
    ensures
        going_well(
            s.notes(b.name, b.notes.take(m), held, stamp),
            all.take(seen.len() + m),
            disk,
            held,
        ),
    decreases m,
{
    let n = seen.len() as int;
    if m == 0 {
        assert(b.notes.take(0) =~= Seq::empty());
    } else {
        assert(all.subrange(n, n + m - 1) =~= all.subrange(n, n + m).take(m - 1));
        assert(pins_on(b).take(m - 1) =~= pins_on(b).take(m).take(m - 1));
        lemma_notes_go_well(s, seen, b, m - 1, all, disk, held, stamp);
        let t = s.notes(b.name, b.notes.take(m - 1), held, stamp);
        assert(b.notes.take(m).drop_last() =~= b.notes.take(m - 1));
        assert(all[n + m - 1] == all.subrange(n, n + m)[m - 1]);
        assert(pins_on(b).take(m)[m - 1] == (b.name, b.notes[m - 1]));
        lemma_step(t, all.take(n + m - 1), all, disk, held, stamp);
    }
}

/// Changing a file that no pin has changes nothing for the pins.
proof fn lemma_aside(
    s: Saving,
    t: Saving,
    seen: Seq<(Seq<char>, NoteView)>,
    spot: (Seq<char>, Seq<char>),
    disk: Map<(Seq<char>, Seq<char>), Option<Seq<char>>>,
    held: Seq<HeldView>,
)
    requires
        going_well(s, seen, disk, held),
        good_record(held),
        spot.1 == marker(),
        t.held == s.held,
        t.skipped == s.skipped,
        t.disk.dom().finite(),
        forall|k: (Seq<char>, Seq<char>)| k != spot ==> #[trigger] same_at(t.disk, s.disk, k),
    ensures
        going_well(t, seen, disk, held),
{
    assert forall|k: int| 0 <= k < seen.len() implies same_at(
        t.disk,
        s.disk,
        key(#[trigger] s.held[k]),
    ) by {
        assert(key(s.held[k]) != spot);
    }
    assert forall|a: int| 0 <= a < held.len() && !has_id(seen, held[a].id) implies same_at(
        t.disk,
        disk,
        key(#[trigger] held[a]),
    ) by {
        assert(key(held[a]) != spot);
        assert(same_at(t.disk, s.disk, key(held[a])));
        assert(same_at(s.disk, disk, key(held[a])));
    }
}

proof fn lemma_boards_go_well(
    boards: Seq<BoardView>,
    m: int,
    disk: Map<(Seq<char>, Seq<char>), Option<Seq<char>>>,
    held: Seq<HeldView>,
    stamp: Seq<char>,
)
    requires
        disk.dom().finite(),
        good_record(held),
        as_known(disk, held),
        ids_differ(pins(boards)),
        0 <= m <= boards.len(),
    ensures
        going_well(
            Saving::start(disk).boards(boards.take(m), held, stamp),
            pins(boards.take(m)),
            disk,
            held,
        ),
        pins(boards.take(m)).is_prefix_of(pins(boards)),
    decreases m,
{
    let all = pins(boards);
    lemma_pins_prefix(boards, m);
    if m == 0 {
        assert(boards.take(0) =~= Seq::empty());
    } else {
        lemma_boards_go_well(boards, m - 1, disk, held, stamp);
        let some = boards.take(m);
        assert(some.drop_last() =~= boards.take(m - 1));
        let b = boards[m - 1];
        let seen = pins(boards.take(m - 1));
        let n = seen.len() as int;
        let s = Saving::start(disk).boards(boards.take(m - 1), held, stamp);
        let opened = s.change(ChangeView::MakeFolder { board: b.name });
        assert(pins(some) =~= seen + pins_on(b));
        assert(all.take(n) =~= seen);
        assert(all.subrange(n, n + b.notes.len()) =~= pins(some).subrange(n, n + b.notes.len()));
        assert(pins(some).subrange(n, n + b.notes.len()) =~= pins_on(b));
        assert(pins_on(b).take(b.notes.len() as int) =~= pins_on(b));
        assert(b.notes.take(b.notes.len() as int) =~= b.notes);
        lemma_notes_go_well(opened, seen, b, b.notes.len() as int, all, disk, held, stamp);
        let filled = opened.notes(b.name, b.notes, held, stamp);
        assert(all.take(n + b.notes.len()) =~= pins(some));
        let spot = (b.name, marker());
        lemma_aside(filled, filled.mark(b), pins(some), spot, disk, held);
    }
}

proof fn lemma_pins_prefix(boards: Seq<BoardView>, m: int)
    requires
        0 <= m <= boards.len(),
    ensures
        pins(boards.take(m)).is_prefix_of(pins(boards)),
    decreases boards.len() - m,
{
    if m == boards.len() {
        assert(boards.take(m) =~= boards);
    } else {
        lemma_pins_prefix(boards, m + 1);
        assert(boards.take(m + 1).drop_last() =~= boards.take(m));
        assert(pins(boards.take(m)) =~= pins(boards).subrange(
            0,
            pins(boards.take(m)).len() as int,
        ));
    }
}

/// Clearing away what is no longer on a board leaves the pins that are.
proof fn lemma_prune_goes_well(
    s: Saving,
    seen: Seq<(Seq<char>, NoteView)>,
    m: int,
    disk: Map<(Seq<char>, Seq<char>), Option<Seq<char>>>,
    held: Seq<HeldView>,
)
    requires
        going_well(s, seen, disk, held),
        0 <= m <= held.len(),
    ensures
        s.prune(held.take(m)).held == s.held,
        s.prune(held.take(m)).skipped == s.skipped,
        forall|k: int|
            0 <= k < s.held.len() ==> same_at(
                s.prune(held.take(m)).disk,
                s.disk,
                key(#[trigger] s.held[k]),
            ),
    decreases m,
{
    if m == 0 {
        assert(held.take(0) =~= Seq::empty());
    } else {
        lemma_prune_goes_well(s, seen, m - 1, disk, held);
        assert(held.take(m).drop_last() =~= held.take(m - 1));
        let h = held[m - 1];
        assert(held.take(m).last() == h);
        lemma_held_at(s.held, h.id);
        if held_at(s.held, h.id) is None {
            if has_id(seen, h.id) {
                let k = choose|k: int| 0 <= k < seen.len() && (#[trigger] seen[k]).1.id == h.id;
                assert(s.held[k].id == h.id);
            }
            assert forall|k: int| 0 <= k < s.held.len() implies same_at(
                s.prune(held.take(m)).disk,
                s.disk,
                key(#[trigger] s.held[k]),
            ) by {
                assert(key(s.held[k]) != key(held[m - 1]));
                assert(same_at(s.prune(held.take(m - 1)).disk, s.disk, key(s.held[k])));
            }
        }
    }
}

/// After a save, every pin is in its own file in its board's directory, and the
/// store holds it there. No two pins share one. A pin that had a file on that
/// board kept its name. Nothing was left out.
///
/// Left aside are files that another writer changed.
pub proof fn law_a_saved_pin_is_in_its_file(
    disk: Map<(Seq<char>, Seq<char>), Option<Seq<char>>>,
    boards: Seq<BoardView>,
    held: Seq<HeldView>,
    stamp: Seq<char>,
)
    requires
        disk.dom().finite(),
        good_record(held),
        as_known(disk, held),
        ids_differ(pins(boards)),
    ensures
        ({
            let s = saved(disk, boards, held, stamp);
            &&& s.skipped.len() == 0
            &&& s.held.len() == pins(boards).len()
            &&& good_record(s.held)
            &&& as_known(s.disk, s.held)
            &&& forall|k: int|
                0 <= k < s.held.len() ==> {
                    let h = #[trigger] s.held[k];
                    let (board, pin) = pins(boards)[k];
                    &&& h.id == pin.id
                    &&& h.board == board
                    &&& h.text == Some(rendered(pin))
                    &&& s.disk.contains_key((board, h.name))
                    &&& s.disk[(board, h.name)] == Some(rendered(pin))
                    &&& held_at(held, pin.id) matches Some(old) ==> old.board == board ==> h.name
                        == old.name
                }
        }),
{
    let s = Saving::start(disk).boards(boards, held, stamp);
    assert(boards.take(boards.len() as int) =~= boards);
    assert(held.take(held.len() as int) =~= held);
    lemma_boards_go_well(boards, boards.len() as int, disk, held, stamp);
    lemma_prune_goes_well(s, pins(boards), held.len() as int, disk, held);
    let t = s.prune(held);
    assert forall|k: int| 0 <= k < t.held.len() implies ({
        let h = #[trigger] t.held[k];
        let (board, pin) = pins(boards)[k];
        &&& h.id == pin.id
        &&& h.board == board
        &&& h.text == Some(rendered(pin))
        &&& t.disk.contains_key((board, h.name))
        &&& t.disk[(board, h.name)] == Some(rendered(pin))
        &&& held_at(held, pin.id) matches Some(old) ==> old.board == board ==> h.name == old.name
    }) by {
        assert(s.held[k] == t.held[k]);
        assert(same_at(t.disk, s.disk, key(s.held[k])));
    }
    assert forall|a: int, b: int| 0 <= a < b < t.held.len() implies (#[trigger] t.held[a]).id != (
    #[trigger] t.held[b]).id && key(t.held[a]) != key(t.held[b]) by {
        assert(s.held[a] == t.held[a] && s.held[b] == t.held[b]);
        assert(pins(boards)[a].1.id != pins(boards)[b].1.id);
    }
    assert forall|a: int| 0 <= a < t.held.len() implies (#[trigger] t.held[a]).name != marker() by {
        assert(s.held[a] == t.held[a]);
    }
}

/// A pin as it is read from its file: its position rounded to whole units, and
/// nothing trailing its body.
pub open spec fn as_read(pin: NoteView, id: u64) -> NoteView {
    NoteView {
        id,
        body: trim_end(pin.body),
        x: (units(pin.x as int) * 7140) as i128,
        y: (units(pin.y as int) * 7140) as i128,
        ..pin
    }
}

/// What a save wrote, a load reads: the file of each pin gives the pin back.
pub proof fn law_a_saved_pin_reads_back(
    disk: Map<(Seq<char>, Seq<char>), Option<Seq<char>>>,
    boards: Seq<BoardView>,
    held: Seq<HeldView>,
    stamp: Seq<char>,
    k: int,
    id: u64,
)
    requires
        disk.dom().finite(),
        good_record(held),
        as_known(disk, held),
        ids_differ(pins(boards)),
        0 <= k < pins(boards).len(),
        !pins(boards)[k].1.title.contains('\n'),
    ensures
        ({
            let s = saved(disk, boards, held, stamp);
            let (board, pin) = pins(boards)[k];
            let file = (board, s.held[k].name);
            &&& s.disk.contains_key(file)
            &&& s.disk[file] is Some
            &&& parsed(s.disk[file]->0, id) == as_read(pin, id)
        }),
{
    law_a_saved_pin_is_in_its_file(disk, boards, held, stamp);
    assert(saved(disk, boards, held, stamp).held[k].id == pins(boards)[k].1.id);
    crate::pinfile::law_a_pin_round_trips(pins(boards)[k].1, id);
}

// ---- files that stay as they are ----

/// Saving a pin leaves a file alone: the pin does not come from it, or it is the
/// pin's own and holds something the save will not write over.
pub open spec fn leaves(
    pin: (Seq<char>, NoteView),
    spot: (Seq<char>, Seq<char>),
    there: Option<Seq<char>>,
    held: Seq<HeldView>,
) -> bool {
    match held_at(held, pin.1.id) {
        Some(h) => if h.board != pin.0 {
            key(h) != spot
        } else {
            key(h) == spot ==> there is Some && (there->0 == rendered(pin.1) || h.text is Some
                && there != h.text)
        },
        None => true,
    }
}

/// The file is as it was, and the save has listed the pins it has seen.
spec fn stays(
    s: Saving,
    seen: Seq<(Seq<char>, NoteView)>,
    spot: (Seq<char>, Seq<char>),
    there: Option<Seq<char>>,
    held: Seq<HeldView>,
) -> bool {
    &&& s.disk.dom().finite()
    &&& s.disk.contains_key(spot)
    &&& s.disk[spot] == there
    &&& s.held.len() == seen.len()
    &&& forall|k: int| 0 <= k < seen.len() ==> (#[trigger] s.held[k]).id == seen[k].1.id
    &&& forall|k: int|
        0 <= k < seen.len() && edited(#[trigger] seen[k], spot, there, held)
            ==> s.skipped.contains(spot.0 + "/"@ + spot.1)
}

/// The file is a pin's own, and another writer changed it to something else
/// than the save would write.
pub open spec fn edited(
    pin: (Seq<char>, NoteView),
    spot: (Seq<char>, Seq<char>),
    there: Option<Seq<char>>,
    held: Seq<HeldView>,
) -> bool {
    &&& held_at(held, pin.1.id) is Some
    &&& held_at(held, pin.1.id)->0.board == pin.0
    &&& key(held_at(held, pin.1.id)->0) == spot
    &&& there is Some
    &&& there->0 != rendered(pin.1)
    &&& held_at(held, pin.1.id)->0.text is Some
    &&& there != held_at(held, pin.1.id)->0.text
}

proof fn lemma_note_leaves(
    s: Saving,
    seen: Seq<(Seq<char>, NoteView)>,
    pin: (Seq<char>, NoteView),
    spot: (Seq<char>, Seq<char>),
    there: Option<Seq<char>>,
    held: Seq<HeldView>,
    stamp: Seq<char>,
)
    requires
        stays(s, seen, spot, there, held),
        leaves(pin, spot, there, held),
    ensures
        stays(s.note(pin.0, pin.1, held, stamp), seen.push(pin), spot, there, held),
{
    let t = s.note(pin.0, pin.1, held, stamp);
    let more = seen.push(pin);
    lemma_name_for(s.disk, pin.0, pin.1, held, stamp);
    let path = spot.0 + "/"@ + spot.1;
    assert(t.held.drop_last() =~= s.held);
    assert(s.skipped.contains(path) ==> t.skipped.contains(path)) by {
        if s.skipped.contains(path) {
            let i = choose|i: int| 0 <= i < s.skipped.len() && s.skipped[i] == path;
            assert(t.skipped[i] == path);
        }
    }
    assert forall|k: int| 0 <= k < more.len() && edited(#[trigger] more[k], spot, there, held) implies t.skipped.contains(
        path,
    ) by {
        if k < seen.len() {
            assert(seen[k] == more[k]);
        } else {
            assert(t.skipped == s.skipped.push(path));
            assert(t.skipped[s.skipped.len() as int] == path);
        }
    }
    assert forall|k: int| 0 <= k < more.len() implies (#[trigger] t.held[k]).id == more[k].1.id by {
        if k < seen.len() {
            assert(t.held.drop_last()[k] == s.held[k]);
        }
    }
}

proof fn lemma_notes_leave(
    s: Saving,
    seen: Seq<(Seq<char>, NoteView)>,
    b: BoardView,
    m: int,
    spot: (Seq<char>, Seq<char>),
    there: Option<Seq<char>>,
    held: Seq<HeldView>,
    stamp: Seq<char>,
)
    requires
        stays(s, seen, spot, there, held),
        0 <= m <= b.notes.len(),
        forall|i: int| 0 <= i < m ==> leaves(#[trigger] pins_on(b)[i], spot, there, held),
    ensures
        stays(
            s.notes(b.name, b.notes.take(m), held, stamp),
            seen + pins_on(b).take(m),
            spot,
            there,
            held,
        ),
    decreases m,
{
    if m == 0 {
        assert(b.notes.take(0) =~= Seq::empty());
        assert(seen + pins_on(b).take(0) =~= seen);
    } else {
        lemma_notes_leave(s, seen, b, m - 1, spot, there, held, stamp);
        assert(b.notes.take(m).drop_last() =~= b.notes.take(m - 1));
        let t = s.notes(b.name, b.notes.take(m - 1), held, stamp);
        let pin = pins_on(b)[m - 1];
        lemma_note_leaves(t, seen + pins_on(b).take(m - 1), pin, spot, there, held, stamp);
        assert((seen + pins_on(b).take(m - 1)).push(pin) =~= seen + pins_on(b).take(m));
    }
}

proof fn lemma_boards_leave(
    boards: Seq<BoardView>,
    disk: Map<(Seq<char>, Seq<char>), Option<Seq<char>>>,
    spot: (Seq<char>, Seq<char>),
    held: Seq<HeldView>,
    stamp: Seq<char>,
)
    requires
        disk.dom().finite(),
        disk.contains_key(spot),
        spot.1 != marker(),
        forall|i: int|
            0 <= i < pins(boards).len() ==> leaves(
                #[trigger] pins(boards)[i],
                spot,
                disk[spot],
                held,
            ),
    ensures
        stays(
            Saving::start(disk).boards(boards, held, stamp),
            pins(boards),
            spot,
            disk[spot],
            held,
        ),
    decreases boards.len(),
{
    if boards.len() > 0 {
        let b = boards.last();
        let fewer = boards.drop_last();
        let n = pins(fewer).len() as int;
        assert forall|i: int| 0 <= i < pins(fewer).len() implies leaves(
            #[trigger] pins(fewer)[i],
            spot,
            disk[spot],
            held,
        ) by {
            assert(pins(boards)[i] == pins(fewer)[i]);
        }
        lemma_boards_leave(fewer, disk, spot, held, stamp);
        let s = Saving::start(disk).boards(fewer, held, stamp);
        let opened = s.change(ChangeView::MakeFolder { board: b.name });
        assert forall|i: int| 0 <= i < b.notes.len() implies leaves(
            #[trigger] pins_on(b)[i],
            spot,
            disk[spot],
            held,
        ) by {
            assert(pins(boards)[n + i] == pins_on(b)[i]);
        }
        assert(stays(opened, pins(fewer), spot, disk[spot], held));
        lemma_notes_leave(
            opened,
            pins(fewer),
            b,
            b.notes.len() as int,
            spot,
            disk[spot],
            held,
            stamp,
        );
        assert(b.notes.take(b.notes.len() as int) =~= b.notes);
        assert(pins_on(b).take(b.notes.len() as int) =~= pins_on(b));
    }
}

proof fn lemma_prune_leaves(
    s: Saving,
    seen: Seq<(Seq<char>, NoteView)>,
    m: int,
    spot: (Seq<char>, Seq<char>),
    there: Option<Seq<char>>,
    held: Seq<HeldView>,
)
    requires
        stays(s, seen, spot, there, held),
        0 <= m <= held.len(),
        forall|a: int|
            0 <= a < held.len() && key(#[trigger] held[a]) == spot ==> has_id(seen, held[a].id),
    ensures
        stays(s.prune(held.take(m)), seen, spot, there, held),
        s.prune(held.take(m)).held == s.held,
    decreases m,
{
    if m == 0 {
        assert(held.take(0) =~= Seq::empty());
    } else {
        lemma_prune_leaves(s, seen, m - 1, spot, there, held);
        assert(held.take(m).drop_last() =~= held.take(m - 1));
        let h = held[m - 1];
        assert(held.take(m).last() == h);
        lemma_held_at(s.held, h.id);
        if held_at(s.held, h.id) is None && key(h) == spot {
            let k = choose|k: int| 0 <= k < seen.len() && (#[trigger] seen[k]).1.id == h.id;
            assert(s.held[k].id == h.id);
        }
    }
}

/// A save never touches a file it has no business with: one the store does not
/// hold stays as it is.
pub proof fn law_foreign_files_stay(
    disk: Map<(Seq<char>, Seq<char>), Option<Seq<char>>>,
    boards: Seq<BoardView>,
    held: Seq<HeldView>,
    stamp: Seq<char>,
    spot: (Seq<char>, Seq<char>),
)
    requires
        disk.dom().finite(),
        disk.contains_key(spot),
        spot.1 != marker(),
        forall|a: int| 0 <= a < held.len() ==> key(#[trigger] held[a]) != spot,
    ensures
        saved(disk, boards, held, stamp).disk.contains_key(spot),
        saved(disk, boards, held, stamp).disk[spot] == disk[spot],
{
    assert forall|i: int| 0 <= i < pins(boards).len() implies leaves(
        #[trigger] pins(boards)[i],
        spot,
        disk[spot],
        held,
    ) by {
        lemma_held_at(held, pins(boards)[i].1.id);
    }
    lemma_boards_leave(boards, disk, spot, held, stamp);
    assert(held.take(held.len() as int) =~= held);
    lemma_prune_leaves(
        Saving::start(disk).boards(boards, held, stamp),
        pins(boards),
        held.len() as int,
        spot,
        disk[spot],
        held,
    );
}

/// A pin that another writer changed underneath the session is not written
/// over, and the save says so.
pub proof fn law_an_outside_edit_survives(
    disk: Map<(Seq<char>, Seq<char>), Option<Seq<char>>>,
    boards: Seq<BoardView>,
    held: Seq<HeldView>,
    stamp: Seq<char>,
    k: int,
)
    requires
        disk.dom().finite(),
        good_record(held),
        ids_differ(pins(boards)),
        0 <= k < pins(boards).len(),
        held_at(held, pins(boards)[k].1.id) is Some,
        ({
            let spot = key(held_at(held, pins(boards)[k].1.id)->0);
            &&& disk.contains_key(spot)
            &&& edited(pins(boards)[k], spot, disk[spot], held)
        }),
    ensures
        ({
            let spot = key(held_at(held, pins(boards)[k].1.id)->0);
            let s = saved(disk, boards, held, stamp);
            &&& s.disk.contains_key(spot)
            &&& s.disk[spot] == disk[spot]
            &&& s.skipped.contains(spot.0 + "/"@ + spot.1)
        }),
{
    let id = pins(boards)[k].1.id;
    let h = held_at(held, id)->0;
    let spot = key(h);
    lemma_held_at(held, id);
    let c = choose|c: int| 0 <= c < held.len() && #[trigger] held[c] == h && held[c].id == id;
    assert(spot.1 != marker());
    assert forall|a: int| 0 <= a < held.len() && key(#[trigger] held[a]) == spot implies a == c by {
        if a < c {
            assert(key(held[a]) != key(held[c]));
        } else if c < a {
            assert(key(held[c]) != key(held[a]));
        }
    }
    assert forall|i: int| 0 <= i < pins(boards).len() implies leaves(
        #[trigger] pins(boards)[i],
        spot,
        disk[spot],
        held,
    ) by {
        let p = pins(boards)[i];
        lemma_held_at(held, p.1.id);
        if held_at(held, p.1.id) is Some {
            let a = choose|a: int|
                0 <= a < held.len() && #[trigger] held[a] == held_at(held, p.1.id)->0 && held[a].id
                    == p.1.id;
            if key(held[a]) == spot {
                assert(a == c);
                assert(i == k);
            }
        }
    }
    lemma_boards_leave(boards, disk, spot, held, stamp);
    assert(held.take(held.len() as int) =~= held);
    assert(has_id(pins(boards), id)) by {
        assert(pins(boards)[k].1.id == id);
    }
    lemma_prune_leaves(
        Saving::start(disk).boards(boards, held, stamp),
        pins(boards),
        held.len() as int,
        spot,
        disk[spot],
        held,
    );
}

// ---- pins that are gone ----

/// The save has listed the pins it has seen.
pub open spec fn lists(s: Saving, seen: Seq<(Seq<char>, NoteView)>) -> bool {
    &&& s.held.len() == seen.len()
    &&& forall|k: int| 0 <= k < seen.len() ==> (#[trigger] s.held[k]).id == seen[k].1.id
}

proof fn lemma_notes_list(
    s: Saving,
    seen: Seq<(Seq<char>, NoteView)>,
    b: BoardView,
    m: int,
    held: Seq<HeldView>,
    stamp: Seq<char>,
)
    requires
        lists(s, seen),
        0 <= m <= b.notes.len(),
    ensures
        lists(s.notes(b.name, b.notes.take(m), held, stamp), seen + pins_on(b).take(m)),
    decreases m,
{
    if m == 0 {
        assert(b.notes.take(0) =~= Seq::empty());
        assert(seen + pins_on(b).take(0) =~= seen);
    } else {
        lemma_notes_list(s, seen, b, m - 1, held, stamp);
        assert(b.notes.take(m).drop_last() =~= b.notes.take(m - 1));
        let before = seen + pins_on(b).take(m - 1);
        let t = s.notes(b.name, b.notes.take(m - 1), held, stamp);
        let pin = pins_on(b)[m - 1];
        let u = t.note(pin.0, pin.1, held, stamp);
        assert(u.held.drop_last() =~= t.held);
        assert(before.push(pin) =~= seen + pins_on(b).take(m));
        assert forall|k: int| 0 <= k < before.push(pin).len() implies (#[trigger] u.held[k]).id
            == before.push(pin)[k].1.id by {
            if k < before.len() {
                assert(u.held.drop_last()[k] == t.held[k]);
            }
        }
    }
}

pub proof fn lemma_boards_list(
    disk: Map<(Seq<char>, Seq<char>), Option<Seq<char>>>,
    boards: Seq<BoardView>,
    held: Seq<HeldView>,
    stamp: Seq<char>,
)
    ensures
        lists(Saving::start(disk).boards(boards, held, stamp), pins(boards)),
    decreases boards.len(),
{
    if boards.len() > 0 {
        let b = boards.last();
        let fewer = boards.drop_last();
        lemma_boards_list(disk, fewer, held, stamp);
        let opened = Saving::start(disk).boards(fewer, held, stamp).change(
            ChangeView::MakeFolder { board: b.name },
        );
        lemma_notes_list(opened, pins(fewer), b, b.notes.len() as int, held, stamp);
        assert(b.notes.take(b.notes.len() as int) =~= b.notes);
        assert(pins_on(b).take(b.notes.len() as int) =~= pins_on(b));
    }
}

pub proof fn lemma_prune_removes(s: Saving, m: int, held: Seq<HeldView>)
    requires
        0 <= m <= held.len(),
    ensures
        s.prune(held.take(m)).held == s.held,
        forall|a: int|
            0 <= a < m && held_at(s.held, (#[trigger] held[a]).id) is None ==> !s.prune(
                held.take(m),
            ).disk.contains_key(key(held[a])),
    decreases m,
{
    if m == 0 {
        assert(held.take(0) =~= Seq::empty());
    } else {
        lemma_prune_removes(s, m - 1, held);
        assert(held.take(m).drop_last() =~= held.take(m - 1));
        assert(held.take(m).last() == held[m - 1]);
    }
}

/// A pin that is no longer on a board has no file after a save.
pub proof fn law_a_dropped_pin_loses_its_file(
    disk: Map<(Seq<char>, Seq<char>), Option<Seq<char>>>,
    boards: Seq<BoardView>,
    held: Seq<HeldView>,
    stamp: Seq<char>,
    a: int,
)
    requires
        0 <= a < held.len(),
        forall|k: int|
            0 <= k < pins(boards).len() ==> (#[trigger] pins(boards)[k]).1.id != held[a].id,
    ensures
        !saved(disk, boards, held, stamp).disk.contains_key(key(held[a])),
{
    lemma_boards_list(disk, boards, held, stamp);
    let s = Saving::start(disk).boards(boards, held, stamp);
    lemma_held_at(s.held, held[a].id);
    if held_at(s.held, held[a].id) is Some {
        let k = choose|k: int|
            0 <= k < s.held.len() && #[trigger] s.held[k] == held_at(s.held, held[a].id)->0
                && s.held[k].id == held[a].id;
        assert(pins(boards)[k].1.id == held[a].id);
    }
    lemma_prune_removes(s, held.len() as int, held);
    assert(held.take(held.len() as int) =~= held);
}

// ---- a save that changes nothing ----

/// A change that touches no file.
pub open spec fn touches_nothing(c: ChangeView) -> bool {
    c is MakeFolder
}

/// The file of a pin already says what a save would write.
pub open spec fn already_says(
    disk: Map<(Seq<char>, Seq<char>), Option<Seq<char>>>,
    pin: (Seq<char>, NoteView),
    held: Seq<HeldView>,
) -> bool {
    match held_at(held, pin.1.id) {
        Some(h) => h.board == pin.0 && disk.contains_key(key(h)) && disk[key(h)] == Some(
            rendered(pin.1),
        ),
        None => false,
    }
}

/// An empty board has its marker, any other has none.
pub open spec fn marked_right(
    disk: Map<(Seq<char>, Seq<char>), Option<Seq<char>>>,
    b: BoardView,
) -> bool {
    disk.contains_key((b.name, marker())) <==> b.notes.len() == 0
}

spec fn idle(
    s: Saving,
    seen: Seq<(Seq<char>, NoteView)>,
    disk: Map<(Seq<char>, Seq<char>), Option<Seq<char>>>,
) -> bool {
    &&& s.disk == disk
    &&& s.skipped.len() == 0
    &&& forall|i: int| 0 <= i < s.changes.len() ==> touches_nothing(#[trigger] s.changes[i])
    &&& s.held.len() == seen.len()
    &&& forall|k: int| 0 <= k < seen.len() ==> (#[trigger] s.held[k]).id == seen[k].1.id
}

proof fn lemma_notes_idle(
    s: Saving,
    seen: Seq<(Seq<char>, NoteView)>,
    b: BoardView,
    m: int,
    disk: Map<(Seq<char>, Seq<char>), Option<Seq<char>>>,
    held: Seq<HeldView>,
    stamp: Seq<char>,
)
    requires
        idle(s, seen, disk),
        0 <= m <= b.notes.len(),
        forall|i: int| 0 <= i < m ==> already_says(disk, #[trigger] pins_on(b)[i], held),
    ensures
        idle(s.notes(b.name, b.notes.take(m), held, stamp), seen + pins_on(b).take(m), disk),
    decreases m,
{
    if m == 0 {
        assert(b.notes.take(0) =~= Seq::empty());
        assert(seen + pins_on(b).take(0) =~= seen);
    } else {
        lemma_notes_idle(s, seen, b, m - 1, disk, held, stamp);
        assert(b.notes.take(m).drop_last() =~= b.notes.take(m - 1));
        let before = seen + pins_on(b).take(m - 1);
        let t = s.notes(b.name, b.notes.take(m - 1), held, stamp);
        let pin = pins_on(b)[m - 1];
        let u = t.note(pin.0, pin.1, held, stamp);
        assert(already_says(disk, pin, held));
        assert(u.held.drop_last() =~= t.held);
        assert(before.push(pin) =~= seen + pins_on(b).take(m));
        assert forall|k: int| 0 <= k < before.push(pin).len() implies (#[trigger] u.held[k]).id
            == before.push(pin)[k].1.id by {
            if k < before.len() {
                assert(u.held.drop_last()[k] == t.held[k]);
            }
        }
    }
}

proof fn lemma_boards_idle(
    boards: Seq<BoardView>,
    disk: Map<(Seq<char>, Seq<char>), Option<Seq<char>>>,
    held: Seq<HeldView>,
    stamp: Seq<char>,
)
    requires
        forall|i: int|
            0 <= i < pins(boards).len() ==> already_says(disk, #[trigger] pins(boards)[i], held),
        forall|i: int| 0 <= i < boards.len() ==> marked_right(disk, #[trigger] boards[i]),
    ensures
        idle(Saving::start(disk).boards(boards, held, stamp), pins(boards), disk),
    decreases boards.len(),
{
    if boards.len() > 0 {
        let b = boards.last();
        let fewer = boards.drop_last();
        let n = pins(fewer).len() as int;
        assert forall|i: int| 0 <= i < pins(fewer).len() implies already_says(
            disk,
            #[trigger] pins(fewer)[i],
            held,
        ) by {
            assert(pins(boards)[i] == pins(fewer)[i]);
        }
        lemma_boards_idle(fewer, disk, held, stamp);
        let s = Saving::start(disk).boards(fewer, held, stamp);
        let opened = s.change(ChangeView::MakeFolder { board: b.name });
        assert forall|i: int| 0 <= i < b.notes.len() implies already_says(
            disk,
            #[trigger] pins_on(b)[i],
            held,
        ) by {
            assert(pins(boards)[n + i] == pins_on(b)[i]);
        }
        assert(idle(opened, pins(fewer), disk));
        lemma_notes_idle(opened, pins(fewer), b, b.notes.len() as int, disk, held, stamp);
        assert(b.notes.take(b.notes.len() as int) =~= b.notes);
        assert(pins_on(b).take(b.notes.len() as int) =~= pins_on(b));
        assert(marked_right(disk, boards[boards.len() - 1]));
    }
}

proof fn lemma_prune_idle(
    s: Saving,
    seen: Seq<(Seq<char>, NoteView)>,
    m: int,
    disk: Map<(Seq<char>, Seq<char>), Option<Seq<char>>>,
    held: Seq<HeldView>,
)
    requires
        idle(s, seen, disk),
        0 <= m <= held.len(),
        forall|a: int| 0 <= a < held.len() ==> has_id(seen, (#[trigger] held[a]).id),
    ensures
        s.prune(held.take(m)) == s,
    decreases m,
{
    if m == 0 {
        assert(held.take(0) =~= Seq::empty());
    } else {
        lemma_prune_idle(s, seen, m - 1, disk, held);
        assert(held.take(m).drop_last() =~= held.take(m - 1));
        let h = held[m - 1];
        assert(held.take(m).last() == h);
        lemma_held_at(s.held, h.id);
        assert(has_id(seen, held[m - 1].id));
        let k = choose|k: int| 0 <= k < seen.len() && (#[trigger] seen[k]).1.id == h.id;
        assert(s.held[k].id == h.id);
    }
}

/// A save that has nothing new to say touches no file, so the working tree (and
/// git) stays as it is.
pub proof fn law_an_unchanged_save_touches_nothing(
    disk: Map<(Seq<char>, Seq<char>), Option<Seq<char>>>,
    boards: Seq<BoardView>,
    held: Seq<HeldView>,
    stamp: Seq<char>,
)
    requires
        forall|i: int|
            0 <= i < pins(boards).len() ==> already_says(disk, #[trigger] pins(boards)[i], held),
        forall|i: int| 0 <= i < boards.len() ==> marked_right(disk, #[trigger] boards[i]),
        forall|a: int|
            0 <= a < held.len() ==> exists|k: int|
                0 <= k < pins(boards).len() && (#[trigger] pins(boards)[k]).1.id == (
                #[trigger] held[a]).id,
    ensures
        ({
            let s = saved(disk, boards, held, stamp);
            &&& s.disk == disk
            &&& s.skipped.len() == 0
            &&& forall|i: int| 0 <= i < s.changes.len() ==> touches_nothing(#[trigger] s.changes[i])
        }),
{
    lemma_boards_idle(boards, disk, held, stamp);
    assert forall|a: int| 0 <= a < held.len() implies has_id(
        pins(boards),
        (#[trigger] held[a]).id,
    ) by {
        let k = choose|k: int|
            0 <= k < pins(boards).len() && (#[trigger] pins(boards)[k]).1.id == held[a].id;
        assert(pins(boards)[k].1.id == held[a].id);
    }
    assert(held.take(held.len() as int) =~= held);
    lemma_prune_idle(
        Saving::start(disk).boards(boards, held, stamp),
        pins(boards),
        held.len() as int,
        disk,
        held,
    );
}

// ---- saving twice ----

/// Saving a pin neither makes nor removes a marker.
proof fn lemma_note_marks_nothing(
    s: Saving,
    board: Seq<char>,
    n: NoteView,
    held: Seq<HeldView>,
    stamp: Seq<char>,
    at: Seq<char>,
)
    requires
        s.disk.dom().finite(),
        good_record(held),
    ensures
        s.note(board, n, held, stamp).disk.contains_key((at, marker())) == s.disk.contains_key(
            (at, marker()),
        ),
        s.note(board, n, held, stamp).disk.dom().finite(),
{
    lemma_held_at(held, n.id);
    lemma_name_for(s.disk, board, n, held, stamp);
}

proof fn lemma_notes_mark_nothing(
    s: Saving,
    board: Seq<char>,
    notes: Seq<NoteView>,
    held: Seq<HeldView>,
    stamp: Seq<char>,
    at: Seq<char>,
)
    requires
        s.disk.dom().finite(),
        good_record(held),
    ensures
        s.notes(board, notes, held, stamp).disk.contains_key((at, marker()))
            == s.disk.contains_key((at, marker())),
        s.notes(board, notes, held, stamp).disk.dom().finite(),
    decreases notes.len(),
{
    if notes.len() > 0 {
        lemma_notes_mark_nothing(s, board, notes.drop_last(), held, stamp, at);
        lemma_note_marks_nothing(
            s.notes(board, notes.drop_last(), held, stamp),
            board,
            notes.last(),
            held,
            stamp,
            at,
        );
    }
}

/// No two boards have one name.
pub open spec fn names_differ(boards: Seq<BoardView>) -> bool {
    forall|i: int, j: int|
        0 <= i < j < boards.len() ==> (#[trigger] boards[i]).name != (#[trigger] boards[j]).name
}

pub proof fn lemma_boards_marked(
    boards: Seq<BoardView>,
    disk: Map<(Seq<char>, Seq<char>), Option<Seq<char>>>,
    held: Seq<HeldView>,
    stamp: Seq<char>,
)
    requires
        disk.dom().finite(),
        good_record(held),
        names_differ(boards),
    ensures
        ({
            let s = Saving::start(disk).boards(boards, held, stamp);
            &&& s.disk.dom().finite()
            &&& forall|i: int| 0 <= i < boards.len() ==> marked_right(s.disk, #[trigger] boards[i])
        }),
    decreases boards.len(),
{
    if boards.len() > 0 {
        let before = boards.drop_last();
        assert forall|i: int, j: int| 0 <= i < j < before.len() implies (
        #[trigger] before[i]).name != (#[trigger] before[j]).name by {
            assert(boards[i].name != boards[j].name);
        }
        lemma_boards_marked(before, disk, held, stamp);
        let t = Saving::start(disk).boards(before, held, stamp);
        let b = boards.last();
        let opened = t.change(ChangeView::MakeFolder { board: b.name });
        lemma_notes_mark_nothing(opened, b.name, b.notes, held, stamp, b.name);
        let s = Saving::start(disk).boards(boards, held, stamp);
        assert forall|i: int| 0 <= i < boards.len() implies marked_right(
            s.disk,
            #[trigger] boards[i],
        ) by {
            if i < before.len() {
                assert(before[i] == boards[i]);
                assert(boards[i].name != boards[boards.len() - 1].name);
                lemma_notes_mark_nothing(opened, b.name, b.notes, held, stamp, boards[i].name);
            }
        }
    }
}

pub proof fn lemma_prune_marks_nothing(s: Saving, held: Seq<HeldView>, at: Seq<char>)
    requires
        forall|a: int| 0 <= a < held.len() ==> (#[trigger] held[a]).name != marker(),
    ensures
        s.prune(held).disk.contains_key((at, marker())) == s.disk.contains_key((at, marker())),
    decreases held.len(),
{
    if held.len() > 0 {
        lemma_prune_marks_nothing(s, held.drop_last(), at);
        assert(held[held.len() - 1].name != marker());
    }
}

/// Saving the same boards again touches no file, whenever it is done.
pub proof fn law_saving_twice_touches_nothing(
    disk: Map<(Seq<char>, Seq<char>), Option<Seq<char>>>,
    boards: Seq<BoardView>,
    held: Seq<HeldView>,
    stamp: Seq<char>,
    later: Seq<char>,
)
    requires
        disk.dom().finite(),
        good_record(held),
        as_known(disk, held),
        ids_differ(pins(boards)),
        names_differ(boards),
    ensures
        ({
            let once = saved(disk, boards, held, stamp);
            let twice = saved(once.disk, boards, once.held, later);
            &&& twice.disk == once.disk
            &&& twice.skipped.len() == 0
            &&& forall|i: int|
                0 <= i < twice.changes.len() ==> touches_nothing(#[trigger] twice.changes[i])
        }),
{
    let once = saved(disk, boards, held, stamp);
    law_a_saved_pin_is_in_its_file(disk, boards, held, stamp);
    let all = pins(boards);
    assert forall|i: int| 0 <= i < all.len() implies already_says(
        once.disk,
        #[trigger] all[i],
        once.held,
    ) by {
        lemma_held_at(once.held, all[i].1.id);
        assert(once.held[i].id == all[i].1.id);
    }
    lemma_boards_marked(boards, disk, held, stamp);
    assert forall|i: int| 0 <= i < boards.len() implies marked_right(
        once.disk,
        #[trigger] boards[i],
    ) by {
        lemma_prune_marks_nothing(
            Saving::start(disk).boards(boards, held, stamp),
            held,
            boards[i].name,
        );
    }
    assert forall|a: int| 0 <= a < once.held.len() implies exists|k: int|
        0 <= k < all.len() && (#[trigger] all[k]).1.id == (#[trigger] once.held[a]).id by {
        assert(all[a].1.id == once.held[a].id);
    }
    law_an_unchanged_save_touches_nothing(once.disk, boards, once.held, later);
}

// ---- where ids come from ----

/// Every pin in the list is on some board.
proof fn lemma_pin_is_on_a_board(boards: Seq<BoardView>, k: int) -> (at: (int, int))
    requires
        0 <= k < pins(boards).len(),
    ensures
        0 <= at.0 < boards.len(),
        0 <= at.1 < boards[at.0].notes.len(),
        pins(boards)[k].1 == boards[at.0].notes[at.1],
    decreases boards.len(),
{
    let before = pins(boards.drop_last());
    if k < before.len() {
        let at = lemma_pin_is_on_a_board(boards.drop_last(), k);
        assert(boards.drop_last()[at.0] == boards[at.0]);
        at
    } else {
        (boards.len() - 1, k - before.len())
    }
}

/// The ids that the board keeps apart are apart in a save: what a session does
/// to its boards never brings two pins to one file by their id.
pub proof fn law_ids_kept_apart_are_saved_apart(boards: Seq<BoardView>)
    requires
        distinct(boards),
    ensures
        ids_differ(pins(boards)),
    decreases boards.len(),
{
    if boards.len() > 0 {
        let fewer = boards.drop_last();
        let last = boards.len() - 1;
        assert forall|b: int, i: int, c: int, j: int|
            0 <= b < fewer.len() && 0 <= i < fewer[b].notes.len() && 0 <= c < fewer.len() && 0 <= j
                < fewer[c].notes.len() && (#[trigger] fewer[b].notes[i]).id == (
            #[trigger] fewer[c].notes[j]).id implies b == c && i == j by {
            assert(fewer[b].notes[i] == boards[b].notes[i]);
            assert(fewer[c].notes[j] == boards[c].notes[j]);
        }
        law_ids_kept_apart_are_saved_apart(fewer);
        let before = pins(fewer);
        let all = pins(boards);
        assert forall|i: int, j: int| 0 <= i < j < all.len() implies (#[trigger] all[i]).1.id != (
        #[trigger] all[j]).1.id by {
            if j < before.len() {
                assert(before[i] == all[i] && before[j] == all[j]);
            } else {
                let q = j - before.len();
                assert(all[j].1 == boards[last].notes[q]);
                if i < before.len() {
                    assert(all[i] == before[i]);
                    let at = lemma_pin_is_on_a_board(fewer, i);
                    assert(boards[at.0].notes[at.1] == fewer[at.0].notes[at.1]);
                    assert(boards[at.0].notes[at.1].id != boards[last].notes[q].id);
                } else {
                    let p = i - before.len();
                    assert(all[i].1 == boards[last].notes[p]);
                    assert(boards[last].notes[p].id != boards[last].notes[q].id);
                }
            }
        }
    }
}

} // verus!

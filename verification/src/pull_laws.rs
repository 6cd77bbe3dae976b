//! What a pull is for: what the other machine pushed is brought in, by the plainest
//! means there is, and nothing is decided that only a person can decide.

use crate::git::{asks, asks_of, Answer, NextView, Outcome};
use crate::merge::merged;
use crate::last_world::{settled, world_file};
use crate::pull::{
    conflicts, conflicts_in, in_conflict, ours_to_settle, path_of, pins_in, pulling,
    resolving, settling, settling_one, Settling,
};
use crate::sync::{counts, names_a_remote};
use crate::sync_laws::{
    counts_line, fetch_line, is_repo_line, lemma_counts_line, lemma_fetch_line, lemma_more,
    lemma_short_lines, lemma_two, lemma_upstream_line, remote_line, upstream_line,
};
use crate::text::split;
use vstd::prelude::*;

verus! {

pub open spec fn forward_line() -> Seq<Seq<char>> {
    seq!["merge"@, "--ff-only"@, "@{u}"@]
}

pub open spec fn rebase_line() -> Seq<Seq<char>> {
    seq!["rebase"@, "@{u}"@]
}

pub open spec fn continue_line() -> Seq<Seq<char>> {
    seq!["-c"@, "core.editor=true"@, "rebase"@, "--continue"@]
}

pub open spec fn abort_line() -> Seq<Seq<char>> {
    seq!["rebase"@, "--abort"@]
}

proof fn lemma_pull_lines()
    ensures
        split("merge --ff-only @{u}"@, ' ') == forward_line(),
        split("rebase @{u}"@, ' ') == rebase_line(),
        split("rebase --abort"@, ' ') == abort_line(),
{
    reveal_strlit("merge --ff-only @{u}");
    reveal_strlit("merge");
    reveal_strlit("--ff-only");
    reveal_strlit("@{u}");
    reveal_strlit("rebase @{u}");
    reveal_strlit("rebase --abort");
    reveal_strlit("rebase");
    reveal_strlit("--abort");
    let two = "merge"@ + seq![' '] + "--ff-only"@;
    lemma_two(two, "merge"@, "--ff-only"@);
    assert("merge --ff-only @{u}"@ =~= two + seq![' '] + "@{u}"@);
    lemma_more("merge --ff-only @{u}"@, two, seq!["merge"@, "--ff-only"@], "@{u}"@);
    assert(forward_line() =~= seq!["merge"@, "--ff-only"@].push("@{u}"@));
    assert("rebase @{u}"@ =~= "rebase"@ + seq![' '] + "@{u}"@);
    lemma_two("rebase @{u}"@, "rebase"@, "@{u}"@);
    assert("rebase --abort"@ =~= "rebase"@ + seq![' '] + "--abort"@);
    lemma_two("rebase --abort"@, "rebase"@, "--abort"@);
}

proof fn lemma_continue_line()
    ensures
        split("-c core.editor=true rebase --continue"@, ' ') == continue_line(),
{
    reveal_strlit("-c core.editor=true rebase --continue");
    reveal_strlit("-c");
    reveal_strlit("core.editor=true");
    reveal_strlit("rebase");
    reveal_strlit("--continue");
    let two = "-c"@ + seq![' '] + "core.editor=true"@;
    lemma_two(two, "-c"@, "core.editor=true"@);
    let three = two + seq![' '] + "rebase"@;
    let words = seq!["-c"@, "core.editor=true"@].push("rebase"@);
    lemma_more(three, two, seq!["-c"@, "core.editor=true"@], "rebase"@);
    assert("-c core.editor=true rebase --continue"@ =~= three + seq![' '] + "--continue"@);
    lemma_more("-c core.editor=true rebase --continue"@, three, words, "--continue"@);
    assert(continue_line() =~= words.push("--continue"@));
}

// ---- the course of a pull ----

/// What a pull asked for once it had the first `i` of the answers.
#[verifier::opaque]
pub open spec fn pull_asked(root: Seq<char>, a: Seq<Answer>, i: int) -> NextView {
    pulling(root, a.take(i))
}

pub open spec fn pull_heard(root: Seq<char>, a: Seq<Answer>) -> bool {
    forall|i: int| 0 <= i < a.len() ==> !(#[trigger] pull_asked(root, a, i) is Finish)
}

/// A pull looks before it does anything: it fetches, and then compares the two
/// sides. With nothing new there it does nothing. With nothing new here it moves
/// forward to the other side. With something new on both it replays what is here
/// on top of what is there.
pub proof fn law_a_pull_goes_by_who_has_what(root: Seq<char>, a: Seq<Answer>)
    requires
        pull_heard(root, a),
    ensures
        ({
            let n = a.len() as int;
            &&& n > 0 ==> pull_asked(root, a, 0) == NextView::Run(is_repo_line())
            &&& n > 1 ==> pull_asked(root, a, 1) == NextView::Run(remote_line())
            &&& n > 2 ==> pull_asked(root, a, 2) == NextView::Run(fetch_line())
            &&& n > 3 ==> pull_asked(root, a, 3) == NextView::Run(upstream_line()) && a[2].ok
            &&& n > 4 ==> pull_asked(root, a, 4) == NextView::Run(counts_line()) && a[3].ok
            &&& n == 5 ==> match counts(a[4]) {
                None => pulling(root, a) is Finish && pulling(root, a)->Finish_0 is Idle,
                Some((behind, ahead)) => if behind == 0 {
                    pulling(root, a) is Finish && pulling(root, a)->Finish_0 is Idle
                } else if ahead == 0 {
                    pulling(root, a) == NextView::Run(forward_line())
                } else {
                    pulling(root, a) == NextView::Run(rebase_line())
                },
            }
            &&& n > 5 ==> (counts(a[4]) matches Some((behind, ahead)) && behind > 0 && pull_asked(
                root,
                a,
                5,
            ) == NextView::Run(
                if ahead == 0 {
                    forward_line()
                } else {
                    rebase_line()
                },
            ))
        }),
{
    lemma_short_lines();
    lemma_fetch_line();
    lemma_upstream_line();
    lemma_counts_line();
    lemma_pull_lines();
    reveal(pull_asked);
    assert forall|i: int, k: int| 0 <= k < i <= a.len() implies #[trigger] a.take(i)[k] == a[k] by {
    }
    if a.len() > 0 {
        assert(!(pull_asked(root, a, 0) is Finish));
    }
    if a.len() > 1 {
        assert(!(pull_asked(root, a, 1) is Finish));
        assert(a.take(1)[0] == a[0]);
    }
    if a.len() > 2 {
        assert(!(pull_asked(root, a, 2) is Finish));
        assert(a.take(2)[0] == a[0] && a.take(2)[1] == a[1]);
    }
    if a.len() > 3 {
        let b = a.take(3);
        assert(!(pull_asked(root, a, 3) is Finish));
        assert(b[0] == a[0] && b[1] == a[1] && b[2] == a[2]);
    }
    if a.len() > 4 {
        let b = a.take(4);
        assert(!(pull_asked(root, a, 4) is Finish));
        assert(b[0] == a[0] && b[1] == a[1] && b[2] == a[2] && b[3] == a[3]);
    }
    if a.len() > 5 {
        let b = a.take(5);
        assert(!(pull_asked(root, a, 5) is Finish));
        assert(b[0] == a[0] && b[1] == a[1] && b[2] == a[2] && b[3] == a[3] && b[4] == a[4]);
    }
}

/// Moving forward ends the pull: it worked exactly when git did it, and stops
/// otherwise. A replay that git did without a conflict ends it too.
pub proof fn law_how_a_plain_pull_ends(root: Seq<char>, a: Seq<Answer>)
    requires
        pull_heard(root, a),
        a.len() == 6,
    ensures
        pull_asked(root, a, 5) == NextView::Run(forward_line()) ==> pulling(root, a) is Finish && (
        pulling(root, a)->Finish_0 is Done <==> a[5].ok) && (pulling(root, a)->Finish_0 is Stopped
            <==> !a[5].ok),
        pull_asked(root, a, 5) == NextView::Run(rebase_line()) && a[5].ok ==> pulling(root, a)
            is Finish && pulling(root, a)->Finish_0 is Done,
{
    law_a_pull_goes_by_who_has_what(root, a);
    lemma_pull_lines();
    assert(forward_line().len() == 3 && rebase_line().len() == 2);
    lemma_five(root, a);
}

proof fn lemma_five(root: Seq<char>, a: Seq<Answer>)
    requires
        pull_heard(root, a),
        a.len() > 5,
    ensures
        a[0].ok && names_a_remote(a[1]) && a[2].ok && a[3].ok,
{
    reveal(pull_asked);
    let b = a.take(5);
    assert(!(pull_asked(root, a, 4) is Finish));
    assert(!(pull_asked(root, a, 5) is Finish));
    assert(b[0] == a[0] && b[1] == a[1] && b[2] == a[2] && b[3] == a[3] && b[4] == a[4]);
    let c = a.take(3);
    assert(!(pull_asked(root, a, 3) is Finish));
    assert(c[0] == a[0] && c[1] == a[1] && c[2] == a[2]);
    assert(!(pull_asked(root, a, 2) is Finish));
    assert(a.take(2)[0] == a[0] && a.take(2)[1] == a[1]);
    assert(!(pull_asked(root, a, 1) is Finish));
    assert(a.take(1)[0] == a[0]);
}

proof fn lemma_replayed_was_continued(
    root: Seq<char>,
    behind: nat,
    ahead: nat,
    a: Seq<Answer>,
    at: int,
    passes: nat,
    pins: int,
)
    requires
        0 <= at <= a.len(),
        resolving(root, behind, ahead, a, at, passes, pins) matches NextView::Finish(
            Outcome::Done(_),
        ),
    ensures
        exists|n: int|
            at <= n < a.len() && a[n].ok && #[trigger] resolving(
                root,
                behind,
                ahead,
                a.take(n),
                at,
                passes,
                pins,
            ) == asks("-c core.editor=true rebase --continue"@),
    decreases passes,
{
    if passes > 0 {
        match conflicts_in(a[at]) {
            None => {},
            Some(files) => {
                crate::pull::lemma_settling_end(a, at + 1, files, 0);
                match settling(a, at + 1, files, 0) {
                    Settling::Asks(_) => {
                        crate::pull::lemma_settling_asks(a, at + 1, files, 0);
                    },
                    Settling::Failed { at: n } => {},
                    Settling::Settled { at: end } => {
                        let more = pins + pins_in(files, files.len() as int);
                        if a[end].ok {
                            crate::pull::lemma_settling_prefix(a, at + 1, files, 0, end);
                            assert(a.take(end)[at] == a[at]);
                            assert(resolving(root, behind, ahead, a.take(end), at, passes, pins)
                                == asks("-c core.editor=true rebase --continue"@));
                        } else {
                            lemma_replayed_was_continued(
                                root,
                                behind,
                                ahead,
                                a,
                                end + 1,
                                (passes - 1) as nat,
                                more,
                            );
                            let n = choose|n: int|
                                end + 1 <= n < a.len() && a[n].ok && #[trigger] resolving(
                                    root,
                                    behind,
                                    ahead,
                                    a.take(n),
                                    end + 1,
                                    (passes - 1) as nat,
                                    more,
                                ) == asks("-c core.editor=true rebase --continue"@);
                            crate::pull::lemma_settling_prefix(a, at + 1, files, 0, n);
                            assert(a.take(n)[at] == a[at]);
                            assert(a.take(n)[end] == a[end]);
                            assert(resolving(root, behind, ahead, a.take(n), at, passes, pins)
                                == asks("-c core.editor=true rebase --continue"@));
                        }
                    },
                }
            },
        }
    }
}

/// A pull says that it worked only where git did what brings the other side in: it
/// moved forward, replayed everything, or finished a replay once the conflicts were
/// settled.
pub proof fn law_a_pull_worked_when_git_did(root: Seq<char>, a: Seq<Answer>)
    requires
        pull_heard(root, a),
        pulling(root, a) is Finish,
        pulling(root, a)->Finish_0 is Done,
    ensures
        exists|n: int|
            0 <= n < a.len() && a[n].ok && {
                ||| #[trigger] pull_asked(root, a, n) == NextView::Run(forward_line())
                ||| pull_asked(root, a, n) == NextView::Run(rebase_line())
                ||| pull_asked(root, a, n) == NextView::Run(continue_line())
            },
{
    law_a_pull_goes_by_who_has_what(root, a);
    lemma_continue_line();
    if a.len() > 5 {
        lemma_five(root, a);
        let (behind, ahead) = counts(a[4])->0;
        if a[5].ok {
            assert(pull_asked(root, a, 5) == NextView::Run(forward_line()) || pull_asked(
                root,
                a,
                5,
            ) == NextView::Run(rebase_line()));
        } else {
            lemma_replayed_was_continued(root, behind as nat, ahead as nat, a, 6, ahead as nat, 0);
            let n = choose|n: int|
                6 <= n < a.len() && a[n].ok && #[trigger] resolving(
                    root,
                    behind as nat,
                    ahead as nat,
                    a.take(n),
                    6,
                    ahead as nat,
                    0,
                ) == asks("-c core.editor=true rebase --continue"@);
            let b = a.take(n);
            reveal(pull_asked);
            assert(b[0] == a[0] && b[1] == a[1] && b[2] == a[2] && b[3] == a[3] && b[4] == a[4]
                && b[5] == a[5]);
            assert(pull_asked(root, a, n) == NextView::Run(continue_line()));
        }
    }
}

// ---- settling a conflict ----

/// The three versions git keeps of a file in conflict are looked at, in order: the
/// common start, the other machine's, and this one's.
pub proof fn law_all_three_sides_are_looked_at(a: Seq<Answer>, at: int, file: Seq<char>)
    requires
        0 <= at,
    ensures
        a.len() == at ==> settling_one(a, at, file) == Settling::Asks(
            NextView::Run(seq!["show"@, ":1:"@ + file]),
        ),
        a.len() == at + 1 ==> settling_one(a, at, file) == Settling::Asks(
            NextView::Run(seq!["show"@, ":2:"@ + file]),
        ),
        a.len() == at + 2 ==> settling_one(a, at, file) == Settling::Asks(
            NextView::Run(seq!["show"@, ":3:"@ + file]),
        ),
{
    lemma_show_line();
    assert(seq!["show"@].push(":1:"@ + file) =~= seq!["show"@, ":1:"@ + file]);
    assert(seq!["show"@].push(":2:"@ + file) =~= seq!["show"@, ":2:"@ + file]);
    assert(seq!["show"@].push(":3:"@ + file) =~= seq!["show"@, ":3:"@ + file]);
    lemma_three_questions(a, at, file);
}

proof fn lemma_three_questions(a: Seq<Answer>, at: int, file: Seq<char>)
    ensures
        a.len() == at ==> settling_one(a, at, file) == Settling::Asks(
            asks_of("show"@, ":1:"@ + file),
        ),
        a.len() == at + 1 ==> settling_one(a, at, file) == Settling::Asks(
            asks_of("show"@, ":2:"@ + file),
        ),
        a.len() == at + 2 ==> settling_one(a, at, file) == Settling::Asks(
            asks_of("show"@, ":3:"@ + file),
        ),
{
    reveal(settling_one);
}

/// What is written over a pin in conflict is the merge of its three sides, each
/// taken for what it is; where that would be a guess, or a side is missing, nothing
/// is written.
pub proof fn law_a_conflict_is_settled_from_its_three_sides(
    a: Seq<Answer>,
    at: int,
    file: Seq<char>,
)
    requires
        0 <= at,
        a.len() == at + 3,
        file != world_file(),
    ensures
        !a[at + 1].ok || !a[at + 2].ok ==> settling_one(a, at, file) is Failed,
        a[at + 1].ok && a[at + 2].ok && a[at].ok ==> settling_one(a, at, file) == write_or_fail(
            file,
            at + 3,
            merged(Some(a[at].out), a[at + 1].out, a[at + 2].out),
        ),
        a[at + 1].ok && a[at + 2].ok && !a[at].ok ==> settling_one(a, at, file) == write_or_fail(
            file,
            at + 3,
            merged(None, a[at + 1].out, a[at + 2].out),
        ),
{
    reveal(settling_one);
}

/// A file to be written, if there is something to write.
pub open spec fn write_or_fail(file: Seq<char>, at: int, text: Option<Seq<char>>) -> Settling {
    match text {
        Some(text) => Settling::Asks(NextView::Write { file, text }),
        None => Settling::Failed { at },
    }
}

/// The record of the open world is always settled, from the other machine's and
/// this one's.
pub proof fn law_the_open_world_is_settled_from_both_sides(a: Seq<Answer>, at: int)
    requires
        0 <= at,
        a.len() == at + 3,
        a[at + 1].ok && a[at + 2].ok,
    ensures
        settling_one(a, at, world_file()) == write_or_fail(
            world_file(),
            at + 3,
            Some(settled(a[at + 1].out, a[at + 2].out).push('\n')),
        ),
{
    reveal(settling_one);
}

/// What was written is staged, and only then is the file settled.
pub proof fn law_a_settled_file_is_staged(a: Seq<Answer>, at: int, file: Seq<char>)
    requires
        0 <= at,
        settling_one(a, at, file) is Settled,
    ensures
        settling_one(a, at, file)->Settled_at == at + 5,
        a.len() >= at + 5,
        settling_one(a.take(at + 3), at, file) matches Settling::Asks(
            NextView::Write { file: f, text: _ },
        ) && f == file,
        a[at + 3].ok,
        settling_one(a.take(at + 4), at, file) == Settling::Asks(
            NextView::Run(seq!["add"@, "--"@, file]),
        ),
        a[at + 4].ok,
{
    reveal(settling_one);
    lemma_show_line();
    let (b, c) = (a.take(at + 3), a.take(at + 4));
    assert(b[at] == a[at] && b[at + 1] == a[at + 1] && b[at + 2] == a[at + 2]);
    assert(c[at] == a[at] && c[at + 1] == a[at + 1] && c[at + 2] == a[at + 2] && c[at + 3] == a[at
        + 3]);
    assert(seq!["add"@, "--"@].push(file) =~= seq!["add"@, "--"@, file]);
}

proof fn lemma_show_line()
    ensures
        split("show"@, ' ') == seq!["show"@],
        split("add --"@, ' ') == seq!["add"@, "--"@],
{
    reveal_strlit("show");
    reveal_strlit("add --");
    reveal_strlit("add");
    reveal_strlit("--");
    crate::text::lemma_split_one("show"@, ' ');
    assert("add --"@ =~= "add"@ + seq![' '] + "--"@);
    lemma_two("add --"@, "add"@, "--"@);
}

/// Files are settled one after the other, and all of them are before the replay
/// goes on: where settling is over, each was settled where the one before it ended.
pub proof fn law_every_file_is_settled_in_turn(a: Seq<Answer>, at: int, files: Seq<Seq<char>>, i: int)
    requires
        0 <= at,
        0 <= i < files.len(),
        settling(a, at, files, 0) is Settled,
    ensures
        settling_one(a, at + 5 * i, files[i]) is Settled,
        settling(a, at, files, 0)->Settled_at == at + 5 * files.len(),
{
    lemma_settled_from(a, at, files, 0);
    lemma_settled_at(a, at, files, 0, i);
}

proof fn lemma_one_settles(a: Seq<Answer>, at: int, file: Seq<char>)
    ensures
        settling_one(a, at, file) matches Settling::Settled { at: end } ==> end == at + 5,
{
    reveal(settling_one);
}

proof fn lemma_settled_from(a: Seq<Answer>, at: int, files: Seq<Seq<char>>, i: int)
    requires
        0 <= at,
        0 <= i <= files.len(),
        settling(a, at, files, i) is Settled,
    ensures
        settling(a, at, files, i)->Settled_at == at + 5 * (files.len() - i),
    decreases files.len() - i,
{
    reveal_with_fuel(settling, 1);
    if i < files.len() {
        lemma_one_settles(a, at, files[i]);
        lemma_settled_from(a, at + 5, files, i + 1);
    }
}

proof fn lemma_settled_at(a: Seq<Answer>, at: int, files: Seq<Seq<char>>, from: int, i: int)
    requires
        0 <= at,
        0 <= from <= i < files.len(),
        settling(a, at, files, from) is Settled,
    ensures
        settling_one(a, at + 5 * (i - from), files[i]) is Settled,
    decreases i - from,
{
    reveal_with_fuel(settling, 1);
    lemma_one_settles(a, at, files[from]);
    if from < i {
        lemma_settled_at(a, at + 5, files, from + 1, i);
    }
}

// ---- which conflicts are ours ----

/// One of the first `n` entries says that a path is in conflict.
pub open spec fn in_conflict_at(entries: Seq<Seq<char>>, n: int, path: Seq<char>) -> bool {
    exists|i: int| 0 <= i < n && in_conflict(#[trigger] entries[i]) && path_of(entries[i]) == path
}

/// A replay is gone on with only where every file in conflict is one that can be
/// settled, and then every such file is: none is passed over, and none that is not
/// in conflict is touched.
pub proof fn law_all_conflicts_or_none(entries: Seq<Seq<char>>, n: int)
    requires
        0 <= n <= entries.len(),
    ensures
        conflicts(entries, n) is None <==> exists|i: int|
            0 <= i < n && in_conflict(#[trigger] entries[i]) && !ours_to_settle(entries[i]),
        conflicts(entries, n) matches Some(files) ==> {
            &&& forall|i: int|
                0 <= i < n && in_conflict(#[trigger] entries[i]) ==> files.contains(
                    path_of(entries[i]),
                )
            &&& forall|k: int|
                0 <= k < files.len() ==> in_conflict_at(entries, n, #[trigger] files[k])
        },
    decreases n,
{
    if n > 0 {
        law_all_conflicts_or_none(entries, n - 1);
        let e = entries[n - 1];
        let before = conflicts(entries, n - 1);
        if let Some(files) = conflicts(entries, n) {
            let old = before->0;
            assert forall|i: int| 0 <= i < n && in_conflict(#[trigger] entries[i]) implies files.contains(
                path_of(entries[i]),
            ) by {
                if i < n - 1 {
                    assert(old.contains(path_of(entries[i])));
                    let k = choose|k: int| 0 <= k < old.len() && old[k] == path_of(entries[i]);
                    assert(files[k] == path_of(entries[i]));
                } else {
                    assert(files[files.len() - 1] == path_of(e));
                }
            }
            assert forall|k: int| 0 <= k < files.len() implies in_conflict_at(
                entries,
                n,
                #[trigger] files[k],
            ) by {
                if k < old.len() {
                    assert(files[k] == old[k]);
                    assert(in_conflict_at(entries, n - 1, old[k]));
                    let i = choose|i: int|
                        0 <= i < n - 1 && in_conflict(#[trigger] entries[i]) && path_of(entries[i])
                            == old[k];
                    assert(in_conflict(entries[i]));
                } else {
                    assert(in_conflict(e));
                }
            }
        } else if before is None {
            let i = choose|i: int|
                0 <= i < n - 1 && in_conflict(#[trigger] entries[i]) && !ours_to_settle(entries[i]);
            assert(in_conflict(entries[i]));
        } else {
            assert(in_conflict(e) && !ours_to_settle(e));
        }
    }
}

/// Only a pin that both machines changed is settled, and the record of the open
/// world. A file that one of them deleted, one that is no pin, and a pin that both
/// made are not.
pub proof fn law_what_can_be_settled(entry: Seq<char>)
    requires
        entry.len() > 3,
    ensures
        ours_to_settle(entry) ==> entry[0] == entry[1] && (entry[0] == 'U' || entry[0] == 'A'),
        ours_to_settle(entry) && path_of(entry) != world_file() ==> entry[0] == 'U' && {
            let p = path_of(entry);
            p.len() >= 3 && p[p.len() - 3] == '.' && p[p.len() - 2] == 'm' && p[p.len() - 1] == 'd'
        },
        entry[0] == 'U' || entry[1] == 'U' || (entry[0] == entry[1] && (entry[0] == 'A' || entry[0]
            == 'D')) <==> in_conflict(entry),
{
    let code = entry.take(2);
    assert(code[0] == entry[0] && code[1] == entry[1]);
    let p = path_of(entry);
    if p.len() >= 3 {
        let t = p.skip(p.len() - 3);
        assert(t[0] == p[p.len() - 3] && t[1] == p[p.len() - 2] && t[2] == p[p.len() - 1]);
    }
    if code.contains('U') {
        let k = choose|k: int| 0 <= k < code.len() && code[k] == 'U';
        assert(entry[k] == 'U');
    }
    assert(entry[0] == 'A' && entry[1] == 'A' ==> code =~= seq!['A', 'A']);
    assert(entry[0] == 'D' && entry[1] == 'D' ==> code =~= seq!['D', 'D']);
}

} // verus!
